//! The event-identifier filter: an allow-list of EventID strings loaded at
//! startup; an empty list, or a record without an identifier, filters
//! nothing.

use vstd::prelude::*;

use crate::value::{event_id_of, event_id_string, RecordValue};

verus! {

/// Whether some entry of the allow-list reads `id`.
pub open spec fn in_allow(allow: Seq<String>, id: Seq<char>) -> bool {
    exists|i: int| 0 <= i < allow.len() && allow[i]@ == id
}

/// Whether the filter lets a record through: always when the list is empty
/// or the record carries no event identifier, else exactly when the
/// identifier is listed.
pub open spec fn accepts(allow: Seq<String>, rec: RecordValue) -> bool {
    allow.len() == 0 || match event_id_of(rec) {
        Some(id) => in_allow(allow, id),
        None => true,
    }
}

/// The allow-list, as read from the target-identifier configuration.
pub struct EventIdFilter {
    pub allow: Vec<String>,
}

impl EventIdFilter {
    /// A filter over the given identifiers; an empty list passes everything.
    pub fn new(allow: Vec<String>) -> (f: EventIdFilter)
        ensures
            f.allow == allow,
    {
        EventIdFilter { allow }
    }

    /// Whether the record is among the targeted event identifiers.
    #[verifier::loop_isolation(false)]
    pub fn is_target_event_id(&self, data: &RecordValue) -> (r: bool)
        ensures
            r == accepts(self.allow@, *data),
    {
        if self.allow.len() == 0 {
            return true;
        }
        match event_id_string(data) {
            None => true,
            Some(id) => {
                let n: usize = self.allow.len();
                let mut i: usize = 0;
                while i < n
                    invariant
                        i <= n,
                        n == self.allow@.len(),
                        forall|j: int| 0 <= j < i ==> self.allow@[j]@ != id@,
                    decreases n - i,
                {
                    if self.allow[i] == id {
                        assert(in_allow(self.allow@, id@));
                        return true;
                    }
                    i = i + 1;
                }
                assert(!in_allow(self.allow@, id@));
                false
            },
        }
    }
}

} // verus!
