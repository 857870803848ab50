//! Record preparation: the fields named by the active rule set are flattened
//! from the record tree into a quick-lookup list, once per record, together
//! with the record's timestamp.

use vstd::prelude::*;

use crate::outside::{rfc3339_epoch, rfc3339_epoch_of};
use crate::value::{
    flat_string, flat_text, path_get, path_lookup, split_dots, split_key, time_of,
    time_string, RecordValue,
};

verus! {

/// The views of a list of key/value pairs.
pub open spec fn pair_views(fs: Seq<(String, String)>) -> Seq<(Seq<char>, Seq<char>)> {
    fs.map_values(|e: (String, String)| (e.0@, e.1@))
}

/// First match in a key/value list.
pub open spec fn assoc_lookup(fs: Seq<(Seq<char>, Seq<char>)>, k: Seq<char>) -> Option<Seq<char>>
    decreases fs.len(),
{
    if fs.len() == 0 {
        None
    } else if fs[0].0 == k {
        Some(fs[0].1)
    } else {
        assoc_lookup(fs.skip(1), k)
    }
}

/// What preparation stores for one key: the flattened text of the value the
/// dotted key reaches, if it reaches one.
pub open spec fn prepared_value(rec: RecordValue, key: Seq<char>) -> Option<Seq<char>> {
    match path_lookup(rec, split_dots(key), 0) {
        Some(v) => Some(flat_text(v)),
        None => None,
    }
}

/// The whole flattened list for a record over the given keys, in key order;
/// missing keys leave no entry.
pub open spec fn flat_pairs_of(rec: RecordValue, keys: Seq<String>) -> Seq<
    (Seq<char>, Seq<char>),
>
    decreases keys.len(),
{
    if keys.len() == 0 {
        Seq::empty()
    } else {
        flat_pairs_of(rec, keys.drop_last()) + match prepared_value(rec, keys.last()@) {
            Some(t) => seq![(keys.last()@, t)],
            None => Seq::<(Seq<char>, Seq<char>)>::empty(),
        }
    }
}

/// The record's timestamp string, empty where it carries none.
pub open spec fn ts_text_of(rec: RecordValue) -> Seq<char> {
    match time_of(rec) {
        Some(t) => t,
        None => Seq::empty(),
    }
}

/// The record's timestamp in epoch seconds, where the string parses.
pub open spec fn ts_epoch_of(rec: RecordValue) -> Option<i64> {
    match time_of(rec) {
        Some(t) => rfc3339_epoch_of(t),
        None => None,
    }
}

/// One record as the engine and the statistics see it.
pub struct PreparedRecord {
    /// The path of the file the record came from.
    pub evtx_filepath: String,
    /// The decoded record tree.
    pub record: RecordValue,
    /// The flattened detection fields, in key order.
    pub flat: Vec<(String, String)>,
    /// The record's timestamp string, empty where absent.
    pub ts_text: String,
    /// The timestamp in epoch seconds, where it parses.
    pub ts_epoch: Option<i64>,
}

impl PreparedRecord {
    /// A prepared record reflects its own tree.
    pub open spec fn well_formed_for(self, keys: Seq<String>) -> bool {
        &&& pair_views(self.flat@) == flat_pairs_of(self.record, keys)
        &&& self.ts_text@ == ts_text_of(self.record)
        &&& self.ts_epoch == ts_epoch_of(self.record)
    }
}

/// Flattens one record: one traversal per key of the detection key set.
#[verifier::loop_isolation(false)]
pub fn prepare_record(rec: RecordValue, path: &String, rule_keys: &Vec<String>) -> (p:
    PreparedRecord)
    ensures
        p.record == rec,
        p.evtx_filepath@ == path@,
        p.well_formed_for(rule_keys@),
{
    let mut flat: Vec<(String, String)> = Vec::new();
    let n: usize = rule_keys.len();
    let mut i: usize = 0;
    proof {
        assert(rule_keys@.take(0) =~= Seq::<String>::empty());
        assert(pair_views(flat@) =~= flat_pairs_of(rec, rule_keys@.take(0)));
    }
    while i < n
        invariant
            i <= n,
            n == rule_keys@.len(),
            pair_views(flat@) == flat_pairs_of(rec, rule_keys@.take(i as int)),
        decreases n - i,
    {
        let key: &String = &rule_keys[i];
        let segs: Vec<String> = split_key(key);
        let ghost before = flat@;
        match path_get(&rec, &segs, 0) {
            Some(v) => {
                let text: String = flat_string(v);
                flat.push((key.clone(), text));
                proof {
                    assert(pair_views(flat@) =~= pair_views(before).push(
                        (key@, flat_text(path_lookup(rec, split_dots(key@), 0)->Some_0)),
                    ));
                }
            },
            None => {},
        }
        proof {
            assert(rule_keys@.take(i + 1).drop_last() =~= rule_keys@.take(i as int));
            assert(rule_keys@.take(i + 1).last() == rule_keys@[i as int]);
            assert(pair_views(flat@) =~= flat_pairs_of(rec, rule_keys@.take(i + 1)));
        }
        i = i + 1;
    }
    proof {
        assert(rule_keys@.take(n as int) =~= rule_keys@);
    }
    let ts_text: String = match time_string(&rec) {
        Some(t) => t,
        None => String::new(),
    };
    let ts_epoch: Option<i64> = match time_string(&rec) {
        Some(t) => rfc3339_epoch(&t),
        None => None,
    };
    PreparedRecord { evtx_filepath: path.clone(), record: rec, flat, ts_text, ts_epoch }
}

/// Prepares a whole batch, in input order. Each record's preparation is
/// independent of the others', so a host may equally fan the records out to
/// parallel workers and gather the results in input order.
#[verifier::loop_isolation(false)]
pub fn prepare_batch(records: Vec<RecordValue>, path: &String, rule_keys: &Vec<String>) -> (ps:
    Vec<PreparedRecord>)
    ensures
        ps@.len() == records@.len(),
        forall|i: int|
            0 <= i < records@.len() ==> {
                &&& (#[trigger] ps@[i]).record == records@[i]
                &&& ps@[i].evtx_filepath@ == path@
                &&& ps@[i].well_formed_for(rule_keys@)
            },
{
    let mut out: Vec<PreparedRecord> = Vec::new();
    let n: usize = records.len();
    let ghost orig = records@;
    let mut remaining: Vec<RecordValue> = records;
    let mut i: usize = 0;
    proof {
        assert(remaining@ =~= orig.skip(0));
    }
    while i < n
        invariant
            i <= n,
            n == orig.len(),
            out@.len() == i,
            remaining@ == orig.skip(i as int),
            forall|k: int|
                0 <= k < i ==> {
                    &&& (#[trigger] out@[k]).record == orig[k]
                    &&& out@[k].evtx_filepath@ == path@
                    &&& out@[k].well_formed_for(rule_keys@)
                },
        decreases n - i,
    {
        let rec: RecordValue = remaining.remove(0);
        proof {
            assert(orig.skip(i as int)[0] == orig[i as int]);
            assert(remaining@ =~= orig.skip(i + 1));
        }
        let p: PreparedRecord = prepare_record(rec, path, rule_keys);
        out.push(p);
        i = i + 1;
    }
    out
}

} // verus!
