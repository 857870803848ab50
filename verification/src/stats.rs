//! The statistics accumulator: per file, the record total, the timestamp
//! bounds, the event-identifier histogram, and the per-user logon tally.

use vstd::prelude::*;

use crate::prepare::PreparedRecord;
use crate::strtext::{lex_le, lex_lt};
use crate::value::{event_id_of, event_id_string, target_user_of, target_user_string, RecordValue};

verus! {

/// Per-user logon outcome counts.
pub struct LogonTally {
    pub failed: usize,
    pub succeeded: usize,
}

/// The records a prepared batch carries.
pub open spec fn recs_of(ps: Seq<PreparedRecord>) -> Seq<RecordValue> {
    ps.map_values(|p: PreparedRecord| p.record)
}

/// The views of the histogram rows.
pub open spec fn hist_views(l: Seq<(String, usize)>) -> Seq<(Seq<char>, int)> {
    l.map_values(|e: (String, usize)| (e.0@, e.1 as int))
}

/// The views of the logon rows.
pub open spec fn login_views(l: Seq<(String, LogonTally)>) -> Seq<(Seq<char>, int, int)> {
    l.map_values(|e: (String, LogonTally)| (e.0@, e.1.failed as int, e.1.succeeded as int))
}

/// The count a histogram holds for a key.
pub open spec fn hist_lookup(h: Seq<(Seq<char>, int)>, k: Seq<char>) -> Option<int>
    decreases h.len(),
{
    if h.len() == 0 {
        None
    } else if h[0].0 == k {
        Some(h[0].1)
    } else {
        hist_lookup(h.skip(1), k)
    }
}

/// The sum of a histogram's counts.
pub open spec fn hist_sum(h: Seq<(Seq<char>, int)>) -> int
    decreases h.len(),
{
    if h.len() == 0 {
        0
    } else {
        h[0].1 + hist_sum(h.skip(1))
    }
}

/// A histogram with one more occurrence of `k`: the first row for `k` is
/// raised by one, or a fresh row appended.
pub open spec fn hist_bump(h: Seq<(Seq<char>, int)>, k: Seq<char>) -> Seq<(Seq<char>, int)>
    decreases h.len(),
{
    if h.len() == 0 {
        seq![(k, 1int)]
    } else if h[0].0 == k {
        seq![(h[0].0, h[0].1 + 1)] + h.skip(1)
    } else {
        seq![h[0]] + hist_bump(h.skip(1), k)
    }
}

/// The histogram after counting the records' event identifiers, in input
/// order; records without one leave it unchanged.
pub open spec fn hist_after(h: Seq<(Seq<char>, int)>, recs: Seq<RecordValue>) -> Seq<
    (Seq<char>, int),
>
    decreases recs.len(),
{
    if recs.len() == 0 {
        h
    } else {
        let prev = hist_after(h, recs.drop_last());
        match event_id_of(recs.last()) {
            Some(id) => hist_bump(prev, id),
            None => prev,
        }
    }
}

/// How many of the records carry an event identifier.
pub open spec fn count_with_id(recs: Seq<RecordValue>) -> int
    decreases recs.len(),
{
    if recs.len() == 0 {
        0
    } else {
        count_with_id(recs.drop_last()) + if event_id_of(recs.last()) is Some {
            1int
        } else {
            0int
        }
    }
}

/// The sum of the logon rows' two counters.
pub open spec fn login_sum(l: Seq<(Seq<char>, int, int)>) -> int
    decreases l.len(),
{
    if l.len() == 0 {
        0
    } else {
        l[0].1 + l[0].2 + login_sum(l.skip(1))
    }
}

/// The logon rows with one more outcome for `user`: the first row for the
/// user is raised, or a fresh row appended.
pub open spec fn login_bump(l: Seq<(Seq<char>, int, int)>, user: Seq<char>, failed: bool) -> Seq<
    (Seq<char>, int, int),
>
    decreases l.len(),
{
    if l.len() == 0 {
        if failed {
            seq![(user, 1int, 0int)]
        } else {
            seq![(user, 0int, 1int)]
        }
    } else if l[0].0 == user {
        if failed {
            seq![(l[0].0, l[0].1 + 1, l[0].2)] + l.skip(1)
        } else {
            seq![(l[0].0, l[0].1, l[0].2 + 1)] + l.skip(1)
        }
    } else {
        seq![l[0]] + login_bump(l.skip(1), user, failed)
    }
}

/// The logon rows after the records, in input order: a record whose event
/// identifier is the success identifier raises its user's success count, one
/// with the failure identifier the failure count; records without a target
/// user leave the rows unchanged.
pub open spec fn login_after(
    l: Seq<(Seq<char>, int, int)>,
    recs: Seq<RecordValue>,
    success_id: Seq<char>,
    failure_id: Seq<char>,
) -> Seq<(Seq<char>, int, int)>
    decreases recs.len(),
{
    if recs.len() == 0 {
        l
    } else {
        let prev = login_after(l, recs.drop_last(), success_id, failure_id);
        match (event_id_of(recs.last()), target_user_of(recs.last())) {
            (Some(id), Some(user)) => if id == success_id {
                login_bump(prev, user, false)
            } else if id == failure_id {
                login_bump(prev, user, true)
            } else {
                prev
            },
            _ => prev,
        }
    }
}

/// The timestamp text of a prepared record, taken as absent when empty.
pub open spec fn ts_or_empty(p: PreparedRecord) -> Seq<char> {
    p.ts_text@
}

/// The smallest timestamp among `recs`, starting from `cur`; empty means
/// none seen yet.
pub open spec fn min_ts(cur: Seq<char>, recs: Seq<PreparedRecord>) -> Seq<char>
    decreases recs.len(),
{
    if recs.len() == 0 {
        cur
    } else {
        let prev = min_ts(cur, recs.drop_last());
        let t = ts_or_empty(recs.last());
        if t.len() == 0 {
            prev
        } else if prev.len() == 0 || lex_lt(t, prev) {
            t
        } else {
            prev
        }
    }
}

/// The largest timestamp among `recs`, starting from `cur`.
pub open spec fn max_ts(cur: Seq<char>, recs: Seq<PreparedRecord>) -> Seq<char>
    decreases recs.len(),
{
    if recs.len() == 0 {
        cur
    } else {
        let prev = max_ts(cur, recs.drop_last());
        let t = ts_or_empty(recs.last());
        if t.len() == 0 {
            prev
        } else if prev.len() == 0 || lex_lt(prev, t) {
            t
        } else {
            prev
        }
    }
}

/// The statistics of one event file.
pub struct EventStatistics {
    /// How many records were taken in.
    pub total: usize,
    /// The path of the file the records came from.
    pub filepath: String,
    /// The smallest timestamp seen, empty before any.
    pub start_time: String,
    /// The largest timestamp seen, empty before any.
    pub end_time: String,
    /// The event-identifier histogram, rows in first-occurrence order.
    pub stats_list: Vec<(String, usize)>,
    /// The per-user logon tally, rows in first-occurrence order.
    pub stats_login_list: Vec<(String, LogonTally)>,
    /// The event identifier counted as a successful logon.
    pub success_id: String,
    /// The event identifier counted as a failed logon.
    pub failure_id: String,
}

/// Every count of a histogram is at most the sum, when none is negative.
proof fn lemma_hist_nonneg_sum(h: Seq<(Seq<char>, int)>)
    requires
        forall|j: int| 0 <= j < h.len() ==> (#[trigger] h[j]).1 >= 0,
    ensures
        hist_sum(h) >= 0,
        forall|j: int| 0 <= j < h.len() ==> (#[trigger] h[j]).1 <= hist_sum(h),
    decreases h.len(),
{
    if h.len() > 0 {
        assert(forall|j: int| 0 <= j < h.skip(1).len() ==> (#[trigger] h.skip(1)[j]).1 >= 0) by {
            assert(forall|j: int| 0 <= j < h.skip(1).len() ==> h.skip(1)[j] == h[j + 1]);
        }
        lemma_hist_nonneg_sum(h.skip(1));
        assert(forall|j: int| 1 <= j < h.len() ==> h[j] == h.skip(1)[j - 1]);
    }
}

/// A bump raises the sum by one and keeps every count non-negative.
proof fn lemma_hist_bump_sum(h: Seq<(Seq<char>, int)>, k: Seq<char>)
    requires
        forall|j: int| 0 <= j < h.len() ==> (#[trigger] h[j]).1 >= 0,
    ensures
        hist_sum(hist_bump(h, k)) == hist_sum(h) + 1,
        forall|j: int|
            0 <= j < hist_bump(h, k).len() ==> (#[trigger] hist_bump(h, k)[j]).1 >= 0,
    decreases h.len(),
{
    let out = hist_bump(h, k);
    if h.len() == 0 {
        assert(out =~= seq![(k, 1int)]);
        assert(out.skip(1) =~= Seq::<(Seq<char>, int)>::empty());
        assert(hist_sum(out.skip(1)) == 0);
        assert(out[0].1 == 1);
        assert(hist_sum(out) == 1);
    } else if h[0].0 == k {
        assert(out =~= seq![(h[0].0, h[0].1 + 1)] + h.skip(1));
        assert(out.skip(1) =~= h.skip(1));
        assert(out[0].1 == h[0].1 + 1);
        assert(hist_sum(out) == out[0].1 + hist_sum(out.skip(1)));
        assert(hist_sum(h) == h[0].1 + hist_sum(h.skip(1)));
    } else {
        assert(forall|j: int| 0 <= j < h.skip(1).len() ==> h.skip(1)[j] == h[j + 1]);
        lemma_hist_bump_sum(h.skip(1), k);
        assert(out =~= seq![h[0]] + hist_bump(h.skip(1), k));
        assert(out.skip(1) =~= hist_bump(h.skip(1), k));
        assert(out[0] == h[0]);
        assert(hist_sum(out) == out[0].1 + hist_sum(out.skip(1)));
        assert(hist_sum(h) == h[0].1 + hist_sum(h.skip(1)));
    }
}

/// Counting records raises the sum by the number that carry an identifier.
pub proof fn lemma_hist_after_sum(h: Seq<(Seq<char>, int)>, recs: Seq<RecordValue>)
    requires
        forall|j: int| 0 <= j < h.len() ==> (#[trigger] h[j]).1 >= 0,
    ensures
        hist_sum(hist_after(h, recs)) == hist_sum(h) + count_with_id(recs),
        forall|j: int|
            0 <= j < hist_after(h, recs).len() ==> (#[trigger] hist_after(h, recs)[j]).1 >= 0,
    decreases recs.len(),
{
    if recs.len() > 0 {
        lemma_hist_after_sum(h, recs.drop_last());
        match event_id_of(recs.last()) {
            Some(id) => {
                lemma_hist_bump_sum(hist_after(h, recs.drop_last()), id);
            },
            None => {},
        }
    }
}

/// A bump at the first row holding the key is an update of that row.
proof fn lemma_hist_bump_at(h: Seq<(Seq<char>, int)>, k: Seq<char>, i: int)
    requires
        0 <= i < h.len(),
        h[i].0 == k,
        forall|j: int| 0 <= j < i ==> (#[trigger] h[j]).0 != k,
    ensures
        hist_bump(h, k) == h.update(i, (h[i].0, h[i].1 + 1)),
    decreases i,
{
    if i == 0 {
        assert(hist_bump(h, k) =~= h.update(0, (h[0].0, h[0].1 + 1)));
    } else {
        assert(forall|j: int| 0 <= j < h.skip(1).len() ==> h.skip(1)[j] == h[j + 1]);
        lemma_hist_bump_at(h.skip(1), k, i - 1);
        assert(hist_bump(h, k) =~= h.update(i, (h[i].0, h[i].1 + 1)));
    }
}

/// A bump of an unseen key appends a fresh row.
proof fn lemma_hist_bump_absent(h: Seq<(Seq<char>, int)>, k: Seq<char>)
    requires
        forall|j: int| 0 <= j < h.len() ==> (#[trigger] h[j]).0 != k,
    ensures
        hist_bump(h, k) == h.push((k, 1int)),
    decreases h.len(),
{
    if h.len() == 0 {
        assert(hist_bump(h, k) =~= h.push((k, 1int)));
    } else {
        assert(forall|j: int| 0 <= j < h.skip(1).len() ==> h.skip(1)[j] == h[j + 1]);
        lemma_hist_bump_absent(h.skip(1), k);
        assert(hist_bump(h, k) =~= h.push((k, 1int)));
    }
}

/// The logon analogues of the histogram lemmas.
proof fn lemma_login_nonneg_sum(l: Seq<(Seq<char>, int, int)>)
    requires
        forall|j: int|
            0 <= j < l.len() ==> (#[trigger] l[j]).1 >= 0 && l[j].2 >= 0,
    ensures
        login_sum(l) >= 0,
        forall|j: int|
            0 <= j < l.len() ==> (#[trigger] l[j]).1 + l[j].2 <= login_sum(l),
    decreases l.len(),
{
    if l.len() > 0 {
        assert(forall|j: int| 0 <= j < l.skip(1).len() ==> l.skip(1)[j] == l[j + 1]);
        lemma_login_nonneg_sum(l.skip(1));
        assert(forall|j: int| 1 <= j < l.len() ==> l[j] == l.skip(1)[j - 1]);
    }
}

proof fn lemma_login_bump_sum(l: Seq<(Seq<char>, int, int)>, user: Seq<char>, failed: bool)
    requires
        forall|j: int|
            0 <= j < l.len() ==> (#[trigger] l[j]).1 >= 0 && l[j].2 >= 0,
    ensures
        login_sum(login_bump(l, user, failed)) == login_sum(l) + 1,
        forall|j: int|
            0 <= j < login_bump(l, user, failed).len() ==> (#[trigger] login_bump(
                l,
                user,
                failed,
            )[j]).1 >= 0 && login_bump(l, user, failed)[j].2 >= 0,
    decreases l.len(),
{
    let out = login_bump(l, user, failed);
    if l.len() == 0 {
        assert(out.skip(1) =~= Seq::<(Seq<char>, int, int)>::empty());
        assert(login_sum(out.skip(1)) == 0);
        assert(out[0].1 + out[0].2 == 1);
        assert(login_sum(out) == 1);
    } else if l[0].0 == user {
        assert(out.skip(1) =~= l.skip(1));
        assert(out[0].1 + out[0].2 == l[0].1 + l[0].2 + 1);
        assert(login_sum(out) == out[0].1 + out[0].2 + login_sum(out.skip(1)));
        assert(login_sum(l) == l[0].1 + l[0].2 + login_sum(l.skip(1)));
    } else {
        assert(forall|j: int| 0 <= j < l.skip(1).len() ==> l.skip(1)[j] == l[j + 1]);
        lemma_login_bump_sum(l.skip(1), user, failed);
        assert(out =~= seq![l[0]] + login_bump(l.skip(1), user, failed));
        assert(out.skip(1) =~= login_bump(l.skip(1), user, failed));
        assert(out[0] == l[0]);
        assert(login_sum(out) == out[0].1 + out[0].2 + login_sum(out.skip(1)));
        assert(login_sum(l) == l[0].1 + l[0].2 + login_sum(l.skip(1)));
    }
}

pub proof fn lemma_login_after_sum(
    l: Seq<(Seq<char>, int, int)>,
    recs: Seq<RecordValue>,
    success_id: Seq<char>,
    failure_id: Seq<char>,
)
    requires
        forall|j: int|
            0 <= j < l.len() ==> (#[trigger] l[j]).1 >= 0 && l[j].2 >= 0,
    ensures
        login_sum(login_after(l, recs, success_id, failure_id)) <= login_sum(l) + recs.len(),
        login_sum(login_after(l, recs, success_id, failure_id)) >= login_sum(l),
        forall|j: int|
            0 <= j < login_after(l, recs, success_id, failure_id).len() ==> (#[trigger] login_after(
                l,
                recs,
                success_id,
                failure_id,
            )[j]).1 >= 0 && login_after(l, recs, success_id, failure_id)[j].2 >= 0,
    decreases recs.len(),
{
    if recs.len() > 0 {
        lemma_login_after_sum(l, recs.drop_last(), success_id, failure_id);
        let prev = login_after(l, recs.drop_last(), success_id, failure_id);
        match (event_id_of(recs.last()), target_user_of(recs.last())) {
            (Some(id), Some(user)) => {
                if id == success_id {
                    lemma_login_bump_sum(prev, user, false);
                } else if id == failure_id {
                    lemma_login_bump_sum(prev, user, true);
                }
            },
            _ => {},
        }
    }
}

proof fn lemma_login_bump_at(l: Seq<(Seq<char>, int, int)>, user: Seq<char>, failed: bool, i: int)
    requires
        0 <= i < l.len(),
        l[i].0 == user,
        forall|j: int| 0 <= j < i ==> (#[trigger] l[j]).0 != user,
    ensures
        login_bump(l, user, failed) == l.update(
            i,
            if failed {
                (l[i].0, l[i].1 + 1, l[i].2)
            } else {
                (l[i].0, l[i].1, l[i].2 + 1)
            },
        ),
    decreases i,
{
    if i == 0 {
        assert(login_bump(l, user, failed) =~= l.update(
            0,
            if failed {
                (l[0].0, l[0].1 + 1, l[0].2)
            } else {
                (l[0].0, l[0].1, l[0].2 + 1)
            },
        ));
    } else {
        assert(forall|j: int| 0 <= j < l.skip(1).len() ==> l.skip(1)[j] == l[j + 1]);
        lemma_login_bump_at(l.skip(1), user, failed, i - 1);
        assert(login_bump(l, user, failed) =~= l.update(
            i,
            if failed {
                (l[i].0, l[i].1 + 1, l[i].2)
            } else {
                (l[i].0, l[i].1, l[i].2 + 1)
            },
        ));
    }
}

proof fn lemma_login_bump_absent(l: Seq<(Seq<char>, int, int)>, user: Seq<char>, failed: bool)
    requires
        forall|j: int| 0 <= j < l.len() ==> (#[trigger] l[j]).0 != user,
    ensures
        login_bump(l, user, failed) == l.push(
            if failed {
                (user, 1int, 0int)
            } else {
                (user, 0int, 1int)
            },
        ),
    decreases l.len(),
{
    if l.len() == 0 {
        assert(login_bump(l, user, failed) =~= l.push(
            if failed {
                (user, 1int, 0int)
            } else {
                (user, 0int, 1int)
            },
        ));
    } else {
        assert(forall|j: int| 0 <= j < l.skip(1).len() ==> l.skip(1)[j] == l[j + 1]);
        lemma_login_bump_absent(l.skip(1), user, failed);
        assert(login_bump(l, user, failed) =~= l.push(
            if failed {
                (user, 1int, 0int)
            } else {
                (user, 0int, 1int)
            },
        ));
    }
}

#[verifier::loop_isolation(false)]
fn hist_bump_exec(list: &mut Vec<(String, usize)>, id: String)
    requires
        hist_sum(hist_views(old(list)@)) + 1 <= usize::MAX,
    ensures
        hist_views(final(list)@) == hist_bump(hist_views(old(list)@), id@),
{
    let ghost h0 = hist_views(list@);
    let n: usize = list.len();
    let mut j: usize = 0;
    while j < n
        invariant
            j <= n,
            n == list@.len(),
            list@ == old(list)@,
            forall|k: int| 0 <= k < j ==> (#[trigger] h0[k]).0 != id@,
        decreases n - j,
    {
        if list[j].0 == id {
            proof {
                assert(h0[j as int].0 == id@);
                assert(forall|k: int| 0 <= k < h0.len() ==> (#[trigger] h0[k]).1 >= 0);
                lemma_hist_nonneg_sum(h0);
                assert(list@[j as int].1 < usize::MAX);
                lemma_hist_bump_at(h0, id@, j as int);
            }
            let entry: (String, usize) = list.remove(j);
            let bumped: (String, usize) = (entry.0, entry.1 + 1);
            list.insert(j, bumped);
            proof {
                assert(list@ =~= old(list)@.update(j as int, list@[j as int]));
                assert(hist_views(list@) =~= hist_views(old(list)@).update(
                    j as int,
                    (h0[j as int].0, h0[j as int].1 + 1),
                ));
            }
            return;
        }
        j = j + 1;
    }
    proof {
        lemma_hist_bump_absent(h0, id@);
    }
    let ghost before = list@;
    list.push((id, 1));
    proof {
        assert(hist_views(list@) =~= hist_views(before).push((id@, 1int)));
    }
}

#[verifier::loop_isolation(false)]
fn login_bump_exec(list: &mut Vec<(String, LogonTally)>, user: String, failed: bool)
    requires
        login_sum(login_views(old(list)@)) + 1 <= usize::MAX,
    ensures
        login_views(final(list)@) == login_bump(login_views(old(list)@), user@, failed),
{
    let ghost l0 = login_views(list@);
    let n: usize = list.len();
    let mut j: usize = 0;
    while j < n
        invariant
            j <= n,
            n == list@.len(),
            list@ == old(list)@,
            forall|k: int| 0 <= k < j ==> (#[trigger] l0[k]).0 != user@,
        decreases n - j,
    {
        if list[j].0 == user {
            proof {
                assert(l0[j as int].0 == user@);
                assert(forall|k: int|
                    0 <= k < l0.len() ==> (#[trigger] l0[k]).1 >= 0 && l0[k].2 >= 0);
                lemma_login_nonneg_sum(l0);
                assert(list@[j as int].1.failed + list@[j as int].1.succeeded < usize::MAX);
                lemma_login_bump_at(l0, user@, failed, j as int);
            }
            let entry: (String, LogonTally) = list.remove(j);
            let bumped: (String, LogonTally) = if failed {
                (entry.0, LogonTally { failed: entry.1.failed + 1, succeeded: entry.1.succeeded })
            } else {
                (entry.0, LogonTally { failed: entry.1.failed, succeeded: entry.1.succeeded + 1 })
            };
            list.insert(j, bumped);
            proof {
                assert(list@ =~= old(list)@.update(j as int, list@[j as int]));
                assert(login_views(list@) =~= login_views(old(list)@).update(
                    j as int,
                    if failed {
                        (l0[j as int].0, l0[j as int].1 + 1, l0[j as int].2)
                    } else {
                        (l0[j as int].0, l0[j as int].1, l0[j as int].2 + 1)
                    },
                ));
            }
            return;
        }
        j = j + 1;
    }
    proof {
        lemma_login_bump_absent(l0, user@, failed);
    }
    let ghost before = list@;
    list.push((user, if failed {
        LogonTally { failed: 1, succeeded: 0 }
    } else {
        LogonTally { failed: 0, succeeded: 1 }
    }));
    proof {
        assert(login_views(list@) =~= login_views(before).push(
            if failed {
                (user@, 1int, 0int)
            } else {
                (user@, 0int, 1int)
            },
        ));
    }
}

impl EventStatistics {
    /// The histogram's mathematical content.
    pub open spec fn hist(self) -> Seq<(Seq<char>, int)> {
        hist_views(self.stats_list@)
    }

    /// The logon rows' mathematical content.
    pub open spec fn logins(self) -> Seq<(Seq<char>, int, int)> {
        login_views(self.stats_login_list@)
    }

    /// The timestamp bounds are consistent: both unset or ordered.
    pub open spec fn times_wf(self) -> bool {
        &&& (self.start_time@.len() == 0 <==> self.end_time@.len() == 0)
        &&& (self.start_time@.len() > 0 ==> lex_le(self.start_time@, self.end_time@))
    }

    /// A fresh accumulator over the given state, counting logons with the
    /// default identifiers: a successful logon and a failed one.
    pub fn new(
        total: usize,
        filepath: String,
        start_time: String,
        end_time: String,
        stats_list: Vec<(String, usize)>,
        stats_login_list: Vec<(String, LogonTally)>,
    ) -> (s: EventStatistics)
        ensures
            s.total == total,
            s.filepath == filepath,
            s.start_time == start_time,
            s.end_time == end_time,
            s.stats_list == stats_list,
            s.stats_login_list == stats_login_list,
            s.success_id@ == "4624"@,
            s.failure_id@ == "4625"@,
    {
        EventStatistics {
            total,
            filepath,
            start_time,
            end_time,
            stats_list,
            stats_login_list,
            success_id: String::from_str("4624"),
            failure_id: String::from_str("4625"),
        }
    }

    /// Points the logon tally at other event identifiers.
    pub fn set_logon_ids(&mut self, success_id: String, failure_id: String)
        ensures
            final(self).success_id == success_id,
            final(self).failure_id == failure_id,
            final(self).total == old(self).total,
            final(self).filepath == old(self).filepath,
            final(self).start_time == old(self).start_time,
            final(self).end_time == old(self).end_time,
            final(self).stats_list == old(self).stats_list,
            final(self).stats_login_list == old(self).stats_login_list,
    {
        self.success_id = success_id;
        self.failure_id = failure_id;
    }

    /// Counts the batch into the total and widens the timestamp bounds; the
    /// file path follows the first record seen.
    #[verifier::loop_isolation(false)]
    pub fn stats_time_cnt(&mut self, records: &Vec<PreparedRecord>)
        requires
            old(self).total + records@.len() <= usize::MAX,
        ensures
            final(self).total == old(self).total + records@.len(),
            final(self).start_time@ == min_ts(old(self).start_time@, records@),
            final(self).end_time@ == max_ts(old(self).end_time@, records@),
            final(self).filepath@ == if records@.len() > 0 {
                records@[0].evtx_filepath@
            } else {
                old(self).filepath@
            },
            final(self).stats_list == old(self).stats_list,
            final(self).stats_login_list == old(self).stats_login_list,
            final(self).success_id == old(self).success_id,
            final(self).failure_id == old(self).failure_id,
    {
        let n: usize = records.len();
        if n == 0 {
            return;
        }
        self.filepath = records[0].evtx_filepath.clone();
        let mut i: usize = 0;
        proof {
            assert(records@.take(0) =~= Seq::<PreparedRecord>::empty());
        }
        while i < n
            invariant
                i <= n,
                self.start_time@ == min_ts(old(self).start_time@, records@.take(i as int)),
                self.end_time@ == max_ts(old(self).end_time@, records@.take(i as int)),
                self.total == old(self).total,
                self.filepath@ == records@[0].evtx_filepath@,
                self.stats_list == old(self).stats_list,
                self.stats_login_list == old(self).stats_login_list,
                self.success_id == old(self).success_id,
                self.failure_id == old(self).failure_id,
            decreases n - i,
        {
            let t: &String = &records[i].ts_text;
            let t_len: usize = t.as_str().unicode_len();
            proof {
                assert(records@.take(i + 1).drop_last() =~= records@.take(i as int));
                assert(records@.take(i + 1).last() == records@[i as int]);
            }
            if t_len > 0 {
                let start_len: usize = self.start_time.as_str().unicode_len();
                if start_len == 0 || crate::strtext::str_lt(t, &self.start_time) {
                    self.start_time = t.clone();
                }
                let end_len: usize = self.end_time.as_str().unicode_len();
                if end_len == 0 || crate::strtext::str_lt(&self.end_time, t) {
                    self.end_time = t.clone();
                }
            }
            i = i + 1;
        }
        proof {
            assert(records@.take(n as int) =~= records@);
        }
        self.total = self.total + records.len();
    }

    /// Counts the records' event identifiers into the histogram.
    #[verifier::loop_isolation(false)]
    pub fn stats_eventid(&mut self, records: &Vec<PreparedRecord>)
        requires
            hist_sum(old(self).hist()) + records@.len() <= usize::MAX,
        ensures
            final(self).hist() == hist_after(old(self).hist(), recs_of(records@)),
            final(self).total == old(self).total,
            final(self).filepath == old(self).filepath,
            final(self).start_time == old(self).start_time,
            final(self).end_time == old(self).end_time,
            final(self).stats_login_list == old(self).stats_login_list,
            final(self).success_id == old(self).success_id,
            final(self).failure_id == old(self).failure_id,
    {
        let ghost h0 = old(self).hist();
        let n: usize = records.len();
        let mut i: usize = 0;
        proof {
            assert(recs_of(records@.take(0)) =~= Seq::<RecordValue>::empty());
            assert(forall|j: int| 0 <= j < h0.len() ==> (#[trigger] h0[j]).1 >= 0);
            lemma_hist_after_sum(h0, recs_of(records@.take(0)));
        }
        while i < n
            invariant
                i <= n,
                n == records@.len(),
                self.hist() == hist_after(h0, recs_of(records@.take(i as int))),
                hist_sum(self.hist()) <= hist_sum(h0) + i,
                self.total == old(self).total,
                self.filepath == old(self).filepath,
                self.start_time == old(self).start_time,
                self.end_time == old(self).end_time,
                self.stats_login_list == old(self).stats_login_list,
                self.success_id == old(self).success_id,
                self.failure_id == old(self).failure_id,
            decreases n - i,
        {
            let ghost pre = self.hist();
            proof {
                assert(recs_of(records@.take(i + 1)).drop_last() =~= recs_of(
                    records@.take(i as int),
                ));
                assert(recs_of(records@.take(i + 1)).last() == records@[i as int].record);
            }
            match event_id_string(&records[i].record) {
                Some(id) => {
                    proof {
                        assert(forall|j: int| 0 <= j < pre.len() ==> (#[trigger] pre[j]).1 >= 0);
                        lemma_hist_bump_sum(pre, id@);
                    }
                    hist_bump_exec(&mut self.stats_list, id);
                },
                None => {},
            }
            i = i + 1;
        }
        proof {
            assert(records@.take(n as int) =~= records@);
        }
    }

    /// Counts the records' logon outcomes per target user.
    #[verifier::loop_isolation(false)]
    pub fn stats_login_eventid(&mut self, records: &Vec<PreparedRecord>)
        requires
            login_sum(old(self).logins()) + records@.len() <= usize::MAX,
        ensures
            final(self).logins() == login_after(
                old(self).logins(),
                recs_of(records@),
                old(self).success_id@,
                old(self).failure_id@,
            ),
            final(self).total == old(self).total,
            final(self).filepath == old(self).filepath,
            final(self).start_time == old(self).start_time,
            final(self).end_time == old(self).end_time,
            final(self).stats_list == old(self).stats_list,
            final(self).success_id == old(self).success_id,
            final(self).failure_id == old(self).failure_id,
    {
        let ghost l0 = old(self).logins();
        let ghost succ = old(self).success_id@;
        let ghost fail = old(self).failure_id@;
        let n: usize = records.len();
        let mut i: usize = 0;
        proof {
            assert(recs_of(records@.take(0)) =~= Seq::<RecordValue>::empty());
        }
        while i < n
            invariant
                i <= n,
                n == records@.len(),
                self.logins() == login_after(l0, recs_of(records@.take(i as int)), succ, fail),
                login_sum(self.logins()) <= login_sum(l0) + i,
                self.total == old(self).total,
                self.filepath == old(self).filepath,
                self.start_time == old(self).start_time,
                self.end_time == old(self).end_time,
                self.stats_list == old(self).stats_list,
                self.success_id == old(self).success_id,
                self.failure_id == old(self).failure_id,
            decreases n - i,
        {
            let ghost pre = self.logins();
            proof {
                assert(recs_of(records@.take(i + 1)).drop_last() =~= recs_of(
                    records@.take(i as int),
                ));
                assert(recs_of(records@.take(i + 1)).last() == records@[i as int].record);
            }
            let id_opt: Option<String> = event_id_string(&records[i].record);
            let user_opt: Option<String> = target_user_string(&records[i].record);
            match (id_opt, user_opt) {
                (Some(id), Some(user)) => {
                    let is_success: bool = id == self.success_id;
                    let is_failure: bool = id == self.failure_id;
                    proof {
                        assert(forall|j: int|
                            0 <= j < pre.len() ==> (#[trigger] pre[j]).1 >= 0 && pre[j].2 >= 0);
                    }
                    if is_success {
                        proof {
                            lemma_login_bump_sum(pre, user@, false);
                        }
                        login_bump_exec(&mut self.stats_login_list, user, false);
                    } else if is_failure {
                        proof {
                            lemma_login_bump_sum(pre, user@, true);
                        }
                        login_bump_exec(&mut self.stats_login_list, user, true);
                    }
                },
                _ => {},
            }
            i = i + 1;
        }
        proof {
            assert(records@.take(n as int) =~= records@);
        }
    }

    /// Takes one prepared batch into every accumulator: the count and
    /// timestamp bounds, the identifier histogram, and the logon tally.
    pub fn start(&mut self, records: &Vec<PreparedRecord>)
        requires
            old(self).total + records@.len() <= usize::MAX,
            hist_sum(old(self).hist()) + records@.len() <= usize::MAX,
            login_sum(old(self).logins()) + records@.len() <= usize::MAX,
        ensures
            final(self).total == old(self).total + records@.len(),
            final(self).start_time@ == min_ts(old(self).start_time@, records@),
            final(self).end_time@ == max_ts(old(self).end_time@, records@),
            final(self).filepath@ == if records@.len() > 0 {
                records@[0].evtx_filepath@
            } else {
                old(self).filepath@
            },
            final(self).hist() == hist_after(old(self).hist(), recs_of(records@)),
            final(self).logins() == login_after(
                old(self).logins(),
                recs_of(records@),
                old(self).success_id@,
                old(self).failure_id@,
            ),
            final(self).success_id == old(self).success_id,
            final(self).failure_id == old(self).failure_id,
    {
        self.stats_time_cnt(records);
        self.stats_eventid(records);
        self.stats_login_eventid(records);
    }
}

/// Counting a stream where every record carries an event identifier leaves
/// the histogram summing to exactly the stream's length more: with a total
/// that matched the sum before, it matches after.
pub proof fn lemma_histogram_matches_total(
    h: Seq<(Seq<char>, int)>,
    recs: Seq<RecordValue>,
    total: int,
)
    requires
        hist_sum(h) == total,
        forall|j: int| 0 <= j < h.len() ==> (#[trigger] h[j]).1 >= 0,
        forall|i: int| 0 <= i < recs.len() ==> event_id_of(#[trigger] recs[i]) is Some,
    ensures
        hist_sum(hist_after(h, recs)) == total + recs.len(),
    decreases recs.len(),
{
    lemma_hist_after_sum(h, recs);
    lemma_count_with_id_full(recs);
}

/// No more records carry an identifier than there are records.
pub proof fn lemma_count_le(recs: Seq<RecordValue>)
    ensures
        0 <= count_with_id(recs) <= recs.len(),
    decreases recs.len(),
{
    if recs.len() > 0 {
        lemma_count_le(recs.drop_last());
    }
}

proof fn lemma_count_with_id_full(recs: Seq<RecordValue>)
    requires
        forall|i: int| 0 <= i < recs.len() ==> event_id_of(#[trigger] recs[i]) is Some,
    ensures
        count_with_id(recs) == recs.len(),
    decreases recs.len(),
{
    if recs.len() > 0 {
        lemma_count_with_id_full(recs.drop_last());
    }
}

/// How often a given identifier occurs among the records.
pub open spec fn id_multiplicity(recs: Seq<RecordValue>, id: Seq<char>) -> int
    decreases recs.len(),
{
    if recs.len() == 0 {
        0
    } else {
        id_multiplicity(recs.drop_last(), id) + if event_id_of(recs.last()) == Some(id) {
            1int
        } else {
            0int
        }
    }
}

proof fn lemma_hist_bump_lookup(h: Seq<(Seq<char>, int)>, k: Seq<char>, id: Seq<char>)
    ensures
        hist_lookup(hist_bump(h, k), id) == if id == k {
            match hist_lookup(h, id) {
                Some(c) => Some(c + 1),
                None => Some(1int),
            }
        } else {
            hist_lookup(h, id)
        },
    decreases h.len(),
{
    let out = hist_bump(h, k);
    if h.len() == 0 {
        assert(out =~= seq![(k, 1int)]);
        assert(out[0] == (k, 1int));
        assert(out.skip(1) =~= Seq::<(Seq<char>, int)>::empty());
        assert(hist_lookup(out.skip(1), id) is None);
    } else if h[0].0 == k {
        assert(out =~= seq![(h[0].0, h[0].1 + 1)] + h.skip(1));
        assert(out[0] == (h[0].0, h[0].1 + 1));
        assert(out.skip(1) =~= h.skip(1));
    } else {
        lemma_hist_bump_lookup(h.skip(1), k, id);
        assert(out =~= seq![h[0]] + hist_bump(h.skip(1), k));
        assert(out[0] == h[0]);
        assert(out.skip(1) =~= hist_bump(h.skip(1), k));
    }
}

/// The histogram row for each identifier holds exactly the identifier's
/// multiplicity in the counted stream: one more per occurrence, a row
/// appearing with the first.
pub proof fn lemma_hist_after_lookup(h: Seq<(Seq<char>, int)>, recs: Seq<RecordValue>, id: Seq<char>)
    ensures
        hist_lookup(hist_after(h, recs), id) == (match hist_lookup(h, id) {
            Some(c) => Some(c + id_multiplicity(recs, id)),
            None => if id_multiplicity(recs, id) > 0 {
                Some(id_multiplicity(recs, id))
            } else {
                None
            },
        }),
    decreases recs.len(),
{
    lemma_id_multiplicity_nonneg(recs, id);
    if recs.len() > 0 {
        lemma_hist_after_lookup(h, recs.drop_last(), id);
        lemma_id_multiplicity_nonneg(recs.drop_last(), id);
        match event_id_of(recs.last()) {
            Some(k) => {
                lemma_hist_bump_lookup(hist_after(h, recs.drop_last()), k, id);
            },
            None => {},
        }
    }
}

proof fn lemma_id_multiplicity_nonneg(recs: Seq<RecordValue>, id: Seq<char>)
    ensures
        id_multiplicity(recs, id) >= 0,
    decreases recs.len(),
{
    if recs.len() > 0 {
        lemma_id_multiplicity_nonneg(recs.drop_last(), id);
    }
}

/// Widening the timestamp bounds keeps them consistent: both stay unset or
/// the smallest stays at or before the largest.
pub proof fn lemma_time_bounds(start0: Seq<char>, end0: Seq<char>, recs: Seq<PreparedRecord>)
    requires
        start0.len() == 0 <==> end0.len() == 0,
        start0.len() > 0 ==> lex_le(start0, end0),
    ensures
        min_ts(start0, recs).len() == 0 <==> max_ts(end0, recs).len() == 0,
        min_ts(start0, recs).len() > 0 ==> lex_le(min_ts(start0, recs), max_ts(end0, recs)),
    decreases recs.len(),
{
    if recs.len() > 0 {
        lemma_time_bounds(start0, end0, recs.drop_last());
        let pmin = min_ts(start0, recs.drop_last());
        let pmax = max_ts(end0, recs.drop_last());
        let t = ts_or_empty(recs.last());
        if t.len() > 0 {
            if pmin.len() == 0 {
            } else {
                let nmin = min_ts(start0, recs);
                let nmax = max_ts(end0, recs);
                if lex_lt(t, pmin) {
                    if lex_lt(pmax, t) {
                        crate::strtext::lemma_lex_trans(pmax, t, pmin);
                        if lex_lt(pmin, pmax) {
                            crate::strtext::lemma_lex_trans(pmin, pmax, pmin);
                            crate::strtext::lemma_lex_irrefl(pmin);
                        } else {
                            crate::strtext::lemma_lex_irrefl(pmax);
                        }
                    } else {
                        if lex_lt(pmin, pmax) {
                            crate::strtext::lemma_lex_trans(t, pmin, pmax);
                        }
                    }
                } else {
                    if lex_lt(pmax, t) {
                        if lex_lt(pmin, pmax) {
                            crate::strtext::lemma_lex_trans(pmin, pmax, t);
                        }
                    }
                }
            }
        }
    }
}

} // verus!
