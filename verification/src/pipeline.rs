//! The per-file orchestrator: decode results are filtered, gathered into
//! bounded batches, prepared, and handed to the statistics and the engine;
//! what comes out is independent of where the batch boundaries fall.

use vstd::prelude::*;

use crate::engine::{
    batch_matches, feed_of, feed_views, match_views, record_matches_from, AggView, Detection,
    MatchView,
};
use crate::filter::{accepts, in_allow, EventIdFilter};
use crate::prepare::{
    flat_pairs_of, prepare_batch, ts_epoch_of, ts_text_of, PreparedRecord,
};
use crate::rules::{cond_holds, Rule};
use crate::stats::{
    hist_after, hist_sum, login_after, login_sum, max_ts, min_ts, recs_of,
};
use crate::timeline::Timeline;
use crate::value::{event_id_of, RecordValue};

verus! {

/// The records that pass decoding and the filter, in input order.
pub open spec fn accepted_of(records: Seq<Result<RecordValue, String>>, allow: Seq<String>) -> Seq<
    RecordValue,
>
    decreases records.len(),
{
    if records.len() == 0 {
        Seq::empty()
    } else {
        accepted_of(records.drop_last(), allow) + match records.last() {
            Ok(v) => if accepts(allow, v) {
                seq![v]
            } else {
                Seq::empty()
            },
            Err(_) => Seq::empty(),
        }
    }
}

/// The reported line for one failed decode.
pub open spec fn decode_error_line(path: Seq<char>, msg: Seq<char>) -> Seq<char> {
    "Failed to parse event file. EventFile:"@ + path + " Error:"@ + msg
}

/// The reported lines of a decode stream, in input order.
pub open spec fn decode_errors_of(records: Seq<Result<RecordValue, String>>, path: Seq<char>) -> Seq<
    Seq<char>,
>
    decreases records.len(),
{
    if records.len() == 0 {
        Seq::empty()
    } else {
        decode_errors_of(records.drop_last(), path) + match records.last() {
            Ok(_) => Seq::<Seq<char>>::empty(),
            Err(e) => seq![decode_error_line(path, e@)],
        }
    }
}

/// The match one rule emits for one raw record, at the stream level.
pub open spec fn stream_match(r: Rule, rec: RecordValue, path: Seq<char>, keys: Seq<String>) -> MatchView {
    (r.id@, r.level, path, ts_text_of(rec), flat_pairs_of(rec, keys))
}

/// The matches one raw record gives across the rules from `j` on.
pub open spec fn stream_rec_matches_from(
    rules: Seq<Rule>,
    rec: RecordValue,
    path: Seq<char>,
    keys: Seq<String>,
    j: int,
) -> Seq<MatchView>
    decreases rules.len() - j,
{
    if j < 0 || j >= rules.len() {
        Seq::empty()
    } else {
        let head: Seq<MatchView> = if rules[j].per_event && cond_holds(
            rules[j].condition,
            flat_pairs_of(rec, keys),
        ) {
            seq![stream_match(rules[j], rec, path, keys)]
        } else {
            Seq::empty()
        };
        head + stream_rec_matches_from(rules, rec, path, keys, j + 1)
    }
}

/// The per-event matches of a raw record stream: records in input order,
/// rules in declared order.
pub open spec fn stream_matches(
    rules: Seq<Rule>,
    recs: Seq<RecordValue>,
    path: Seq<char>,
    keys: Seq<String>,
) -> Seq<MatchView>
    decreases recs.len(),
{
    if recs.len() == 0 {
        Seq::empty()
    } else {
        stream_matches(rules, recs.drop_last(), path, keys) + stream_rec_matches_from(
            rules,
            recs.last(),
            path,
            keys,
            0,
        )
    }
}

/// What one raw record feeds one aggregate rule, at the stream level.
pub open spec fn stream_feed_entry(r: Rule, rec: RecordValue, path: Seq<char>, keys: Seq<String>) -> Seq<AggView> {
    match r.aggregate {
        Some(agg) => {
            if cond_holds(r.condition, flat_pairs_of(rec, keys)) && ts_epoch_of(rec) is Some {
                seq![
                    (
                        crate::prepare::assoc_lookup(flat_pairs_of(rec, keys), agg.group_by@),
                        ts_epoch_of(rec)->0,
                        ts_text_of(rec),
                        path,
                        flat_pairs_of(rec, keys),
                    ),
                ]
            } else {
                Seq::empty()
            }
        },
        None => Seq::empty(),
    }
}

/// One aggregate rule's feed over a raw record stream.
pub open spec fn stream_feed(r: Rule, recs: Seq<RecordValue>, path: Seq<char>, keys: Seq<String>) -> Seq<AggView>
    decreases recs.len(),
{
    if recs.len() == 0 {
        Seq::empty()
    } else {
        stream_feed(r, recs.drop_last(), path, keys) + stream_feed_entry(
            r,
            recs.last(),
            path,
            keys,
        )
    }
}

/// The smallest timestamp of a raw record stream, from `cur` on.
pub open spec fn stream_min_ts(cur: Seq<char>, recs: Seq<RecordValue>) -> Seq<char>
    decreases recs.len(),
{
    if recs.len() == 0 {
        cur
    } else {
        let prev = stream_min_ts(cur, recs.drop_last());
        let t = ts_text_of(recs.last());
        if t.len() == 0 {
            prev
        } else if prev.len() == 0 || crate::strtext::lex_lt(t, prev) {
            t
        } else {
            prev
        }
    }
}

/// The largest timestamp of a raw record stream, from `cur` on.
pub open spec fn stream_max_ts(cur: Seq<char>, recs: Seq<RecordValue>) -> Seq<char>
    decreases recs.len(),
{
    if recs.len() == 0 {
        cur
    } else {
        let prev = stream_max_ts(cur, recs.drop_last());
        let t = ts_text_of(recs.last());
        if t.len() == 0 {
            prev
        } else if prev.len() == 0 || crate::strtext::lex_lt(prev, t) {
            t
        } else {
            prev
        }
    }
}

/// A prepared record matches like its raw record.
proof fn lemma_rec_bridge(
    rules: Seq<Rule>,
    p: PreparedRecord,
    path: Seq<char>,
    keys: Seq<String>,
    j: int,
)
    requires
        p.well_formed_for(keys),
        p.evtx_filepath@ == path,
    ensures
        record_matches_from(rules, p, j) == stream_rec_matches_from(rules, p.record, path, keys, j),
    decreases rules.len() - j,
{
    if 0 <= j < rules.len() {
        lemma_rec_bridge(rules, p, path, keys, j + 1);
    }
}

/// A well-prepared batch matches like its raw records.
proof fn lemma_batch_bridge(
    rules: Seq<Rule>,
    ps: Seq<PreparedRecord>,
    path: Seq<char>,
    keys: Seq<String>,
)
    requires
        forall|i: int|
            0 <= i < ps.len() ==> (#[trigger] ps[i]).well_formed_for(keys)
                && ps[i].evtx_filepath@ == path,
    ensures
        batch_matches(rules, ps) == stream_matches(rules, recs_of(ps), path, keys),
    decreases ps.len(),
{
    if ps.len() > 0 {
        assert(recs_of(ps).drop_last() =~= recs_of(ps.drop_last()));
        lemma_batch_bridge(rules, ps.drop_last(), path, keys);
        lemma_rec_bridge(rules, ps.last(), path, keys, 0);
        assert(recs_of(ps).last() == ps.last().record);
    }
}

/// A well-prepared batch feeds like its raw records.
proof fn lemma_feed_bridge(r: Rule, ps: Seq<PreparedRecord>, path: Seq<char>, keys: Seq<String>)
    requires
        forall|i: int|
            0 <= i < ps.len() ==> (#[trigger] ps[i]).well_formed_for(keys)
                && ps[i].evtx_filepath@ == path,
    ensures
        feed_of(r, ps) == stream_feed(r, recs_of(ps), path, keys),
    decreases ps.len(),
{
    if ps.len() > 0 {
        assert(recs_of(ps).drop_last() =~= recs_of(ps.drop_last()));
        lemma_feed_bridge(r, ps.drop_last(), path, keys);
        assert(recs_of(ps).last() == ps.last().record);
        assert(feed_of(r, ps) =~= feed_of(r, ps.drop_last()) + crate::engine::feed_entry(
            r,
            ps.last(),
        ));
        assert(crate::engine::feed_entry(r, ps.last()) =~= stream_feed_entry(
            r,
            ps.last().record,
            path,
            keys,
        ));
    }
}

/// A well-prepared batch bounds timestamps like its raw records.
proof fn lemma_ts_bridge(cur_min: Seq<char>, cur_max: Seq<char>, ps: Seq<PreparedRecord>, keys: Seq<String>)
    requires
        forall|i: int| 0 <= i < ps.len() ==> (#[trigger] ps[i]).well_formed_for(keys),
    ensures
        min_ts(cur_min, ps) == stream_min_ts(cur_min, recs_of(ps)),
        max_ts(cur_max, ps) == stream_max_ts(cur_max, recs_of(ps)),
    decreases ps.len(),
{
    if ps.len() > 0 {
        assert(recs_of(ps).drop_last() =~= recs_of(ps.drop_last()));
        lemma_ts_bridge(cur_min, cur_max, ps.drop_last(), keys);
        assert(recs_of(ps).last() == ps.last().record);
    }
}

/// Stream matching is insensitive to where batches are cut.
pub proof fn lemma_stream_matches_split(
    rules: Seq<Rule>,
    a: Seq<RecordValue>,
    b: Seq<RecordValue>,
    path: Seq<char>,
    keys: Seq<String>,
)
    ensures
        stream_matches(rules, a + b, path, keys) == stream_matches(rules, a, path, keys)
            + stream_matches(rules, b, path, keys),
    decreases b.len(),
{
    if b.len() == 0 {
        assert(a + b =~= a);
        assert(stream_matches(rules, a + b, path, keys) =~= stream_matches(rules, a, path, keys)
            + stream_matches(rules, b, path, keys));
    } else {
        lemma_stream_matches_split(rules, a, b.drop_last(), path, keys);
        assert((a + b).drop_last() =~= a + b.drop_last());
        assert((a + b).last() == b.last());
        assert(stream_matches(rules, a + b, path, keys) =~= stream_matches(rules, a, path, keys)
            + stream_matches(rules, b, path, keys));
    }
}

/// The same insensitivity for feeding.
pub proof fn lemma_stream_feed_split(
    r: Rule,
    a: Seq<RecordValue>,
    b: Seq<RecordValue>,
    path: Seq<char>,
    keys: Seq<String>,
)
    ensures
        stream_feed(r, a + b, path, keys) == stream_feed(r, a, path, keys) + stream_feed(
            r,
            b,
            path,
            keys,
        ),
    decreases b.len(),
{
    if b.len() == 0 {
        assert(a + b =~= a);
        assert(stream_feed(r, a + b, path, keys) =~= stream_feed(r, a, path, keys) + stream_feed(
            r,
            b,
            path,
            keys,
        ));
    } else {
        lemma_stream_feed_split(r, a, b.drop_last(), path, keys);
        assert((a + b).drop_last() =~= a + b.drop_last());
        assert((a + b).last() == b.last());
        assert(stream_feed(r, a + b, path, keys) =~= stream_feed(r, a, path, keys) + stream_feed(
            r,
            b,
            path,
            keys,
        ));
    }
}

/// The same insensitivity for the counters and bounds.
pub proof fn lemma_stream_stats_split(
    h: Seq<(Seq<char>, int)>,
    l: Seq<(Seq<char>, int, int)>,
    cur_min: Seq<char>,
    cur_max: Seq<char>,
    a: Seq<RecordValue>,
    b: Seq<RecordValue>,
    success_id: Seq<char>,
    failure_id: Seq<char>,
)
    ensures
        hist_after(h, a + b) == hist_after(hist_after(h, a), b),
        login_after(l, a + b, success_id, failure_id) == login_after(
            login_after(l, a, success_id, failure_id),
            b,
            success_id,
            failure_id,
        ),
        stream_min_ts(cur_min, a + b) == stream_min_ts(stream_min_ts(cur_min, a), b),
        stream_max_ts(cur_max, a + b) == stream_max_ts(stream_max_ts(cur_max, a), b),
    decreases b.len(),
{
    if b.len() == 0 {
        assert(a + b =~= a);
    } else {
        lemma_stream_stats_split(h, l, cur_min, cur_max, a, b.drop_last(), success_id, failure_id);
        assert((a + b).drop_last() =~= a + b.drop_last());
        assert((a + b).last() == b.last());
    }
}

/// The accepted stream is never longer than its source.
proof fn lemma_accepted_len(records: Seq<Result<RecordValue, String>>, allow: Seq<String>)
    ensures
        accepted_of(records, allow).len() <= records.len(),
    decreases records.len(),
{
    if records.len() > 0 {
        lemma_accepted_len(records.drop_last(), allow);
    }
}

/// With a non-empty allow-list, every accepted record that carries an event
/// identifier carries a listed one.
pub proof fn lemma_accepted_allowed(
    records: Seq<Result<RecordValue, String>>,
    allow: Seq<String>,
    i: int,
)
    requires
        allow.len() > 0,
        0 <= i < accepted_of(records, allow).len(),
        event_id_of(accepted_of(records, allow)[i]) is Some,
    ensures
        in_allow(allow, event_id_of(accepted_of(records, allow)[i])->0),
    decreases records.len(),
{
    if records.len() > 0 {
        let prior = accepted_of(records.drop_last(), allow);
        if i < prior.len() {
            assert(accepted_of(records, allow)[i] == prior[i]);
            lemma_accepted_allowed(records.drop_last(), allow, i);
        } else {
            assert(accepted_of(records, allow)[i] == accepted_of(records, allow).last());
        }
    }
}

proof fn lemma_rec_membership(
    rules: Seq<Rule>,
    rec: RecordValue,
    path: Seq<char>,
    keys: Seq<String>,
    j: int,
    m: MatchView,
)
    requires
        0 <= j <= rules.len(),
    ensures
        stream_rec_matches_from(rules, rec, path, keys, j).contains(m) <==> exists|k: int|
            j <= k < rules.len() && (#[trigger] rules[k]).per_event && cond_holds(
                rules[k].condition,
                flat_pairs_of(rec, keys),
            ) && m == stream_match(rules[k], rec, path, keys),
    decreases rules.len() - j,
{
    if j < rules.len() {
        lemma_rec_membership(rules, rec, path, keys, j + 1, m);
        let whole = stream_rec_matches_from(rules, rec, path, keys, j);
        let rest = stream_rec_matches_from(rules, rec, path, keys, j + 1);
        let head: Seq<MatchView> = if rules[j].per_event && cond_holds(
            rules[j].condition,
            flat_pairs_of(rec, keys),
        ) {
            seq![stream_match(rules[j], rec, path, keys)]
        } else {
            Seq::empty()
        };
        assert(whole == head + rest);
        if whole.contains(m) {
            let i = choose|i: int| 0 <= i < whole.len() && whole[i] == m;
            if i < head.len() {
                assert(m == stream_match(rules[j], rec, path, keys));
            } else {
                assert(rest[i - head.len()] == m);
                assert(rest.contains(m));
            }
        }
        if exists|k: int|
            j <= k < rules.len() && (#[trigger] rules[k]).per_event && cond_holds(
                rules[k].condition,
                flat_pairs_of(rec, keys),
            ) && m == stream_match(rules[k], rec, path, keys) {
            let k = choose|k: int|
                j <= k < rules.len() && (#[trigger] rules[k]).per_event && cond_holds(
                    rules[k].condition,
                    flat_pairs_of(rec, keys),
                ) && m == stream_match(rules[k], rec, path, keys);
            if k == j {
                assert(whole[0] == m);
            } else {
                assert(rest.contains(m));
                let i = choose|i: int| 0 <= i < rest.len() && rest[i] == m;
                assert(whole[head.len() + i] == m);
            }
            assert(whole.contains(m));
        }
    }
}

/// The emitted per-event matches are exactly the pairs of a rule and an
/// accepted record on which the rule's condition holds: a match is in the
/// stream's output precisely when some record and some per-event rule
/// produce it.
pub proof fn lemma_match_membership(
    rules: Seq<Rule>,
    recs: Seq<RecordValue>,
    path: Seq<char>,
    keys: Seq<String>,
    m: MatchView,
)
    ensures
        stream_matches(rules, recs, path, keys).contains(m) <==> exists|i: int, k: int|
            0 <= i < recs.len() && 0 <= k < rules.len() && (#[trigger] rules[k]).per_event
                && cond_holds(rules[k].condition, flat_pairs_of(#[trigger] recs[i], keys)) && m
                == stream_match(rules[k], recs[i], path, keys),
    decreases recs.len(),
{
    if recs.len() > 0 {
        lemma_match_membership(rules, recs.drop_last(), path, keys, m);
        lemma_rec_membership(rules, recs.last(), path, keys, 0, m);
        let whole = stream_matches(rules, recs, path, keys);
        let front = stream_matches(rules, recs.drop_last(), path, keys);
        let back = stream_rec_matches_from(rules, recs.last(), path, keys, 0);
        assert(whole == front + back);
        if whole.contains(m) {
            let i = choose|i: int| 0 <= i < whole.len() && whole[i] == m;
            if i < front.len() {
                assert(front[i] == m);
                assert(front.contains(m));
                let (i2, k2) = choose|i2: int, k2: int|
                    0 <= i2 < recs.drop_last().len() && 0 <= k2 < rules.len()
                        && (#[trigger] rules[k2]).per_event && cond_holds(
                        rules[k2].condition,
                        flat_pairs_of(#[trigger] recs.drop_last()[i2], keys),
                    ) && m == stream_match(rules[k2], recs.drop_last()[i2], path, keys);
                assert(recs[i2] == recs.drop_last()[i2]);
            } else {
                assert(back[i - front.len()] == m);
                assert(back.contains(m));
                let k = choose|k: int|
                    0 <= k < rules.len() && (#[trigger] rules[k]).per_event && cond_holds(
                        rules[k].condition,
                        flat_pairs_of(recs.last(), keys),
                    ) && m == stream_match(rules[k], recs.last(), path, keys);
                assert(recs[recs.len() - 1] == recs.last());
            }
        }
        if exists|i: int, k: int|
            0 <= i < recs.len() && 0 <= k < rules.len() && (#[trigger] rules[k]).per_event
                && cond_holds(rules[k].condition, flat_pairs_of(#[trigger] recs[i], keys)) && m
                == stream_match(rules[k], recs[i], path, keys) {
            let (i, k) = choose|i: int, k: int|
                0 <= i < recs.len() && 0 <= k < rules.len() && (#[trigger] rules[k]).per_event
                    && cond_holds(rules[k].condition, flat_pairs_of(#[trigger] recs[i], keys)) && m
                    == stream_match(rules[k], recs[i], path, keys);
            if i < recs.len() - 1 {
                assert(recs.drop_last()[i] == recs[i]);
                assert(front.contains(m));
                let i3 = choose|i3: int| 0 <= i3 < front.len() && front[i3] == m;
                assert(whole[i3] == m);
            } else {
                assert(recs.last() == recs[i]);
                assert(back.contains(m));
                let i3 = choose|i3: int| 0 <= i3 < back.len() && back[i3] == m;
                assert(whole[front.len() + i3] == m);
            }
            assert(whole.contains(m));
        }
    }
}

/// Widening the bounds over a raw record stream keeps them consistent.
proof fn lemma_stream_time_bounds(start0: Seq<char>, end0: Seq<char>, recs: Seq<RecordValue>)
    requires
        start0.len() == 0 <==> end0.len() == 0,
        start0.len() > 0 ==> crate::strtext::lex_le(start0, end0),
    ensures
        stream_min_ts(start0, recs).len() == 0 <==> stream_max_ts(end0, recs).len() == 0,
        stream_min_ts(start0, recs).len() > 0 ==> crate::strtext::lex_le(
            stream_min_ts(start0, recs),
            stream_max_ts(end0, recs),
        ),
    decreases recs.len(),
{
    if recs.len() > 0 {
        lemma_stream_time_bounds(start0, end0, recs.drop_last());
        let pmin = stream_min_ts(start0, recs.drop_last());
        let pmax = stream_max_ts(end0, recs.drop_last());
        let t = ts_text_of(recs.last());
        if t.len() > 0 && pmin.len() > 0 {
            if crate::strtext::lex_lt(t, pmin) {
                if crate::strtext::lex_lt(pmax, t) {
                    crate::strtext::lemma_lex_trans(pmax, t, pmin);
                    if crate::strtext::lex_lt(pmin, pmax) {
                        crate::strtext::lemma_lex_trans(pmin, pmax, pmin);
                        crate::strtext::lemma_lex_irrefl(pmin);
                    } else {
                        crate::strtext::lemma_lex_irrefl(pmax);
                    }
                } else {
                    if crate::strtext::lex_lt(pmin, pmax) {
                        crate::strtext::lemma_lex_trans(t, pmin, pmax);
                    }
                }
            } else {
                if crate::strtext::lex_lt(pmax, t) {
                    if crate::strtext::lex_lt(pmin, pmax) {
                        crate::strtext::lemma_lex_trans(pmin, pmax, t);
                    }
                }
            }
        }
    }
}

/// The statistics invariant over one file's accepted stream, from a fresh
/// accumulator: the total equals the stream's length, the histogram sums to
/// the total when every record carries an identifier, and the first
/// timestamp never exceeds the last.
pub proof fn lemma_statistics_invariant(recs: Seq<RecordValue>)
    requires
        forall|i: int| 0 <= i < recs.len() ==> event_id_of(#[trigger] recs[i]) is Some,
    ensures
        hist_sum(hist_after(Seq::empty(), recs)) == recs.len(),
        stream_min_ts(Seq::empty(), recs).len() == 0 <==> stream_max_ts(
            Seq::empty(),
            recs,
        ).len() == 0,
        stream_min_ts(Seq::empty(), recs).len() > 0 ==> crate::strtext::lex_le(
            stream_min_ts(Seq::empty(), recs),
            stream_max_ts(Seq::empty(), recs),
        ),
{
    crate::stats::lemma_histogram_matches_total(Seq::empty(), recs, 0);
    lemma_stream_time_bounds(Seq::empty(), Seq::empty(), recs);
}

fn error_line(path: &String, msg: &String) -> (r: String)
    ensures
        r@ == decode_error_line(path@, msg@),
{
    proof {
        reveal_strlit("Failed to parse event file. EventFile:");
        reveal_strlit(" Error:");
    }
    let mut out: String = String::from_str("Failed to parse event file. EventFile:");
    out.append(path.as_str());
    out.append(" Error:");
    out.append(msg.as_str());
    assert(out@ =~= decode_error_line(path@, msg@));
    out
}

/// Prepares one gathered batch and hands it to the statistics and, when
/// detection is on, to the engine.
#[verifier::loop_isolation(false)]
fn flush_batch(
    batch: Vec<RecordValue>,
    path: &String,
    rule_keys: &Vec<String>,
    detection: Detection,
    tl: &mut Timeline,
    detect_enabled: bool,
) -> (d: Detection)
    requires
        detection.wf(),
        old(tl).stats.total + batch@.len() <= usize::MAX,
        hist_sum(old(tl).stats.hist()) + batch@.len() <= usize::MAX,
        login_sum(old(tl).stats.logins()) + batch@.len() <= usize::MAX,
    ensures
        d.wf(),
        d.rules == detection.rules,
        d.agg_feeds@.len() == detection.agg_feeds@.len(),
        match_views(d.matches@) == match_views(detection.matches@) + if detect_enabled {
            stream_matches(detection.rules@, batch@, path@, rule_keys@)
        } else {
            Seq::<MatchView>::empty()
        },
        forall|j: int|
            0 <= j < d.agg_feeds@.len() ==> feed_views((#[trigger] d.agg_feeds@[j])@) == feed_views(
                detection.agg_feeds@[j]@,
            ) + if detect_enabled {
                stream_feed(detection.rules@[j], batch@, path@, rule_keys@)
            } else {
                Seq::<AggView>::empty()
            },
        final(tl).stats.total == old(tl).stats.total + batch@.len(),
        final(tl).stats.hist() == hist_after(old(tl).stats.hist(), batch@),
        final(tl).stats.logins() == login_after(
            old(tl).stats.logins(),
            batch@,
            old(tl).stats.success_id@,
            old(tl).stats.failure_id@,
        ),
        final(tl).stats.start_time@ == stream_min_ts(old(tl).stats.start_time@, batch@),
        final(tl).stats.end_time@ == stream_max_ts(old(tl).stats.end_time@, batch@),
        final(tl).stats.filepath@ == if batch@.len() > 0 {
            path@
        } else {
            old(tl).stats.filepath@
        },
        final(tl).stats.success_id == old(tl).stats.success_id,
        final(tl).stats.failure_id == old(tl).stats.failure_id,
{
    let ghost batch0 = batch@;
    let prepared: Vec<PreparedRecord> = prepare_batch(batch, path, rule_keys);
    proof {
        assert(recs_of(prepared@) =~= batch0);
        lemma_ts_bridge(
            old(tl).stats.start_time@,
            old(tl).stats.end_time@,
            prepared@,
            rule_keys@,
        );
    }
    tl.start(&prepared);
    if detect_enabled {
        proof {
            lemma_batch_bridge(detection.rules@, prepared@, path@, rule_keys@);
            assert(forall|j: int|
                0 <= j < detection.rules@.len() ==> feed_of(
                    #[trigger] detection.rules@[j],
                    prepared@,
                ) == stream_feed(detection.rules@[j], batch0, path@, rule_keys@)) by {
                assert forall|j: int| 0 <= j < detection.rules@.len() implies feed_of(
                    #[trigger] detection.rules@[j],
                    prepared@,
                ) == stream_feed(detection.rules@[j], batch0, path@, rule_keys@) by {
                    lemma_feed_bridge(detection.rules@[j], prepared@, path@, rule_keys@);
                }
            }
        }
        detection.start(&prepared)
    } else {
        detection
    }
}

/// Analyzes one file's decode results: failed decodes are reported, accepted
/// records are batched, prepared, counted into the timeline and, when
/// detection is on, run through the engine. What comes out does not depend
/// on the batch size.
#[verifier::loop_isolation(false)]
pub fn analysis_file(
    records: Vec<Result<RecordValue, String>>,
    path: &String,
    fil: &EventIdFilter,
    rule_keys: &Vec<String>,
    detection: Detection,
    tl: &mut Timeline,
    batch_size: usize,
    detect_enabled: bool,
) -> (r: (Detection, Vec<String>))
    requires
        batch_size >= 1,
        detection.wf(),
        old(tl).stats.total + records@.len() <= usize::MAX,
        hist_sum(old(tl).stats.hist()) + records@.len() <= usize::MAX,
        login_sum(old(tl).stats.logins()) + records@.len() <= usize::MAX,
    ensures
        r.0.wf(),
        r.0.rules == detection.rules,
        r.0.agg_feeds@.len() == detection.agg_feeds@.len(),
        match_views(r.0.matches@) == match_views(detection.matches@) + if detect_enabled {
            stream_matches(
                detection.rules@,
                accepted_of(records@, fil.allow@),
                path@,
                rule_keys@,
            )
        } else {
            Seq::<MatchView>::empty()
        },
        forall|j: int|
            0 <= j < r.0.agg_feeds@.len() ==> feed_views((#[trigger] r.0.agg_feeds@[j])@)
                == feed_views(detection.agg_feeds@[j]@) + if detect_enabled {
                stream_feed(
                    detection.rules@[j],
                    accepted_of(records@, fil.allow@),
                    path@,
                    rule_keys@,
                )
            } else {
                Seq::<AggView>::empty()
            },
        r.1@.map_values(|s: String| s@) == decode_errors_of(records@, path@),
        final(tl).stats.total == old(tl).stats.total + accepted_of(records@, fil.allow@).len(),
        final(tl).stats.hist() == hist_after(
            old(tl).stats.hist(),
            accepted_of(records@, fil.allow@),
        ),
        final(tl).stats.logins() == login_after(
            old(tl).stats.logins(),
            accepted_of(records@, fil.allow@),
            old(tl).stats.success_id@,
            old(tl).stats.failure_id@,
        ),
        final(tl).stats.start_time@ == stream_min_ts(
            old(tl).stats.start_time@,
            accepted_of(records@, fil.allow@),
        ),
        final(tl).stats.end_time@ == stream_max_ts(
            old(tl).stats.end_time@,
            accepted_of(records@, fil.allow@),
        ),
        final(tl).stats.success_id == old(tl).stats.success_id,
        final(tl).stats.failure_id == old(tl).stats.failure_id,
{
    let ghost all = records@;
    let ghost allow = fil.allow@;
    let ghost rules0 = detection.rules@;
    let ghost rules_val = detection.rules;
    let ghost feeds0 = detection.agg_feeds@;
    let ghost matches0 = detection.matches@;
    let ghost stats0 = old(tl).stats;
    let n: usize = records.len();
    let mut remaining: Vec<Result<RecordValue, String>> = records;
    let mut det: Detection = detection;
    let mut errors: Vec<String> = Vec::new();
    let mut batch: Vec<RecordValue> = Vec::new();
    let ghost mut processed: Seq<RecordValue> = Seq::empty();
    let mut i: usize = 0;
    proof {
        assert(remaining@ =~= all.skip(0));
        assert(all.take(0) =~= Seq::<Result<RecordValue, String>>::empty());
        assert(accepted_of(all.take(0), allow) =~= Seq::<RecordValue>::empty());
        assert(processed + batch@ =~= accepted_of(all.take(0), allow));
        assert(errors@.map_values(|s: String| s@) =~= decode_errors_of(all.take(0), path@));
        assert(stream_matches(rules0, processed, path@, rule_keys@) =~= Seq::<MatchView>::empty());
        assert(match_views(det.matches@) =~= match_views(matches0) + if detect_enabled {
            stream_matches(rules0, processed, path@, rule_keys@)
        } else {
            Seq::<MatchView>::empty()
        });
        assert forall|j: int| 0 <= j < feeds0.len() implies feed_views(
            (#[trigger] det.agg_feeds@[j])@,
        ) == feed_views(feeds0[j]@) + if detect_enabled {
            stream_feed(rules0[j], processed, path@, rule_keys@)
        } else {
            Seq::<AggView>::empty()
        } by {
            assert(stream_feed(rules0[j], processed, path@, rule_keys@) =~= Seq::<
                AggView,
            >::empty());
        }
    }
    while i < n
        invariant
            i <= n,
            n == all.len(),
            remaining@ == all.skip(i as int),
            batch@.len() < batch_size,
            batch_size >= 1,
            det.wf(),
            det.rules == rules_val,
            det.rules@ == rules0,
            det.agg_feeds@.len() == feeds0.len(),
            processed + batch@ == accepted_of(all.take(i as int), allow),
            errors@.map_values(|s: String| s@) == decode_errors_of(all.take(i as int), path@),
            match_views(det.matches@) == match_views(matches0) + if detect_enabled {
                stream_matches(rules0, processed, path@, rule_keys@)
            } else {
                Seq::<MatchView>::empty()
            },
            forall|j: int|
                0 <= j < feeds0.len() ==> feed_views((#[trigger] det.agg_feeds@[j])@) == feed_views(
                    feeds0[j]@,
                ) + if detect_enabled {
                    stream_feed(rules0[j], processed, path@, rule_keys@)
                } else {
                    Seq::<AggView>::empty()
                },
            tl.stats.total == stats0.total + processed.len(),
            tl.stats.hist() == hist_after(stats0.hist(), processed),
            tl.stats.logins() == login_after(
                stats0.logins(),
                processed,
                stats0.success_id@,
                stats0.failure_id@,
            ),
            tl.stats.start_time@ == stream_min_ts(stats0.start_time@, processed),
            tl.stats.end_time@ == stream_max_ts(stats0.end_time@, processed),
            tl.stats.success_id == stats0.success_id,
            tl.stats.failure_id == stats0.failure_id,
        decreases n - i,
    {
        proof {
            lemma_accepted_len(all.take(i as int), allow);
            assert(all.skip(i as int)[0] == all[i as int]);
            assert(all.take(i + 1).drop_last() =~= all.take(i as int));
            assert(all.take(i + 1).last() == all[i as int]);
        }
        let item: Result<RecordValue, String> = remaining.remove(0);
        proof {
            assert(remaining@ =~= all.skip(i + 1));
        }
        match item {
            Ok(v) => {
                if fil.is_target_event_id(&v) {
                    batch.push(v);
                    proof {
                        assert(processed + batch@ =~= accepted_of(all.take(i + 1), allow));
                    }
                } else {
                    proof {
                        assert(processed + batch@ =~= accepted_of(all.take(i + 1), allow));
                    }
                }
            },
            Err(e) => {
                let line: String = error_line(path, &e);
                let ghost before = errors@;
                errors.push(line);
                proof {
                    assert(errors@.map_values(|s: String| s@) =~= before.map_values(
                        |s: String| s@,
                    ).push(decode_error_line(path@, e@)));
                    assert(errors@.map_values(|s: String| s@) =~= decode_errors_of(
                        all.take(i + 1),
                        path@,
                    ));
                    assert(processed + batch@ =~= accepted_of(all.take(i + 1), allow));
                }
            },
        }
        i = i + 1;
        if batch.len() == batch_size {
            let full: Vec<RecordValue> = batch;
            batch = Vec::new();
            let ghost flushed = full@;
            proof {
                lemma_accepted_len(all.take(i as int), allow);
            }
            proof {
                assert(forall|j: int|
                    0 <= j < stats0.hist().len() ==> (#[trigger] stats0.hist()[j]).1 >= 0);
                assert(forall|j: int|
                    0 <= j < stats0.logins().len() ==> (#[trigger] stats0.logins()[j]).1 >= 0
                        && stats0.logins()[j].2 >= 0);
                crate::stats::lemma_hist_after_sum(stats0.hist(), processed);
                crate::stats::lemma_count_le(processed);
                crate::stats::lemma_login_after_sum(
                    stats0.logins(),
                    processed,
                    stats0.success_id@,
                    stats0.failure_id@,
                );
            }
            det = flush_batch(full, path, rule_keys, det, tl, detect_enabled);
            proof {
                if detect_enabled {
                    lemma_stream_matches_split(rules0, processed, flushed, path@, rule_keys@);
                    assert forall|j: int| 0 <= j < feeds0.len() implies stream_feed(
                        rules0[j],
                        processed + flushed,
                        path@,
                        rule_keys@,
                    ) == stream_feed(rules0[j], processed, path@, rule_keys@) + stream_feed(
                        #[trigger] rules0[j],
                        flushed,
                        path@,
                        rule_keys@,
                    ) by {
                        lemma_stream_feed_split(rules0[j], processed, flushed, path@, rule_keys@);
                    }
                }
                lemma_stream_stats_split(
                    stats0.hist(),
                    stats0.logins(),
                    stats0.start_time@,
                    stats0.end_time@,
                    processed,
                    flushed,
                    stats0.success_id@,
                    stats0.failure_id@,
                );
                processed = processed + flushed;
                assert(processed + batch@ =~= accepted_of(all.take(i as int), allow));
            }
        }
    }
    proof {
        assert(all.take(n as int) =~= all);
        lemma_accepted_len(all, allow);
    }
    let ghost flushed = batch@;
    proof {
        assert(forall|j: int|
            0 <= j < stats0.hist().len() ==> (#[trigger] stats0.hist()[j]).1 >= 0);
        assert(forall|j: int|
            0 <= j < stats0.logins().len() ==> (#[trigger] stats0.logins()[j]).1 >= 0
                && stats0.logins()[j].2 >= 0);
        crate::stats::lemma_hist_after_sum(stats0.hist(), processed);
        crate::stats::lemma_count_le(processed);
        crate::stats::lemma_login_after_sum(
            stats0.logins(),
            processed,
            stats0.success_id@,
            stats0.failure_id@,
        );
    }
    det = flush_batch(batch, path, rule_keys, det, tl, detect_enabled);
    proof {
        if detect_enabled {
            lemma_stream_matches_split(rules0, processed, flushed, path@, rule_keys@);
            assert forall|j: int| 0 <= j < feeds0.len() implies stream_feed(
                rules0[j],
                processed + flushed,
                path@,
                rule_keys@,
            ) == stream_feed(rules0[j], processed, path@, rule_keys@) + stream_feed(
                #[trigger] rules0[j],
                flushed,
                path@,
                rule_keys@,
            ) by {
                lemma_stream_feed_split(rules0[j], processed, flushed, path@, rule_keys@);
            }
        }
        lemma_stream_stats_split(
            stats0.hist(),
            stats0.logins(),
            stats0.start_time@,
            stats0.end_time@,
            processed,
            flushed,
            stats0.success_id@,
            stats0.failure_id@,
        );
        processed = processed + flushed;
        assert(processed =~= accepted_of(all, allow));
    }
    (det, errors)
}

} // verus!
