//! The aggregate evaluator: at end of input, each aggregate rule's fed
//! records are partitioned by group key, ordered by timestamp, and a window
//! is slid over each group; a count that satisfies the rule's threshold
//! emits one match at the triggering record and the window advances past it.

use vstd::prelude::*;

use crate::engine::{feed_views, match_views, AggEntry, AggView, Detection, Match, MatchView};
use crate::rules::{AggCondition, CountOp, Rule};
use vstd::multiset::Multiset;

verus! {

/// Stable insertion of an entry into a timestamp-ordered sequence: it lands
/// after every entry not later than it.
pub open spec fn insert_by_ts(x: AggView, s: Seq<AggView>) -> Seq<AggView>
    decreases s.len(),
{
    if s.len() == 0 {
        seq![x]
    } else if x.1 < s[0].1 {
        seq![x] + s
    } else {
        seq![s[0]] + insert_by_ts(x, s.skip(1))
    }
}

/// Stable sort of a feed by timestamp: fed order breaks ties.
pub open spec fn sort_by_ts(s: Seq<AggView>) -> Seq<AggView>
    decreases s.len(),
{
    if s.len() == 0 {
        Seq::empty()
    } else {
        insert_by_ts(s.last(), sort_by_ts(s.drop_last()))
    }
}

/// Whether a group stands in timestamp order.
pub open spec fn ts_sorted(s: Seq<AggView>) -> bool {
    forall|i: int| 0 <= i < s.len() - 1 ==> (#[trigger] s[i]).1 <= s[i + 1].1
}

proof fn lemma_insert_by_ts_sorted(x: AggView, s: Seq<AggView>)
    requires
        ts_sorted(s),
    ensures
        ts_sorted(insert_by_ts(x, s)),
        insert_by_ts(x, s).to_multiset() == s.to_multiset().insert(x),
    decreases s.len(),
{
    broadcast use vstd::seq_lib::group_seq_properties;

    let out = insert_by_ts(x, s);
    if s.len() == 0 {
        assert(out =~= Seq::<AggView>::empty().push(x));
        Seq::<AggView>::empty().to_multiset_ensures();
    } else if x.1 < s[0].1 {
        assert(out =~= seq![x] + s);
        vstd::seq_lib::lemma_multiset_commutative(seq![x], s);
        assert(seq![x].to_multiset() =~= Multiset::<AggView>::empty().insert(x)) by {
            assert(seq![x] =~= Seq::<AggView>::empty().push(x));
            Seq::<AggView>::empty().to_multiset_ensures();
        }
        assert(out.to_multiset() =~= s.to_multiset().insert(x));
        assert forall|i: int| 0 <= i < out.len() - 1 implies (#[trigger] out[i]).1 <= out[i + 1].1 by {
            if i > 0 {
                assert(out[i] == s[i - 1]);
                assert(out[i + 1] == s[i]);
            }
        }
    } else {
        assert(forall|j: int| 0 <= j < s.skip(1).len() ==> s.skip(1)[j] == s[j + 1]);
        lemma_insert_by_ts_sorted(x, s.skip(1));
        let rest = insert_by_ts(x, s.skip(1));
        assert(out =~= seq![s[0]] + rest);
        vstd::seq_lib::lemma_multiset_commutative(seq![s[0]], rest);
        vstd::seq_lib::lemma_multiset_commutative(seq![s[0]], s.skip(1));
        assert(s =~= seq![s[0]] + s.skip(1));
        assert(seq![s[0]].to_multiset() =~= Multiset::<AggView>::empty().insert(s[0])) by {
            assert(seq![s[0]] =~= Seq::<AggView>::empty().push(s[0]));
            Seq::<AggView>::empty().to_multiset_ensures();
        }
        assert(out.to_multiset() =~= s.to_multiset().insert(x));
        // The head stays below everything inserted behind it.
        assert forall|i: int| 0 <= i < out.len() - 1 implies (#[trigger] out[i]).1 <= out[i + 1].1 by {
            if i == 0 {
                assert(out[1] == rest[0]);
                if rest.len() > 0 {
                    if s.skip(1).len() == 0 {
                        assert(rest[0] == x);
                    } else if x.1 < s.skip(1)[0].1 {
                        assert(rest[0] == x);
                    } else {
                        assert(rest[0] == s.skip(1)[0]);
                    }
                }
            } else {
                assert(out[i] == rest[i - 1]);
                assert(out[i + 1] == rest[i]);
            }
        }
    }
}

/// The ordering the evaluator relies on: a feed sorted by `sort_by_ts` is in
/// timestamp order and holds exactly the fed entries.
pub proof fn lemma_sort_by_ts_sorted(s: Seq<AggView>)
    ensures
        ts_sorted(sort_by_ts(s)),
        sort_by_ts(s).to_multiset() == s.to_multiset(),
    decreases s.len(),
{
    broadcast use vstd::seq_lib::group_seq_properties;

    if s.len() == 0 {
    } else {
        lemma_sort_by_ts_sorted(s.drop_last());
        lemma_insert_by_ts_sorted(s.last(), sort_by_ts(s.drop_last()));
        s.drop_last().to_multiset_ensures();
        assert(s =~= s.drop_last().push(s.last()));
        assert(sort_by_ts(s).to_multiset() =~= s.to_multiset());
    }
}

/// A key list extended by one key, unless already present.
pub open spec fn add_key(acc: Seq<Option<Seq<char>>>, k: Option<Seq<char>>) -> Seq<
    Option<Seq<char>>,
> {
    if acc.contains(k) {
        acc
    } else {
        acc.push(k)
    }
}

pub open spec fn keys_into(acc: Seq<Option<Seq<char>>>, s: Seq<AggView>) -> Seq<Option<Seq<char>>>
    decreases s.len(),
{
    if s.len() == 0 {
        acc
    } else {
        keys_into(add_key(acc, s[0].0), s.skip(1))
    }
}

/// The distinct group keys of a feed, in first-occurrence order.
pub open spec fn distinct_keys(s: Seq<AggView>) -> Seq<Option<Seq<char>>> {
    keys_into(Seq::empty(), s)
}

/// One group: the fed entries carrying the key, in fed order.
pub open spec fn group_of(s: Seq<AggView>, k: Option<Seq<char>>) -> Seq<AggView> {
    s.filter(|e: AggView| e.0 == k)
}

/// Whether a window's count satisfies the rule's comparison.
pub open spec fn count_sat(op: CountOp, cnt: int, threshold: int) -> bool {
    match op {
        CountOp::GreaterEq => cnt >= threshold,
        CountOp::Greater => cnt > threshold,
        CountOp::Exact => cnt == threshold,
        CountOp::LessEq => cnt <= threshold,
        CountOp::Less => cnt < threshold,
    }
}

/// The start of the window ending at entry `i`: the first position at or
/// after `l` whose timestamp lies within `window` seconds of entry `i`'s.
pub open spec fn win_start(g: Seq<AggView>, i: int, l: int, window: i64) -> int
    decreases i - l,
{
    if l >= i {
        i
    } else if (g[i].1 as int) - (g[l].1 as int) < window as int {
        l
    } else {
        win_start(g, i, l + 1, window)
    }
}

/// The match an aggregate rule emits, anchored at the triggering entry.
pub open spec fn agg_match(r: Rule, e: AggView) -> MatchView {
    (r.id@, r.level, e.3, e.2, e.4)
}

/// The window slide over one ordered group from position `i` with window
/// start bound `l`: whenever the count from the window start through `i`
/// satisfies the threshold, one match is emitted at entry `i` and the
/// window advances past it.
pub open spec fn scan(
    r: Rule,
    g: Seq<AggView>,
    i: int,
    l: int,
    window: i64,
    op: CountOp,
    threshold: int,
) -> Seq<MatchView>
    decreases g.len() - i,
{
    if i < 0 || i >= g.len() || l < 0 || l > i {
        Seq::empty()
    } else {
        let l2 = win_start(g, i, l, window);
        if count_sat(op, i - l2 + 1, threshold) {
            seq![agg_match(r, g[i])] + scan(r, g, i + 1, i + 1, window, op, threshold)
        } else {
            scan(r, g, i + 1, l2, window, op, threshold)
        }
    }
}

/// The matches one aggregate rule emits from its feed: group by group in
/// first-occurrence order, each group ordered by timestamp and scanned.
pub open spec fn over_keys(
    r: Rule,
    agg: AggCondition,
    feed: Seq<AggView>,
    keys: Seq<Option<Seq<char>>>,
) -> Seq<MatchView>
    decreases keys.len(),
{
    if keys.len() == 0 {
        Seq::empty()
    } else {
        over_keys(r, agg, feed, keys.drop_last()) + scan(
            r,
            sort_by_ts(group_of(feed, keys.last())),
            0,
            0,
            agg.window,
            agg.op,
            agg.threshold as int,
        )
    }
}

/// All matches one rule's aggregate part emits.
pub open spec fn rule_agg_matches(r: Rule, feed: Seq<AggView>) -> Seq<MatchView> {
    match r.aggregate {
        Some(agg) => over_keys(r, agg, feed, distinct_keys(feed)),
        None => Seq::empty(),
    }
}

/// The views of the per-rule feeds.
pub open spec fn feeds_views(fs: Seq<Vec<AggEntry>>) -> Seq<Seq<AggView>> {
    fs.map_values(|f: Vec<AggEntry>| feed_views(f@))
}

/// All aggregate matches across the rules, in rule order.
pub open spec fn all_agg_matches(rules: Seq<Rule>, feeds: Seq<Seq<AggView>>) -> Seq<MatchView>
    decreases rules.len(),
{
    if rules.len() == 0 || rules.len() != feeds.len() {
        Seq::empty()
    } else {
        all_agg_matches(rules.drop_last(), feeds.drop_last()) + rule_agg_matches(
            rules.last(),
            feeds.last(),
        )
    }
}

fn opt_key_eq(a: &Option<String>, b: &Option<String>) -> (r: bool)
    ensures
        r == (match a {
            Some(x) => Some(x@),
            None => None,
        } == match b {
            Some(y) => Some(y@),
            None => None,
        }),
{
    match (a, b) {
        (None, None) => true,
        (Some(x), Some(y)) => *x == *y,
        _ => false,
    }
}

fn insert_entry(x: AggEntry, v: Vec<AggEntry>) -> (r: Vec<AggEntry>)
    ensures
        feed_views(r@) == insert_by_ts(x@, feed_views(v@)),
    decreases v@.len(),
{
    let ghost orig = v@;
    let mut w: Vec<AggEntry> = v;
    if w.len() == 0 {
        let mut out: Vec<AggEntry> = Vec::new();
        out.push(x);
        proof {
            assert(feed_views(out@) =~= insert_by_ts(x@, feed_views(orig)));
        }
        out
    } else if x.ts < w[0].ts {
        proof {
            assert(feed_views(orig)[0] == orig[0]@);
        }
        w.insert(0, x);
        proof {
            assert(w@ =~= seq![x] + orig);
            assert(feed_views(w@) =~= seq![x@] + feed_views(orig));
            assert(feed_views(w@) =~= insert_by_ts(x@, feed_views(orig)));
        }
        w
    } else {
        proof {
            assert(feed_views(orig)[0] == orig[0]@);
        }
        let head: AggEntry = w.remove(0);
        proof {
            assert(w@ =~= orig.skip(1));
            assert(feed_views(w@) =~= feed_views(orig).skip(1));
        }
        let ghost rest_views = feed_views(w@);
        let mut out: Vec<AggEntry> = insert_entry(x, w);
        let ghost mid = out@;
        out.insert(0, head);
        proof {
            assert(out@ =~= seq![head] + mid);
            assert(feed_views(out@) =~= seq![head@] + feed_views(mid));
            assert(head == orig[0]);
            assert(feed_views(out@) =~= insert_by_ts(x@, feed_views(orig)));
        }
        out
    }
}

#[verifier::loop_isolation(false)]
fn sort_entries(v: Vec<AggEntry>) -> (r: Vec<AggEntry>)
    ensures
        feed_views(r@) == sort_by_ts(feed_views(v@)),
{
    let n: usize = v.len();
    let ghost orig = v@;
    let mut remaining: Vec<AggEntry> = v;
    let mut out: Vec<AggEntry> = Vec::new();
    let mut i: usize = 0;
    proof {
        assert(remaining@ =~= orig.skip(0));
        assert(feed_views(orig.take(0)) =~= Seq::<AggView>::empty());
        assert(feed_views(out@) =~= sort_by_ts(feed_views(orig.take(0))));
    }
    while i < n
        invariant
            i <= n,
            n == orig.len(),
            remaining@ == orig.skip(i as int),
            feed_views(out@) == sort_by_ts(feed_views(orig.take(i as int))),
        decreases n - i,
    {
        let x: AggEntry = remaining.remove(0);
        proof {
            assert(orig.skip(i as int)[0] == orig[i as int]);
            assert(remaining@ =~= orig.skip(i + 1));
        }
        out = insert_entry(x, out);
        proof {
            assert(orig.take(i + 1).drop_last() =~= orig.take(i as int));
            assert(orig.take(i + 1).last() == orig[i as int]);
            assert(feed_views(orig.take(i + 1)).drop_last() =~= feed_views(orig.take(i as int)));
            assert(feed_views(orig.take(i + 1)).last() == orig[i as int]@);
            assert(feed_views(out@) =~= sort_by_ts(feed_views(orig.take(i + 1))));
        }
        i = i + 1;
    }
    proof {
        assert(orig.take(n as int) =~= orig);
    }
    out
}

#[verifier::loop_isolation(false)]
fn group_entries(feed: &Vec<AggEntry>, key: &Option<String>) -> (r: Vec<AggEntry>)
    ensures
        feed_views(r@) == group_of(feed_views(feed@), match key {
            Some(k) => Some(k@),
            None => None,
        }),
{
    let ghost kv: Option<Seq<char>> = match key {
        Some(k) => Some(k@),
        None => None,
    };
    let mut out: Vec<AggEntry> = Vec::new();
    let n: usize = feed.len();
    let mut i: usize = 0;
    proof {
        reveal(Seq::filter);
        assert(feed_views(feed@.take(0)) =~= Seq::<AggView>::empty());
        assert(feed_views(out@) =~= group_of(feed_views(feed@.take(0)), kv));
    }
    while i < n
        invariant
            i <= n,
            n == feed@.len(),
            feed_views(out@) == group_of(feed_views(feed@.take(i as int)), kv),
        decreases n - i,
    {
        let entry: &AggEntry = &feed[i];
        let ghost before = out@;
        if opt_key_eq(&entry.group_key, key) {
            let copy: AggEntry = AggEntry {
                group_key: match &entry.group_key {
                    Some(k) => Some(k.clone()),
                    None => None,
                },
                ts: entry.ts,
                ts_text: entry.ts_text.clone(),
                source_path: entry.source_path.clone(),
                fields: crate::engine::clone_fields(&entry.fields),
            };
            proof {
                assert(copy@ =~~= feed@[i as int]@);
            }
            out.push(copy);
            proof {
                assert(feed_views(out@) =~= feed_views(before).push(feed@[i as int]@));
            }
        }
        proof {
            reveal(Seq::filter);
            assert(feed_views(feed@.take(i + 1)).drop_last() =~= feed_views(feed@.take(i as int)));
            assert(feed_views(feed@.take(i + 1)).last() == feed@[i as int]@);
            assert(feed_views(out@) =~= group_of(feed_views(feed@.take(i + 1)), kv));
        }
        i = i + 1;
    }
    proof {
        assert(feed@.take(n as int) =~= feed@);
    }
    out
}

/// The views of a key list.
pub open spec fn key_views(ks: Seq<Option<String>>) -> Seq<Option<Seq<char>>> {
    ks.map_values(
        |k: Option<String>|
            match k {
                Some(s) => Some(s@),
                None => None,
            },
    )
}

#[verifier::loop_isolation(false)]
fn collect_keys(feed: &Vec<AggEntry>) -> (r: Vec<Option<String>>)
    ensures
        key_views(r@) == distinct_keys(feed_views(feed@)),
{
    let mut out: Vec<Option<String>> = Vec::new();
    let n: usize = feed.len();
    let mut i: usize = 0;
    proof {
        assert(feed_views(feed@).skip(0) =~= feed_views(feed@));
        assert(key_views(out@) =~= Seq::<Option<Seq<char>>>::empty());
    }
    while i < n
        invariant
            i <= n,
            n == feed@.len(),
            distinct_keys(feed_views(feed@)) == keys_into(
                key_views(out@),
                feed_views(feed@).skip(i as int),
            ),
        decreases n - i,
    {
        let entry: &AggEntry = &feed[i];
        let m: usize = out.len();
        let mut j: usize = 0;
        let mut seen: bool = false;
        while j < m
            invariant
                j <= m,
                m == out@.len(),
                seen == exists|k: int|
                    0 <= k < j && key_views(out@)[k] == (match &entry.group_key {
                        Some(s) => Some(s@),
                        None => None,
                    }),
            decreases m - j,
        {
            if opt_key_eq(&out[j], &entry.group_key) {
                seen = true;
                proof {
                    assert(key_views(out@)[j as int] == (match &entry.group_key {
                        Some(s) => Some(s@),
                        None => None,
                    }));
                }
                break;
            }
            j = j + 1;
        }
        let ghost before = out@;
        let ghost kv: Option<Seq<char>> = match &entry.group_key {
            Some(s) => Some(s@),
            None => None,
        };
        proof {
            assert(seen == key_views(before).contains(kv));
            assert(feed_views(feed@).skip(i as int)[0] == feed@[i as int]@);
            assert(feed_views(feed@).skip(i as int).skip(1) =~= feed_views(feed@).skip(i + 1));
        }
        if !seen {
            let copy: Option<String> = match &entry.group_key {
                Some(k) => Some(k.clone()),
                None => None,
            };
            out.push(copy);
            proof {
                assert(key_views(out@) =~= key_views(before).push(kv));
                assert(key_views(out@) =~= add_key(key_views(before), kv));
            }
        } else {
            proof {
                assert(key_views(out@) =~= add_key(key_views(before), kv));
            }
        }
        i = i + 1;
    }
    proof {
        assert(feed_views(feed@).skip(n as int) =~= Seq::<AggView>::empty());
    }
    out
}

#[verifier::loop_isolation(false)]
fn win_start_exec(g: &Vec<AggEntry>, i: usize, l: usize, window: i64) -> (r: usize)
    requires
        l <= i < g@.len(),
    ensures
        l <= r <= i,
        r as int == win_start(feed_views(g@), i as int, l as int, window),
{
    let mut l2: usize = l;
    while l2 < i
        invariant
            l <= l2 <= i,
            win_start(feed_views(g@), i as int, l as int, window) == win_start(
                feed_views(g@),
                i as int,
                l2 as int,
                window,
            ),
        decreases i - l2,
    {
        let d: i128 = (g[i].ts as i128) - (g[l2].ts as i128);
        if d < window as i128 {
            return l2;
        }
        l2 = l2 + 1;
    }
    l2
}

fn count_sat_exec(op: &CountOp, cnt: usize, threshold: usize) -> (r: bool)
    ensures
        r == count_sat(*op, cnt as int, threshold as int),
{
    match op {
        CountOp::GreaterEq => cnt >= threshold,
        CountOp::Greater => cnt > threshold,
        CountOp::Exact => cnt == threshold,
        CountOp::LessEq => cnt <= threshold,
        CountOp::Less => cnt < threshold,
    }
}

#[verifier::loop_isolation(false)]
fn scan_group(r: &Rule, g: &Vec<AggEntry>, window: i64, op: &CountOp, threshold: usize) -> (ms: Vec<
    Match,
>)
    ensures
        match_views(ms@) == scan(*r, feed_views(g@), 0, 0, window, *op, threshold as int),
{
    let mut out: Vec<Match> = Vec::new();
    let n: usize = g.len();
    let mut i: usize = 0;
    let mut l: usize = 0;
    proof {
        assert(match_views(out@) =~= Seq::<MatchView>::empty());
    }
    while i < n
        invariant
            i <= n,
            n == g@.len(),
            l <= i,
            match_views(out@) + scan(*r, feed_views(g@), i as int, l as int, window, *op, threshold as int)
                == scan(*r, feed_views(g@), 0, 0, window, *op, threshold as int),
        decreases n - i,
    {
        let l2: usize = win_start_exec(g, i, l, window);
        let cnt: usize = i - l2 + 1;
        let ghost pre = out@;
        if count_sat_exec(op, cnt, threshold) {
            let entry: &AggEntry = &g[i];
            let hit: Match = Match {
                rule_id: r.id.clone(),
                level: r.level,
                source_path: entry.source_path.clone(),
                record_timestamp: entry.ts_text.clone(),
                record_fields: crate::engine::clone_fields(&entry.fields),
            };
            proof {
                assert(hit@ =~~= agg_match(*r, feed_views(g@)[i as int]));
            }
            out.push(hit);
            proof {
                assert(match_views(out@) =~= match_views(pre).push(hit@));
            }
            l = i + 1;
        } else {
            l = l2;
        }
        i = i + 1;
        proof {
            assert(match_views(out@) + scan(
                *r,
                feed_views(g@),
                i as int,
                l as int,
                window,
                *op,
                threshold as int,
            ) =~= scan(*r, feed_views(g@), 0, 0, window, *op, threshold as int));
        }
    }
    proof {
        assert(scan(*r, feed_views(g@), n as int, l as int, window, *op, threshold as int)
            =~= Seq::<MatchView>::empty());
        assert(match_views(out@) =~= scan(*r, feed_views(g@), 0, 0, window, *op, threshold as int));
    }
    out
}

impl Detection {
    /// Finalizes the aggregate rules over everything fed so far, appending
    /// their matches to the buffer in rule order, groups in first-occurrence
    /// order.
    #[verifier::loop_isolation(false)]
    pub fn finalize_aggregates(self) -> (d: Detection)
        requires
            self.wf(),
        ensures
            d.wf(),
            d.rules == self.rules,
            match_views(d.matches@) == match_views(self.matches@) + all_agg_matches(
                self.rules@,
                feeds_views(self.agg_feeds@),
            ),
    {
        let Detection { rules, mut matches, agg_feeds } = self;
        let ghost old_matches = matches@;
        let ghost feeds0 = feeds_views(agg_feeds@);
        let n: usize = rules.len();
        let mut j: usize = 0;
        proof {
            assert(rules@.take(0) =~= Seq::<Rule>::empty());
            assert(feeds0.take(0) =~= Seq::<Seq<AggView>>::empty());
            assert(match_views(matches@) =~= match_views(old_matches) + all_agg_matches(
                rules@.take(0),
                feeds0.take(0),
            ));
        }
        while j < n
            invariant
                j <= n,
                n == rules@.len(),
                n == agg_feeds@.len(),
                feeds0 == feeds_views(agg_feeds@),
                match_views(matches@) == match_views(old_matches) + all_agg_matches(
                    rules@.take(j as int),
                    feeds0.take(j as int),
                ),
            decreases n - j,
        {
            let rule: &Rule = &rules[j];
            let ghost rule_base = matches@;
            match &rule.aggregate {
                Some(agg) => {
                    let feed: &Vec<AggEntry> = &agg_feeds[j];
                    let keys: Vec<Option<String>> = collect_keys(feed);
                    let m: usize = keys.len();
                    let mut k: usize = 0;
                    proof {
                        assert(key_views(keys@).take(0) =~= Seq::<Option<Seq<char>>>::empty());
                        assert(match_views(matches@) =~= match_views(rule_base) + over_keys(
                            rules@[j as int],
                            *agg,
                            feeds0[j as int],
                            key_views(keys@).take(0),
                        ));
                    }
                    while k < m
                        invariant
                            k <= m,
                            m == keys@.len(),
                            match_views(matches@) == match_views(rule_base) + over_keys(
                                rules@[j as int],
                                *agg,
                                feeds0[j as int],
                                key_views(keys@).take(k as int),
                            ),
                        decreases m - k,
                    {
                        let group: Vec<AggEntry> = group_entries(feed, &keys[k]);
                        let sorted: Vec<AggEntry> = sort_entries(group);
                        let ghost pre = matches@;
                        let hits: Vec<Match> = scan_group(
                            rule,
                            &sorted,
                            agg.window,
                            &agg.op,
                            agg.threshold,
                        );
                        let mut hi: usize = 0;
                        let hn: usize = hits.len();
                        while hi < hn
                            invariant
                                hi <= hn,
                                hn == hits@.len(),
                                match_views(matches@) == match_views(pre) + match_views(
                                    hits@.take(hi as int),
                                ),
                            decreases hn - hi,
                        {
                            let ghost mid = matches@;
                            let piece: &Match = &hits[hi];
                            let copy: Match = Match {
                                rule_id: piece.rule_id.clone(),
                                level: piece.level,
                                source_path: piece.source_path.clone(),
                                record_timestamp: piece.record_timestamp.clone(),
                                record_fields: crate::engine::clone_fields(&piece.record_fields),
                            };
                            proof {
                                assert(copy@ =~~= hits@[hi as int]@);
                            }
                            matches.push(copy);
                            proof {
                                assert(match_views(matches@) =~= match_views(mid).push(
                                    hits@[hi as int]@,
                                ));
                                assert(match_views(hits@.take(hi + 1)) =~= match_views(
                                    hits@.take(hi as int),
                                ).push(hits@[hi as int]@));
                            }
                            hi = hi + 1;
                        }
                        proof {
                            assert(hits@.take(hn as int) =~= hits@);
                            assert(key_views(keys@).take(k + 1).drop_last() =~= key_views(
                                keys@,
                            ).take(k as int));
                            assert(key_views(keys@).take(k + 1).last() == key_views(
                                keys@,
                            )[k as int]);
                            assert(match_views(matches@) =~= match_views(rule_base) + over_keys(
                                rules@[j as int],
                                *agg,
                                feeds0[j as int],
                                key_views(keys@).take(k + 1),
                            ));
                        }
                        k = k + 1;
                    }
                    proof {
                        assert(key_views(keys@).take(m as int) =~= key_views(keys@));
                        assert(match_views(matches@) =~= match_views(rule_base) + rule_agg_matches(
                            rules@[j as int],
                            feeds0[j as int],
                        ));
                    }
                },
                None => {
                    proof {
                        assert(match_views(matches@) =~= match_views(rule_base) + rule_agg_matches(
                            rules@[j as int],
                            feeds0[j as int],
                        ));
                    }
                },
            }
            proof {
                assert(rules@.take(j + 1).drop_last() =~= rules@.take(j as int));
                assert(feeds0.take(j + 1).drop_last() =~= feeds0.take(j as int));
                assert(rules@.take(j + 1).last() == rules@[j as int]);
                assert(feeds0.take(j + 1).last() == feeds0[j as int]);
                assert(rules@.take(j + 1).len() == feeds0.take(j + 1).len());
                assert(match_views(matches@) =~= match_views(old_matches) + all_agg_matches(
                    rules@.take(j + 1),
                    feeds0.take(j + 1),
                ));
            }
            j = j + 1;
        }
        proof {
            assert(rules@.take(n as int) =~= rules@);
            assert(feeds0.take(n as int) =~= feeds0);
        }
        Detection { rules, matches, agg_feeds }
    }
}

} // verus!
