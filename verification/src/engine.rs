//! The detection engine: evaluates every per-event rule against each
//! prepared record in deterministic order, and feeds aggregate rules.

use vstd::prelude::*;

use crate::prepare::{assoc_lookup, pair_views, PreparedRecord};
use crate::rules::{cond_holds, Rule, RuleLevel};

verus! {

/// One emitted detection: a rule that held of a record.
pub struct Match {
    pub rule_id: String,
    pub level: RuleLevel,
    pub source_path: String,
    pub record_timestamp: String,
    /// The record's flattened fields at evaluation time.
    pub record_fields: Vec<(String, String)>,
}

/// The mathematical content of a match: rule id, level, source path,
/// timestamp text and field snapshot.
pub type MatchView = (Seq<char>, RuleLevel, Seq<char>, Seq<char>, Seq<(Seq<char>, Seq<char>)>);

impl View for Match {
    type V = MatchView;

    open spec fn view(&self) -> MatchView {
        (self.rule_id@, self.level, self.source_path@, self.record_timestamp@, pair_views(
            self.record_fields@,
        ))
    }
}

/// The views of a match list.
pub open spec fn match_views(ms: Seq<Match>) -> Seq<MatchView> {
    ms.map_values(|m: Match| m@)
}

/// One record fed to an aggregate rule: its group key, timestamp and the
/// makings of a later match.
pub struct AggEntry {
    /// The stored text of the rule's grouping field; nothing where the
    /// record does not carry it, which gathers such records in one group.
    pub group_key: Option<String>,
    /// Epoch seconds of the record's timestamp.
    pub ts: i64,
    pub ts_text: String,
    pub source_path: String,
    pub fields: Vec<(String, String)>,
}

/// The mathematical content of a fed record: group key, epoch seconds,
/// timestamp text, source path and field snapshot.
pub type AggView = (Option<Seq<char>>, i64, Seq<char>, Seq<char>, Seq<(Seq<char>, Seq<char>)>);

impl View for AggEntry {
    type V = AggView;

    open spec fn view(&self) -> AggView {
        (
            match self.group_key {
                Some(k) => Some(k@),
                None => None,
            },
            self.ts,
            self.ts_text@,
            self.source_path@,
            pair_views(self.fields@),
        )
    }
}

/// The views of a feed list.
pub open spec fn feed_views(fs: Seq<AggEntry>) -> Seq<AggView> {
    fs.map_values(|e: AggEntry| e@)
}

/// The match a rule emits for a record.
pub open spec fn make_match(r: Rule, p: PreparedRecord) -> MatchView {
    (r.id@, r.level, p.evtx_filepath@, p.ts_text@, pair_views(p.flat@))
}

/// The matches one record gives across the rules from position `j` on, in
/// rule order.
pub open spec fn record_matches_from(rules: Seq<Rule>, p: PreparedRecord, j: int) -> Seq<MatchView>
    decreases rules.len() - j,
{
    if j < 0 || j >= rules.len() {
        Seq::empty()
    } else {
        let head: Seq<MatchView> = if rules[j].per_event && cond_holds(
            rules[j].condition,
            pair_views(p.flat@),
        ) {
            seq![make_match(rules[j], p)]
        } else {
            Seq::empty()
        };
        head + record_matches_from(rules, p, j + 1)
    }
}

/// The matches one record gives across all rules.
pub open spec fn record_matches(rules: Seq<Rule>, p: PreparedRecord) -> Seq<MatchView> {
    record_matches_from(rules, p, 0)
}

/// The matches a batch gives: records in input order, rules in declared
/// order within each record.
pub open spec fn batch_matches(rules: Seq<Rule>, recs: Seq<PreparedRecord>) -> Seq<MatchView>
    decreases recs.len(),
{
    if recs.len() == 0 {
        Seq::empty()
    } else {
        batch_matches(rules, recs.drop_last()) + record_matches(rules, recs.last())
    }
}

/// What one record contributes to one aggregate rule's feed: one entry,
/// where the rule has an aggregate part, its condition holds and the record
/// has a readable timestamp.
pub open spec fn feed_entry(r: Rule, p: PreparedRecord) -> Seq<AggView> {
    match r.aggregate {
        Some(agg) => {
            if cond_holds(r.condition, pair_views(p.flat@)) && p.ts_epoch is Some {
                seq![
                    (
                        assoc_lookup(pair_views(p.flat@), agg.group_by@),
                        p.ts_epoch->0,
                        p.ts_text@,
                        p.evtx_filepath@,
                        pair_views(p.flat@),
                    ),
                ]
            } else {
                Seq::empty()
            }
        },
        None => Seq::empty(),
    }
}

/// One aggregate rule's feed over a batch, in input order.
pub open spec fn feed_of(r: Rule, recs: Seq<PreparedRecord>) -> Seq<AggView>
    decreases recs.len(),
{
    if recs.len() == 0 {
        Seq::empty()
    } else {
        feed_of(r, recs.drop_last()) + feed_entry(r, recs.last())
    }
}

/// A value-equal copy of a flattened field list.
pub(crate) fn clone_fields(flat: &Vec<(String, String)>) -> (r: Vec<(String, String)>)
    ensures
        pair_views(r@) == pair_views(flat@),
{
    let mut out: Vec<(String, String)> = Vec::new();
    let n: usize = flat.len();
    let mut i: usize = 0;
    proof {
        assert(out@ =~= flat@.take(0));
    }
    while i < n
        invariant
            i <= n,
            n == flat@.len(),
            out@ == flat@.take(i as int),
        decreases n - i,
    {
        let entry: &(String, String) = &flat[i];
        let pair: (String, String) = (entry.0.clone(), entry.1.clone());
        proof {
            assert(pair == flat@[i as int]);
        }
        out.push(pair);
        proof {
            assert(out@ =~= flat@.take(i + 1));
        }
        i = i + 1;
    }
    proof {
        assert(flat@.take(n as int) =~= flat@);
    }
    out
}

/// The engine: the immutable rule list, the match buffer, and one feed list
/// per rule.
pub struct Detection {
    pub rules: Vec<Rule>,
    pub matches: Vec<Match>,
    pub agg_feeds: Vec<Vec<AggEntry>>,
}

impl Detection {
    /// One feed list stands beside each rule.
    pub open spec fn wf(self) -> bool {
        self.agg_feeds@.len() == self.rules@.len()
    }

    /// An engine over the given rules, with nothing matched or fed yet.
    #[verifier::loop_isolation(false)]
    pub fn new(rules: Vec<Rule>) -> (d: Detection)
        ensures
            d.wf(),
            d.rules == rules,
            d.matches@ == Seq::<Match>::empty(),
            forall|j: int| 0 <= j < d.agg_feeds@.len() ==> (#[trigger] d.agg_feeds@[j])@ == Seq::<
                AggEntry,
            >::empty(),
    {
        let mut feeds: Vec<Vec<AggEntry>> = Vec::new();
        let n: usize = rules.len();
        let mut i: usize = 0;
        while i < n
            invariant
                i <= n,
                feeds@.len() == i,
                forall|j: int| 0 <= j < i ==> (#[trigger] feeds@[j])@ == Seq::<AggEntry>::empty(),
            decreases n - i,
        {
            feeds.push(Vec::new());
            i = i + 1;
        }
        Detection { rules, matches: Vec::new(), agg_feeds: feeds }
    }

    /// Value-level lookup of a record's stored field.
    #[verifier::loop_isolation(false)]
    fn field_value(flat: &Vec<(String, String)>, key: &String) -> (r: Option<String>)
        ensures
            match r {
                Some(v) => assoc_lookup(pair_views(flat@), key@) == Some(v@),
                None => assoc_lookup(pair_views(flat@), key@) is None,
            },
    {
        let n: usize = flat.len();
        let mut i: usize = 0;
        proof {
            assert(pair_views(flat@).skip(0) =~= pair_views(flat@));
        }
        while i < n
            invariant
                i <= n,
                n == flat@.len(),
                assoc_lookup(pair_views(flat@), key@) == assoc_lookup(
                    pair_views(flat@).skip(i as int),
                    key@,
                ),
            decreases n - i,
        {
            let entry: &(String, String) = &flat[i];
            proof {
                assert(pair_views(flat@).skip(i as int)[0] == pair_views(flat@)[i as int]);
            }
            if entry.0 == *key {
                return Some(entry.1.clone());
            }
            proof {
                assert(pair_views(flat@).skip(i as int).skip(1) =~= pair_views(flat@).skip(i + 1));
            }
            i = i + 1;
        }
        proof {
            assert(pair_views(flat@).skip(n as int) =~= Seq::<(Seq<char>, Seq<char>)>::empty());
        }
        None
    }

    /// Evaluates a batch: every per-event rule against every record, records
    /// in input order and rules in declared order, appending to the match
    /// buffer; then every aggregate rule is fed the records its condition
    /// selects.
    #[verifier::loop_isolation(false)]
    pub fn start(self, records: &Vec<PreparedRecord>) -> (d: Detection)
        requires
            self.wf(),
        ensures
            d.wf(),
            d.rules == self.rules,
            match_views(d.matches@) == match_views(self.matches@) + batch_matches(
                self.rules@,
                records@,
            ),
            d.agg_feeds@.len() == self.agg_feeds@.len(),
            forall|j: int|
                0 <= j < d.agg_feeds@.len() ==> feed_views((#[trigger] d.agg_feeds@[j])@)
                    == feed_views(self.agg_feeds@[j]@) + feed_of(self.rules@[j], records@),
    {
        let Detection { rules, mut matches, agg_feeds } = self;
        let ghost old_matches = matches@;
        let n: usize = records.len();
        let mut i: usize = 0;
        proof {
            assert(records@.take(0) =~= Seq::<PreparedRecord>::empty());
            assert(match_views(matches@) =~= match_views(old_matches) + batch_matches(
                rules@,
                records@.take(0),
            ));
        }
        while i < n
            invariant
                i <= n,
                n == records@.len(),
                match_views(matches@) == match_views(old_matches) + batch_matches(
                    rules@,
                    records@.take(i as int),
                ),
            decreases n - i,
        {
            let rec: &PreparedRecord = &records[i];
            let m: usize = rules.len();
            let mut j: usize = 0;
            let ghost rec_base = matches@;
            while j < m
                invariant
                    j <= m,
                    m == rules@.len(),
                    match_views(matches@) + record_matches_from(rules@, records@[i as int], j as int)
                        == match_views(rec_base) + record_matches(rules@, records@[i as int]),
                    match_views(rec_base) == match_views(old_matches) + batch_matches(
                        rules@,
                        records@.take(i as int),
                    ),
                decreases m - j,
            {
                let rule: &Rule = &rules[j];
                if rule.per_event {
                    if rule.matches(rec) {
                        let hit: Match = Match {
                            rule_id: rule.id.clone(),
                            level: rule.level,
                            source_path: rec.evtx_filepath.clone(),
                            record_timestamp: rec.ts_text.clone(),
                            record_fields: clone_fields(&rec.flat),
                        };
                        proof {
                            assert(hit@ =~~= make_match(rules@[j as int], records@[i as int]));
                        }
                        matches.push(hit);
                    }
                }
                proof {
                    assert(match_views(matches@) + record_matches_from(
                        rules@,
                        records@[i as int],
                        j + 1,
                    ) =~~= match_views(rec_base) + record_matches(rules@, records@[i as int]));
                }
                j = j + 1;
            }
            proof {
                assert(records@.take(i + 1).drop_last() =~= records@.take(i as int));
                assert(records@.take(i + 1).last() == records@[i as int]);
                assert(match_views(matches@) =~~= match_views(old_matches) + batch_matches(
                    rules@,
                    records@.take(i + 1),
                ));
            }
            i = i + 1;
        }
        proof {
            assert(records@.take(n as int) =~= records@);
        }
        // Aggregate feeding, rule by rule over the same batch.
        let ghost old_feeds = agg_feeds@;
        let m: usize = rules.len();
        let mut remaining: Vec<Vec<AggEntry>> = agg_feeds;
        let mut new_feeds: Vec<Vec<AggEntry>> = Vec::new();
        let mut j: usize = 0;
        proof {
            assert(remaining@ =~= old_feeds.skip(0));
        }
        while j < m
            invariant
                j <= m,
                m == rules@.len(),
                old_feeds.len() == m,
                remaining@ == old_feeds.skip(j as int),
                new_feeds@.len() == j,
                forall|k: int|
                    0 <= k < j ==> feed_views((#[trigger] new_feeds@[k])@) == feed_views(
                        old_feeds[k]@,
                    ) + feed_of(rules@[k], records@),
            decreases m - j,
        {
            let mut feed: Vec<AggEntry> = remaining.remove(0);
            proof {
                assert(old_feeds.skip(j as int)[0] == old_feeds[j as int]);
                assert(remaining@ =~= old_feeds.skip(j + 1));
            }
            let rule: &Rule = &rules[j];
            let ghost feed_base = feed@;
            let mut i2: usize = 0;
            proof {
                assert(records@.take(0) =~= Seq::<PreparedRecord>::empty());
                assert(feed_views(feed@) =~= feed_views(feed_base) + feed_of(
                    rules@[j as int],
                    records@.take(0),
                ));
            }
            while i2 < n
                invariant
                    i2 <= n,
                    feed_views(feed@) == feed_views(feed_base) + feed_of(
                        rules@[j as int],
                        records@.take(i2 as int),
                    ),
                decreases n - i2,
            {
                let rec: &PreparedRecord = &records[i2];
                match &rule.aggregate {
                    Some(agg) => {
                        if rule.matches(rec) {
                            match rec.ts_epoch {
                                Some(ts) => {
                                    let entry: AggEntry = AggEntry {
                                        group_key: Detection::field_value(&rec.flat, &agg.group_by),
                                        ts,
                                        ts_text: rec.ts_text.clone(),
                                        source_path: rec.evtx_filepath.clone(),
                                        fields: clone_fields(&rec.flat),
                                    };
                                    proof {
                                        assert(seq![entry@] =~~= feed_entry(
                                            rules@[j as int],
                                            records@[i2 as int],
                                        ));
                                    }
                                    let ghost prev = feed@;
                                    feed.push(entry);
                                    proof {
                                        assert(feed@ =~= prev.push(entry));
                                        assert(feed_views(feed@) =~= feed_views(prev).push(
                                            entry@,
                                        ));
                                    }
                                },
                                None => {},
                            }
                        }
                    },
                    None => {},
                }
                proof {
                    assert(records@.take(i2 + 1).drop_last() =~= records@.take(i2 as int));
                    assert(records@.take(i2 + 1).last() == records@[i2 as int]);
                    assert(feed_views(feed@) =~~= feed_views(feed_base) + feed_of(
                        rules@[j as int],
                        records@.take(i2 + 1),
                    ));
                }
                i2 = i2 + 1;
            }
            proof {
                assert(records@.take(n as int) =~= records@);
            }
            new_feeds.push(feed);
            j = j + 1;
        }
        Detection { rules, matches, agg_feeds: new_feeds }
    }
}

/// Batch evaluation is insensitive to where batch boundaries fall: the
/// matches of two stretches evaluated one after the other are the matches of
/// the stretches joined.
pub proof fn lemma_batch_split(rules: Seq<Rule>, a: Seq<PreparedRecord>, b: Seq<PreparedRecord>)
    ensures
        batch_matches(rules, a + b) == batch_matches(rules, a) + batch_matches(rules, b),
    decreases b.len(),
{
    if b.len() == 0 {
        assert(a + b =~= a);
        assert(batch_matches(rules, b) =~= Seq::<MatchView>::empty());
        assert(batch_matches(rules, a + b) =~= batch_matches(rules, a) + batch_matches(rules, b));
    } else {
        lemma_batch_split(rules, a, b.drop_last());
        assert((a + b).drop_last() =~= a + b.drop_last());
        assert((a + b).last() == b.last());
        assert(batch_matches(rules, a + b) =~= batch_matches(rules, a) + batch_matches(rules, b));
    }
}

/// The same insensitivity for aggregate feeding.
pub proof fn lemma_feed_split(r: Rule, a: Seq<PreparedRecord>, b: Seq<PreparedRecord>)
    ensures
        feed_of(r, a + b) == feed_of(r, a) + feed_of(r, b),
    decreases b.len(),
{
    if b.len() == 0 {
        assert(a + b =~= a);
        assert(feed_of(r, b) =~= Seq::<AggView>::empty());
        assert(feed_of(r, a + b) =~= feed_of(r, a) + feed_of(r, b));
    } else {
        lemma_feed_split(r, a, b.drop_last());
        assert((a + b).drop_last() =~= a + b.drop_last());
        assert((a + b).last() == b.last());
        assert(feed_of(r, a + b) =~= feed_of(r, a) + feed_of(r, b));
    }
}

} // verus!
