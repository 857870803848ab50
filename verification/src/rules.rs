//! Detection rules: severity levels, the predicate language over prepared
//! fields, aggregate conditions, and the detection key set of a rule set.

use vstd::prelude::*;

use crate::outside::{regex_is_match, regex_match_of};
use crate::prepare::{assoc_lookup, pair_views, PreparedRecord};
use crate::strtext::{ci_equal, contains_sub, int_of_text, wild_match};

verus! {

/// A rule's severity level.
#[derive(Clone, Copy)]
pub enum RuleLevel {
    Informational,
    Low,
    Medium,
    High,
    Critical,
}

impl RuleLevel {
    /// The level's place in the severity order.
    pub open spec fn rank(self) -> int {
        match self {
            RuleLevel::Informational => 0,
            RuleLevel::Low => 1,
            RuleLevel::Medium => 2,
            RuleLevel::High => 3,
            RuleLevel::Critical => 4,
        }
    }

    /// The level's place in the severity order.
    pub fn value(&self) -> (r: u8)
        ensures
            r as int == self.rank(),
    {
        match self {
            RuleLevel::Informational => 0,
            RuleLevel::Low => 1,
            RuleLevel::Medium => 2,
            RuleLevel::High => 3,
            RuleLevel::Critical => 4,
        }
    }
}

/// An atomic comparison on one field's stored text.
pub enum FieldTest {
    /// Equal to the literal.
    Exact(String),
    /// Equal up to ASCII case.
    ExactIgnoreCase(String),
    /// The literal occurs as a substring.
    Contains(String),
    /// The regular expression matches somewhere in the text.
    Regexp(String),
    /// Reads as a number smaller than the literal.
    LessNum(i64),
    /// Reads as a number greater than the literal.
    GreaterNum(i64),
    /// Glob-style wildcard match of the whole text.
    Wildcard(String),
}

/// A rule's condition: atomic field tests under and/or/not.
pub enum Condition {
    Test(String, FieldTest),
    Both(Box<Condition>, Box<Condition>),
    Either(Box<Condition>, Box<Condition>),
    Negate(Box<Condition>),
}

/// How a count is held against an aggregate rule's threshold.
pub enum CountOp {
    GreaterEq,
    Greater,
    Exact,
    LessEq,
    Less,
}

/// The aggregate part of a rule: a count over records grouped by a field
/// within a time window, in seconds.
pub struct AggCondition {
    /// The field whose stored text partitions the fed records; records that
    /// do not carry it gather in one group of their own.
    pub group_by: String,
    pub op: CountOp,
    pub threshold: usize,
    /// Window length in seconds.
    pub window: i64,
}

/// One detection rule.
pub struct Rule {
    pub id: String,
    pub level: RuleLevel,
    /// Whether the rule is evaluated on single records.
    pub per_event: bool,
    pub condition: Condition,
    /// The aggregate part, for rules that count grouped records in a
    /// window. A rule with one but without a grouping field treats all fed
    /// records as one group.
    pub aggregate: Option<AggCondition>,
}

/// Whether an atomic test holds of a field's stored text; an absent field
/// satisfies no test.
pub open spec fn test_holds(t: FieldTest, val: Option<Seq<char>>) -> bool {
    match val {
        None => false,
        Some(v) => match t {
            FieldTest::Exact(s) => v == s@,
            FieldTest::ExactIgnoreCase(s) => ci_equal(v, s@),
            FieldTest::Contains(s) => contains_sub(v, s@),
            FieldTest::Regexp(s) => regex_match_of(s@, v),
            FieldTest::LessNum(n) => match int_of_text(v) {
                Some(x) => x < n,
                None => false,
            },
            FieldTest::GreaterNum(n) => match int_of_text(v) {
                Some(x) => x > n,
                None => false,
            },
            FieldTest::Wildcard(s) => wild_match(s@, v),
        },
    }
}

/// Whether a condition holds of a flattened record.
pub open spec fn cond_holds(c: Condition, flat: Seq<(Seq<char>, Seq<char>)>) -> bool
    decreases c,
{
    match c {
        Condition::Test(field, t) => test_holds(t, assoc_lookup(flat, field@)),
        Condition::Both(a, b) => cond_holds(*a, flat) && cond_holds(*b, flat),
        Condition::Either(a, b) => cond_holds(*a, flat) || cond_holds(*b, flat),
        Condition::Negate(a) => !cond_holds(*a, flat),
    }
}

/// First match in the flattened field list.
#[verifier::loop_isolation(false)]
pub fn flat_get<'a>(flat: &'a Vec<(String, String)>, key: &String) -> (r: Option<&'a String>)
    ensures
        match r {
            Some(v) => assoc_lookup(pair_views(flat@), key@) == Some(v@),
            None => assoc_lookup(pair_views(flat@), key@) is None,
        },
{
    let n: usize = flat.len();
    let mut i: usize = 0;
    proof {
        assert(pair_views(flat@).skip(0) =~= pair_views(flat@));
    }
    while i < n
        invariant
            i <= n,
            n == flat@.len(),
            assoc_lookup(pair_views(flat@), key@) == assoc_lookup(
                pair_views(flat@).skip(i as int),
                key@,
            ),
        decreases n - i,
    {
        let entry: &(String, String) = &flat[i];
        proof {
            assert(pair_views(flat@).skip(i as int)[0] == pair_views(flat@)[i as int]);
        }
        if entry.0 == *key {
            return Some(&entry.1);
        }
        proof {
            assert(pair_views(flat@).skip(i as int).skip(1) =~= pair_views(flat@).skip(i + 1));
        }
        i = i + 1;
    }
    proof {
        assert(pair_views(flat@).skip(n as int) =~= Seq::<(Seq<char>, Seq<char>)>::empty());
    }
    None
}

fn eval_test(t: &FieldTest, val: Option<&String>) -> (r: bool)
    ensures
        r == test_holds(*t, match val {
            Some(v) => Some(v@),
            None => None,
        }),
{
    match val {
        None => false,
        Some(v) => match t {
            FieldTest::Exact(s) => *v == *s,
            FieldTest::ExactIgnoreCase(s) => crate::strtext::str_ci_eq(v, s),
            FieldTest::Contains(s) => crate::strtext::str_contains_sub(v, s),
            FieldTest::Regexp(s) => regex_is_match(s, v),
            FieldTest::LessNum(n) => match crate::strtext::parse_int(v) {
                Some(x) => x < *n,
                None => false,
            },
            FieldTest::GreaterNum(n) => match crate::strtext::parse_int(v) {
                Some(x) => x > *n,
                None => false,
            },
            FieldTest::Wildcard(s) => crate::strtext::str_wild_match(s, v),
        },
    }
}

/// Evaluates a condition over a flattened record.
pub fn eval_condition(c: &Condition, flat: &Vec<(String, String)>) -> (r: bool)
    ensures
        r == cond_holds(*c, pair_views(flat@)),
    decreases *c,
{
    match c {
        Condition::Test(field, t) => eval_test(t, flat_get(flat, field)),
        Condition::Both(a, b) => {
            if eval_condition(a, flat) {
                eval_condition(b, flat)
            } else {
                false
            }
        },
        Condition::Either(a, b) => {
            if eval_condition(a, flat) {
                true
            } else {
                eval_condition(b, flat)
            }
        },
        Condition::Negate(a) => !eval_condition(a, flat),
    }
}

impl Rule {
    /// Whether the rule's condition holds of a prepared record.
    pub fn matches(&self, rec: &PreparedRecord) -> (r: bool)
        ensures
            r == cond_holds(self.condition, pair_views(rec.flat@)),
    {
        eval_condition(&self.condition, &rec.flat)
    }
}

/// The field keys a condition reads, in reading order.
pub open spec fn cond_keys(c: Condition) -> Seq<String>
    decreases c,
{
    match c {
        Condition::Test(field, _) => seq![field],
        Condition::Both(a, b) => cond_keys(*a) + cond_keys(*b),
        Condition::Either(a, b) => cond_keys(*a) + cond_keys(*b),
        Condition::Negate(a) => cond_keys(*a),
    }
}

/// The field keys one rule needs: its condition's keys, then the grouping
/// field of its aggregate part.
pub open spec fn rule_keys(r: Rule) -> Seq<String> {
    cond_keys(r.condition) + match r.aggregate {
        Some(agg) => seq![agg.group_by],
        None => Seq::<String>::empty(),
    }
}

/// The concatenated keys of a whole rule list.
pub open spec fn rules_keys(rs: Seq<Rule>) -> Seq<String>
    decreases rs.len(),
{
    if rs.len() == 0 {
        Seq::empty()
    } else {
        rules_keys(rs.drop_last()) + rule_keys(rs.last())
    }
}

/// Whether `acc` already holds the text `k`.
pub open spec fn holds_key(acc: Seq<String>, k: Seq<char>) -> bool {
    exists|i: int| 0 <= i < acc.len() && acc[i]@ == k
}

/// First-occurrence deduplication of `xs` onto `acc`.
pub open spec fn dedup_into(acc: Seq<String>, xs: Seq<String>) -> Seq<String>
    decreases xs.len(),
{
    if xs.len() == 0 {
        acc
    } else {
        let acc2 = if holds_key(acc, xs[0]@) {
            acc
        } else {
            acc.push(xs[0])
        };
        dedup_into(acc2, xs.skip(1))
    }
}

/// The detection key set of a rule list: the distinct union of the fields
/// any rule reads, in first-occurrence order.
pub open spec fn detection_keys(rs: Seq<Rule>) -> Seq<String> {
    dedup_into(Seq::empty(), rules_keys(rs))
}

fn push_cond_keys(c: &Condition, out: &mut Vec<String>)
    ensures
        final(out)@ == old(out)@ + cond_keys(*c),
    decreases *c,
{
    match c {
        Condition::Test(field, _) => {
            out.push(field.clone());
            assert(final(out)@ =~= old(out)@ + cond_keys(*c));
        },
        Condition::Both(a, b) => {
            push_cond_keys(a, out);
            push_cond_keys(b, out);
            assert(final(out)@ =~= old(out)@ + cond_keys(*c));
        },
        Condition::Either(a, b) => {
            push_cond_keys(a, out);
            push_cond_keys(b, out);
            assert(final(out)@ =~= old(out)@ + cond_keys(*c));
        },
        Condition::Negate(a) => {
            push_cond_keys(a, out);
        },
    }
}

#[verifier::loop_isolation(false)]
fn dedup_keys(xs: &Vec<String>) -> (r: Vec<String>)
    ensures
        r@ == dedup_into(Seq::empty(), xs@),
{
    let mut out: Vec<String> = Vec::new();
    let n: usize = xs.len();
    let mut i: usize = 0;
    proof {
        assert(xs@.skip(0) =~= xs@);
    }
    while i < n
        invariant
            i <= n,
            n == xs@.len(),
            dedup_into(Seq::empty(), xs@) == dedup_into(out@, xs@.skip(i as int)),
        decreases n - i,
    {
        let key: &String = &xs[i];
        let m: usize = out.len();
        let mut j: usize = 0;
        let mut seen: bool = false;
        while j < m
            invariant
                j <= m,
                m == out@.len(),
                seen == exists|k: int| 0 <= k < j && out@[k]@ == key@,
            decreases m - j,
        {
            if out[j] == *key {
                seen = true;
                proof {
                    assert(out@[j as int]@ == key@);
                }
                break;
            }
            j = j + 1;
        }
        proof {
            assert(xs@.skip(i as int)[0] == xs@[i as int]);
            assert(seen == holds_key(out@, key@));
            assert(xs@.skip(i as int).skip(1) =~= xs@.skip(i + 1));
        }
        if !seen {
            out.push(key.clone());
        }
        i = i + 1;
    }
    proof {
        assert(xs@.skip(n as int) =~= Seq::<String>::empty());
    }
    out
}

/// The distinct union of the field paths the rules read: the detection key
/// set, computed once per run.
#[verifier::loop_isolation(false)]
pub fn get_all_keys(rules: &Vec<Rule>) -> (r: Vec<String>)
    ensures
        r@ == detection_keys(rules@),
{
    let mut all: Vec<String> = Vec::new();
    let n: usize = rules.len();
    let mut i: usize = 0;
    proof {
        assert(rules@.take(0) =~= Seq::<Rule>::empty());
        assert(all@ =~= rules_keys(rules@.take(0)));
    }
    while i < n
        invariant
            i <= n,
            n == rules@.len(),
            all@ == rules_keys(rules@.take(i as int)),
        decreases n - i,
    {
        let ghost before = all@;
        push_cond_keys(&rules[i].condition, &mut all);
        match &rules[i].aggregate {
            Some(agg) => {
                all.push(agg.group_by.clone());
                proof {
                    assert(all@ =~= before + rule_keys(rules@[i as int]));
                }
            },
            None => {
                proof {
                    assert(all@ =~= before + rule_keys(rules@[i as int]));
                }
            },
        }
        proof {
            assert(rules@.take(i + 1).drop_last() =~= rules@.take(i as int));
            assert(rules@.take(i + 1).last() == rules@[i as int]);
        }
        i = i + 1;
    }
    proof {
        assert(rules@.take(n as int) =~= rules@);
    }
    dedup_keys(&all)
}

/// Rules at or above the minimum severity, in declared order: the load-time
/// severity cut.
#[verifier::loop_isolation(false)]
pub fn filter_rules_by_level(rules: Vec<Rule>, min_level: &RuleLevel) -> (r: Vec<Rule>)
    ensures
        r@ == rules@.filter(|x: Rule| x.level.rank() >= min_level.rank()),
{
    let mut out: Vec<Rule> = Vec::new();
    let n: usize = rules.len();
    let ghost orig = rules@;
    let mut remaining: Vec<Rule> = rules;
    let mut i: usize = 0;
    let min_rank: u8 = min_level.value();
    proof {
        reveal(Seq::filter);
        assert(remaining@ =~= orig.skip(0));
        assert(orig.take(0) =~= Seq::<Rule>::empty());
        assert(out@ =~= orig.take(0).filter(|x: Rule| x.level.rank() >= min_level.rank()));
    }
    while i < n
        invariant
            i <= n,
            n == orig.len(),
            remaining@ == orig.skip(i as int),
            out@ == orig.take(i as int).filter(|x: Rule| x.level.rank() >= min_level.rank()),
        decreases n - i,
    {
        let rule: Rule = remaining.remove(0);
        proof {
            assert(orig.skip(i as int)[0] == orig[i as int]);
            assert(remaining@ =~= orig.skip(i + 1));
        }
        let keep: bool = rule.level.value() >= min_rank;
        if keep {
            out.push(rule);
        }
        proof {
            reveal(Seq::filter);
            assert(orig.take(i + 1).drop_last() =~= orig.take(i as int));
            assert(orig.take(i + 1).last() == orig[i as int]);
        }
        i = i + 1;
    }
    proof {
        assert(orig.take(n as int) =~= orig);
    }
    out
}

} // verus!
