use evtx_timeline::engine::Detection;
use evtx_timeline::filter::EventIdFilter;
use evtx_timeline::pipeline::analysis_file;
use evtx_timeline::rules::{
    filter_rules_by_level, get_all_keys, Condition, FieldTest, Rule, RuleLevel,
};
use evtx_timeline::timeline::Timeline;
use evtx_timeline::value::RecordValue;

fn record(event_id: i64, user: Option<&str>, system_time: Option<&str>) -> RecordValue {
    let mut system = vec![("EventID".to_string(), RecordValue::Num(event_id))];
    if let Some(ts) = system_time {
        system.push((
            "TimeCreated_attributes".to_string(),
            RecordValue::Tree(vec![("SystemTime".to_string(), RecordValue::Text(ts.to_string()))]),
        ));
    }
    let mut event = vec![("System".to_string(), RecordValue::Tree(system))];
    if let Some(u) = user {
        event.push((
            "EventData".to_string(),
            RecordValue::Tree(vec![("TargetUserName".to_string(), RecordValue::Text(u.to_string()))]),
        ));
    }
    RecordValue::Tree(vec![("Event".to_string(), RecordValue::Tree(event))])
}

fn event_id_rule(id: &str, rule_id: &str) -> Rule {
    Rule {
        id: rule_id.to_string(),
        level: RuleLevel::High,
        per_event: true,
        condition: Condition::Test(
            "Event.System.EventID".to_string(),
            FieldTest::Exact(id.to_string()),
        ),
        aggregate: None,
    }
}

fn run(
    records: Vec<RecordValue>,
    rules: Vec<Rule>,
    allow: Vec<String>,
    batch_size: usize,
) -> (Detection, Vec<String>, Timeline) {
    let keys = get_all_keys(&rules);
    let fil = EventIdFilter::new(allow);
    let det = Detection::new(rules);
    let mut tl = Timeline::new();
    let input: Vec<Result<RecordValue, String>> = records.into_iter().map(Ok).collect();
    let (det, errors) = analysis_file(
        input,
        &"sample.evtx".to_string(),
        &fil,
        &keys,
        det,
        &mut tl,
        batch_size,
        true,
    );
    (det, errors, tl)
}

#[test]
fn ten_matches_among_ten_thousand_records() {
    // 10 000 records, 10 of which carry the targeted identifier; exactly
    // those match, in record order, and the total counts every record.
    let mut records: Vec<RecordValue> = Vec::new();
    for i in 0..10_000u32 {
        let id = if i % 1000 == 0 { 1102 } else { 4688 };
        records.push(record(id, None, None));
    }
    let rules = vec![event_id_rule("1102", "clearing")];
    let (det, errors, tl) = run(records, rules, Vec::new(), 5000);
    assert!(errors.is_empty());
    assert_eq!(tl.stats.total, 10_000);
    assert_eq!(det.matches.len(), 10);
    for m in det.matches.iter() {
        assert_eq!(m.rule_id, "clearing");
        assert_eq!(m.source_path, "sample.evtx");
    }
}

#[test]
fn batch_size_does_not_change_the_matches() {
    let build = || {
        (0..23)
            .map(|i| record(if i % 2 == 0 { 4625 } else { 4688 }, Some("alice"), None))
            .collect::<Vec<_>>()
    };
    let rules = || vec![event_id_rule("4625", "fails")];
    let (one, _, _) = run(build(), rules(), Vec::new(), 1);
    let (big, _, _) = run(build(), rules(), Vec::new(), 5000);
    assert_eq!(one.matches.len(), 12);
    assert_eq!(one.matches.len(), big.matches.len());
    for (a, b) in one.matches.iter().zip(big.matches.iter()) {
        assert_eq!(a.rule_id, b.rule_id);
        assert_eq!(a.record_timestamp, b.record_timestamp);
        assert_eq!(a.record_fields, b.record_fields);
    }
}

#[test]
fn empty_input_gives_zero_matches_and_zero_stats() {
    let (det, errors, tl) = run(Vec::new(), vec![event_id_rule("4624", "any")], Vec::new(), 5000);
    assert!(det.matches.is_empty());
    assert!(errors.is_empty());
    assert_eq!(tl.stats.total, 0);
    assert!(tl.stats.stats_list.is_empty());
    assert_eq!(tl.stats.start_time, "");
    assert_eq!(tl.stats.end_time, "");
}

#[test]
fn batch_boundaries_at_multiples_of_the_batch_size() {
    // Streams of exactly one, two and two-plus-one batches all give the
    // same matches as single-batch evaluation.
    for len in [5usize, 10, 11] {
        let build = |n: usize| (0..n).map(|_| record(4625, None, None)).collect::<Vec<_>>();
        let rules = || vec![event_id_rule("4625", "fails")];
        let (batched, _, tl) = run(build(len), rules(), Vec::new(), 5);
        let (whole, _, _) = run(build(len), rules(), Vec::new(), usize::MAX);
        assert_eq!(tl.stats.total, len);
        assert_eq!(batched.matches.len(), len);
        assert_eq!(batched.matches.len(), whole.matches.len());
    }
}

#[test]
fn rules_apply_in_declared_order_per_record() {
    let records = vec![record(4625, None, None)];
    let rules = vec![event_id_rule("4625", "first"), event_id_rule("4625", "second")];
    let (det, _, _) = run(records, rules, Vec::new(), 5000);
    assert_eq!(det.matches.len(), 2);
    assert_eq!(det.matches[0].rule_id, "first");
    assert_eq!(det.matches[1].rule_id, "second");
}

#[test]
fn allow_list_filters_records_before_evaluation() {
    // Only listed identifiers reach the engine and the statistics; records
    // without an identifier pass.
    let no_id = RecordValue::Tree(vec![("Event".to_string(), RecordValue::Tree(vec![]))]);
    let records = vec![record(4624, None, None), record(4625, None, None), no_id];
    let rules = vec![event_id_rule("4625", "fails")];
    let (det, _, tl) = run(records, rules, vec!["4624".to_string()], 5000);
    assert_eq!(tl.stats.total, 2);
    assert!(det.matches.is_empty());
    assert_eq!(tl.stats.stats_list, vec![("4624".to_string(), 1)]);
}

#[test]
fn decode_failures_are_reported_not_fatal() {
    let fil = EventIdFilter::new(Vec::new());
    let det = Detection::new(vec![event_id_rule("4624", "ok")]);
    let keys: Vec<String> = vec!["Event.System.EventID".to_string()];
    let mut tl = Timeline::new();
    let input: Vec<Result<RecordValue, String>> = vec![
        Ok(record(4624, None, None)),
        Err("bad chunk header".to_string()),
        Ok(record(4624, None, None)),
    ];
    let (det, errors) = analysis_file(
        input,
        &"broken.evtx".to_string(),
        &fil,
        &keys,
        det,
        &mut tl,
        5000,
        true,
    );
    assert_eq!(tl.stats.total, 2);
    assert_eq!(det.matches.len(), 2);
    assert_eq!(errors.len(), 1);
    assert_eq!(
        errors[0],
        "Failed to parse event file. EventFile:broken.evtx Error:bad chunk header"
    );
}

#[test]
fn comparison_operators_work_on_stored_fields() {
    let records = vec![record(4688, Some("ALICE"), None)];
    let rules = vec![
        Rule {
            id: "ci".to_string(),
            level: RuleLevel::Low,
            per_event: true,
            condition: Condition::Test(
                "Event.EventData.TargetUserName".to_string(),
                FieldTest::ExactIgnoreCase("alice".to_string()),
            ),
            aggregate: None,
        },
        Rule {
            id: "sub".to_string(),
            level: RuleLevel::Low,
            per_event: true,
            condition: Condition::Test(
                "Event.EventData.TargetUserName".to_string(),
                FieldTest::Contains("LIC".to_string()),
            ),
            aggregate: None,
        },
        Rule {
            id: "rex".to_string(),
            level: RuleLevel::Low,
            per_event: true,
            condition: Condition::Test(
                "Event.EventData.TargetUserName".to_string(),
                FieldTest::Regexp("^AL.*E$".to_string()),
            ),
            aggregate: None,
        },
        Rule {
            id: "num".to_string(),
            level: RuleLevel::Low,
            per_event: true,
            condition: Condition::Test(
                "Event.System.EventID".to_string(),
                FieldTest::GreaterNum(4000),
            ),
            aggregate: None,
        },
        Rule {
            id: "wild".to_string(),
            level: RuleLevel::Low,
            per_event: true,
            condition: Condition::Test(
                "Event.EventData.TargetUserName".to_string(),
                FieldTest::Wildcard("AL*E".to_string()),
            ),
            aggregate: None,
        },
        Rule {
            id: "absent".to_string(),
            level: RuleLevel::Low,
            per_event: true,
            condition: Condition::Test(
                "Event.EventData.NoSuchField".to_string(),
                FieldTest::Exact("x".to_string()),
            ),
            aggregate: None,
        },
        Rule {
            id: "negated".to_string(),
            level: RuleLevel::Low,
            per_event: true,
            condition: Condition::Negate(Box::new(Condition::Test(
                "Event.System.EventID".to_string(),
                FieldTest::Exact("1".to_string()),
            ))),
            aggregate: None,
        },
    ];
    let (det, _, _) = run(records, rules, Vec::new(), 5000);
    let ids: Vec<&str> = det.matches.iter().map(|m| m.rule_id.as_str()).collect();
    assert_eq!(ids, vec!["ci", "sub", "rex", "num", "wild", "negated"]);
}

#[test]
fn rules_below_min_level_are_dropped() {
    let rules = vec![
        event_id_rule("1", "low-one"),
        Rule { level: RuleLevel::Informational, ..event_id_rule("2", "info") },
        Rule { level: RuleLevel::Critical, ..event_id_rule("3", "crit") },
    ];
    let kept = filter_rules_by_level(rules, &RuleLevel::High);
    let ids: Vec<&str> = kept.iter().map(|r| r.id.as_str()).collect();
    assert_eq!(ids, vec!["low-one", "crit"]);
}

#[test]
fn detection_keys_are_the_distinct_union() {
    let rules = vec![
        Rule {
            id: "a".to_string(),
            level: RuleLevel::Low,
            per_event: true,
            condition: Condition::Both(
                Box::new(Condition::Test("x.f".to_string(), FieldTest::Exact("1".to_string()))),
                Box::new(Condition::Test("y.g".to_string(), FieldTest::Exact("2".to_string()))),
            ),
            aggregate: None,
        },
        Rule {
            id: "b".to_string(),
            level: RuleLevel::Low,
            per_event: true,
            condition: Condition::Test("x.f".to_string(), FieldTest::Exact("3".to_string())),
            aggregate: None,
        },
    ];
    let keys = get_all_keys(&rules);
    assert_eq!(keys, vec!["x.f".to_string(), "y.g".to_string()]);
}
