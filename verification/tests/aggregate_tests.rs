use evtx_timeline::engine::Detection;
use evtx_timeline::filter::EventIdFilter;
use evtx_timeline::pipeline::analysis_file;
use evtx_timeline::rules::{
    get_all_keys, AggCondition, Condition, CountOp, FieldTest, Rule, RuleLevel,
};
use evtx_timeline::timeline::Timeline;
use evtx_timeline::value::RecordValue;

fn record(event_id: i64, user: &str, system_time: &str) -> RecordValue {
    RecordValue::Tree(vec![(
        "Event".to_string(),
        RecordValue::Tree(vec![
            (
                "System".to_string(),
                RecordValue::Tree(vec![
                    ("EventID".to_string(), RecordValue::Num(event_id)),
                    (
                        "TimeCreated_attributes".to_string(),
                        RecordValue::Tree(vec![(
                            "SystemTime".to_string(),
                            RecordValue::Text(system_time.to_string()),
                        )]),
                    ),
                ]),
            ),
            (
                "EventData".to_string(),
                RecordValue::Tree(vec![(
                    "TargetUserName".to_string(),
                    RecordValue::Text(user.to_string()),
                )]),
            ),
        ]),
    )])
}

fn brute_force_rule(threshold: usize, window: i64) -> Rule {
    Rule {
        id: "brute-force".to_string(),
        level: RuleLevel::Critical,
        per_event: false,
        condition: Condition::Test(
            "Event.System.EventID".to_string(),
            FieldTest::Exact("4625".to_string()),
        ),
        aggregate: Some(AggCondition {
            group_by: "Event.EventData.TargetUserName".to_string(),
            op: CountOp::GreaterEq,
            threshold,
            window,
        }),
    }
}

fn run(records: Vec<RecordValue>, rules: Vec<Rule>) -> Detection {
    let keys = get_all_keys(&rules);
    let fil = EventIdFilter::new(Vec::new());
    let det = Detection::new(rules);
    let mut tl = Timeline::new();
    let input: Vec<Result<RecordValue, String>> = records.into_iter().map(Ok).collect();
    let (det, _) = analysis_file(
        input,
        &"agg.evtx".to_string(),
        &fil,
        &keys,
        det,
        &mut tl,
        5000,
        true,
    );
    det.finalize_aggregates()
}

#[test]
fn five_failures_within_a_minute_emit_one_match() {
    // Failed logons for alice at seconds 0, 10, 20, 30, 40 and 300: the
    // five within sixty seconds give one match anchored at the fifth
    // record, and the window then advances past it.
    let times = [
        "2021-01-01T00:00:00Z",
        "2021-01-01T00:00:10Z",
        "2021-01-01T00:00:20Z",
        "2021-01-01T00:00:30Z",
        "2021-01-01T00:00:40Z",
        "2021-01-01T00:05:00Z",
    ];
    let records: Vec<RecordValue> = times.iter().map(|t| record(4625, "alice", t)).collect();
    let det = run(records, vec![brute_force_rule(5, 60)]);
    assert_eq!(det.matches.len(), 1);
    assert_eq!(det.matches[0].rule_id, "brute-force");
    assert_eq!(det.matches[0].record_timestamp, "2021-01-01T00:00:40Z");
    assert_eq!(det.matches[0].source_path, "agg.evtx");
}

#[test]
fn groups_count_separately_per_user() {
    // Three failures each for alice and bob, interleaved: with a threshold
    // of three per user, each group emits one match at its third record.
    let records = vec![
        record(4625, "alice", "2021-01-01T00:00:00Z"),
        record(4625, "bob", "2021-01-01T00:00:01Z"),
        record(4625, "alice", "2021-01-01T00:00:02Z"),
        record(4625, "bob", "2021-01-01T00:00:03Z"),
        record(4625, "alice", "2021-01-01T00:00:04Z"),
        record(4625, "bob", "2021-01-01T00:00:05Z"),
    ];
    let det = run(records, vec![brute_force_rule(3, 60)]);
    assert_eq!(det.matches.len(), 2);
    assert_eq!(det.matches[0].record_timestamp, "2021-01-01T00:00:04Z");
    assert_eq!(det.matches[1].record_timestamp, "2021-01-01T00:00:05Z");
}

#[test]
fn events_outside_the_window_do_not_count() {
    let records = vec![
        record(4625, "alice", "2021-01-01T00:00:00Z"),
        record(4625, "alice", "2021-01-01T00:02:00Z"),
        record(4625, "alice", "2021-01-01T00:04:00Z"),
    ];
    let det = run(records, vec![brute_force_rule(3, 60)]);
    assert!(det.matches.is_empty());
}

#[test]
fn non_matching_records_are_not_fed() {
    let records = vec![
        record(4624, "alice", "2021-01-01T00:00:00Z"),
        record(4625, "alice", "2021-01-01T00:00:01Z"),
        record(4624, "alice", "2021-01-01T00:00:02Z"),
    ];
    let det = run(records, vec![brute_force_rule(2, 60)]);
    assert!(det.matches.is_empty());
}
