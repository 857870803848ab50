use evtx_timeline::prepare::prepare_record;
use evtx_timeline::timeline::{EventInfo, Timeline};
use evtx_timeline::value::RecordValue;

fn record(event_id: i64, user: Option<&str>, system_time: Option<&str>) -> RecordValue {
    let mut system = vec![("EventID".to_string(), RecordValue::Num(event_id))];
    if let Some(ts) = system_time {
        system.push((
            "TimeCreated_attributes".to_string(),
            RecordValue::Tree(vec![("SystemTime".to_string(), RecordValue::Text(ts.to_string()))]),
        ));
    }
    let mut event = vec![("System".to_string(), RecordValue::Tree(system))];
    if let Some(u) = user {
        event.push((
            "EventData".to_string(),
            RecordValue::Tree(vec![("TargetUserName".to_string(), RecordValue::Text(u.to_string()))]),
        ));
    }
    RecordValue::Tree(vec![("Event".to_string(), RecordValue::Tree(event))])
}

fn prepare_all(records: Vec<RecordValue>) -> Vec<evtx_timeline::prepare::PreparedRecord> {
    let path = "sample.evtx".to_string();
    let keys: Vec<String> = Vec::new();
    records.into_iter().map(|r| prepare_record(r, &path, &keys)).collect()
}

#[test]
fn logon_summary_counts_users() {
    // One file with a successful logon for alice, a failed one for alice,
    // and a successful one for bob.
    let records = prepare_all(vec![
        record(4624, Some("alice"), None),
        record(4625, Some("alice"), None),
        record(4624, Some("bob"), None),
    ]);
    let mut tl = Timeline::new();
    tl.start(&records);
    assert_eq!(tl.stats.total, 3);
    let rows = &tl.stats.stats_login_list;
    assert_eq!(rows.len(), 2);
    assert_eq!(rows[0].0, "alice");
    assert_eq!(rows[0].1.failed, 1);
    assert_eq!(rows[0].1.succeeded, 1);
    assert_eq!(rows[1].0, "bob");
    assert_eq!(rows[1].1.failed, 0);
    assert_eq!(rows[1].1.succeeded, 1);
}

#[test]
fn missing_target_user_counts_only_in_histogram() {
    // A successful-logon record without a target user is in the total and
    // the histogram but not in the logon rows.
    let records = prepare_all(vec![record(4624, None, None)]);
    let mut tl = Timeline::new();
    tl.start(&records);
    assert_eq!(tl.stats.total, 1);
    assert_eq!(tl.stats.stats_list, vec![("4624".to_string(), 1)]);
    assert!(tl.stats.stats_login_list.is_empty());
}

#[test]
fn histogram_counts_every_identifier() {
    let records = prepare_all(vec![
        record(4624, None, None),
        record(4625, None, None),
        record(4624, None, None),
        record(1102, None, None),
    ]);
    let mut tl = Timeline::new();
    tl.start(&records);
    assert_eq!(tl.stats.total, 4);
    assert_eq!(
        tl.stats.stats_list,
        vec![("4624".to_string(), 2), ("4625".to_string(), 1), ("1102".to_string(), 1)]
    );
}

#[test]
fn timestamp_bounds_follow_the_records() {
    let records = prepare_all(vec![
        record(1, None, Some("2021-06-01T10:00:00Z")),
        record(2, None, Some("2021-06-01T09:00:00Z")),
        record(3, None, None),
        record(4, None, Some("2021-06-01T11:00:00Z")),
    ]);
    let mut tl = Timeline::new();
    tl.start(&records);
    assert_eq!(tl.stats.start_time, "2021-06-01T09:00:00Z");
    assert_eq!(tl.stats.end_time, "2021-06-01T11:00:00Z");
    assert!(tl.stats.start_time <= tl.stats.end_time);
}

#[test]
fn configurable_logon_identifiers() {
    let records = prepare_all(vec![record(4634, Some("carol"), None)]);
    let mut tl = Timeline::new();
    tl.stats.set_logon_ids("4624".to_string(), "4634".to_string());
    tl.start(&records);
    assert_eq!(tl.stats.stats_login_list.len(), 1);
    assert_eq!(tl.stats.stats_login_list[0].0, "carol");
    assert_eq!(tl.stats.stats_login_list[0].1.failed, 1);
    assert_eq!(tl.stats.stats_login_list[0].1.succeeded, 0);
}

#[test]
fn stat_rows_sort_by_count_then_identifier() {
    let records = prepare_all(vec![
        record(5, None, None),
        record(7, None, None),
        record(7, None, None),
        record(3, None, None),
        record(3, None, None),
    ]);
    let mut tl = Timeline::new();
    tl.start(&records);
    let sorted = tl.sorted_stats();
    assert_eq!(
        sorted,
        vec![("3".to_string(), 2), ("7".to_string(), 2), ("5".to_string(), 1)]
    );
}

#[test]
fn tm_stats_set_msg_renders_counts_and_share() {
    let records = prepare_all(vec![
        record(4624, None, None),
        record(4624, None, None),
        record(1102, None, None),
        record(1102, None, None),
    ]);
    let mut tl = Timeline::new();
    tl.start(&records);
    let info = vec![(
        "4624".to_string(),
        EventInfo { evttitle: "Logon".to_string(), detectflg: "alert".to_string() },
    )];
    let sorted = tl.sorted_stats();
    let lines = tl.tm_stats_set_msg(&sorted, &info);
    assert_eq!(lines.len(), 3);
    assert_eq!(lines[0], "2 (50.0%)\t1102\tUnknown\t");
    assert_eq!(lines[1], "2 (50.0%)\t4624\tLogon\talert");
    assert_eq!(lines[2], "-----------------------------------------------------------------");
}

#[test]
fn tm_loginstats_set_msg_renders_user_rows() {
    let records = prepare_all(vec![
        record(4624, Some("alice"), None),
        record(4625, Some("alice"), None),
    ]);
    let mut tl = Timeline::new();
    tl.start(&records);
    let lines = tl.tm_loginstats_set_msg();
    assert_eq!(lines.len(), 2);
    assert_eq!(lines[0], "alice\t\t\t\t1\t\t\t\t1");
    assert_eq!(lines[1], "-----------------------------------------------------------------");
}
