use evtx_timeline::fsenum::{collect_evtxfiles, FsTree};
use evtx_timeline::strtext::{parse_int, str_ci_eq, str_contains_sub, str_ends_with, str_lt,
    str_wild_match, u64_to_string};
use evtx_timeline::value::{i64_to_string, render_value, scalar_string, split_key, RecordValue};

fn file(name: &str) -> FsTree {
    FsTree::File { name: name.to_string() }
}

#[test]
fn test_collect_evtxfiles() {
    let entries = vec![
        file("test1.evtx"),
        FsTree::Dir { name: "dir".to_string(), entries: vec![file("testtest4.evtx"), file("readme.txt")] },
        file("test2.evtx"),
        file("notes.md"),
    ];
    let files = collect_evtxfiles(&"test_files/evtx".to_string(), &entries);
    assert_eq!(3, files.len());

    files.iter().for_each(|full_path| {
        let is_contains = &vec!["test1.evtx", "test2.evtx", "testtest4.evtx"]
            .into_iter()
            .any(|filepath_str| {
                let tail = full_path.rsplit('/').next().unwrap_or("");
                tail == filepath_str
            });
        assert_eq!(is_contains, &true);
    })
}

#[test]
fn collect_returns_sorted_full_paths() {
    let entries = vec![
        FsTree::Dir { name: "sub".to_string(), entries: vec![file("a.evtx")] },
        file("b.evtx"),
    ];
    let files = collect_evtxfiles(&"root".to_string(), &entries);
    assert_eq!(files, vec!["root/b.evtx".to_string(), "root/sub/a.evtx".to_string()]);
}

#[test]
fn suffix_test_is_exact() {
    assert!(str_ends_with(&"a/b/c.evtx".to_string(), &".evtx".to_string()));
    assert!(!str_ends_with(&"c.evtx.bak".to_string(), &".evtx".to_string()));
    assert!(!str_ends_with(&"evtx".to_string(), &".evtx".to_string()));
}

#[test]
fn lexicographic_order_on_strings() {
    assert!(str_lt(&"2021-01-01T00:00:00Z".to_string(), &"2021-01-01T00:00:01Z".to_string()));
    assert!(!str_lt(&"b".to_string(), &"b".to_string()));
    assert!(str_lt(&"ab".to_string(), &"b".to_string()));
}

#[test]
fn case_insensitive_equality_is_ascii_folded() {
    assert!(str_ci_eq(&"Alice".to_string(), &"aLICE".to_string()));
    assert!(!str_ci_eq(&"Alice".to_string(), &"Alicia".to_string()));
}

#[test]
fn substring_search_finds_inner_text() {
    assert!(str_contains_sub(&"PowerShell.exe".to_string(), &"Shell".to_string()));
    assert!(!str_contains_sub(&"PowerShell.exe".to_string(), &"cmd".to_string()));
    assert!(str_contains_sub(&"abc".to_string(), &"".to_string()));
}

#[test]
fn wildcard_patterns_match_whole_text() {
    assert!(str_wild_match(&"*.exe".to_string(), &"evil.exe".to_string()));
    assert!(str_wild_match(&"a?c".to_string(), &"abc".to_string()));
    assert!(!str_wild_match(&"a?c".to_string(), &"abbc".to_string()));
    assert!(!str_wild_match(&"*.exe".to_string(), &"evil.dll".to_string()));
}

#[test]
fn decimal_rendering_and_parsing() {
    assert_eq!(u64_to_string(0), "0");
    assert_eq!(u64_to_string(4625), "4625");
    assert_eq!(i64_to_string(-17), "-17");
    assert_eq!(parse_int(&"4624".to_string()), Some(4624));
    assert_eq!(parse_int(&"-250".to_string()), Some(-250));
    assert_eq!(parse_int(&"12a".to_string()), None);
    assert_eq!(parse_int(&"".to_string()), None);
}

#[test]
fn scalar_and_container_rendering() {
    assert_eq!(scalar_string(&RecordValue::Num(4624)), "4624");
    assert_eq!(scalar_string(&RecordValue::Flag(true)), "true");
    assert_eq!(scalar_string(&RecordValue::Null), "null");
    assert_eq!(scalar_string(&RecordValue::Text("alice".to_string())), "alice");
    let tree = RecordValue::Tree(vec![
        ("a".to_string(), RecordValue::Num(1)),
        ("b".to_string(), RecordValue::List(vec![
            RecordValue::Text("x\"y".to_string()),
            RecordValue::Null,
        ])),
    ]);
    assert_eq!(render_value(&tree), "{\"a\":1,\"b\":[\"x\\\"y\",null]}");
}

#[test]
fn dotted_keys_split_into_segments() {
    let segs = split_key(&"Event.System.EventID".to_string());
    assert_eq!(segs, vec!["Event".to_string(), "System".to_string(), "EventID".to_string()]);
    let single = split_key(&"EventID".to_string());
    assert_eq!(single, vec!["EventID".to_string()]);
}
