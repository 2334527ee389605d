use memory_usage::matching::{find_offset, match_order, select, undecodable_pids, ProcessRecord};
use memory_usage::table::render;
use memory_usage::units::Prefix;

fn record(pid: &str, name: Option<&str>, resident: u64, virt: u64) -> ProcessRecord {
    ProcessRecord {
        pid: pid.to_string(),
        name: name.map(|n| n.to_string()),
        resident_bytes: resident,
        virtual_bytes: virt,
    }
}

#[test]
fn offsets_of_first_occurrence() {
    assert_eq!(find_offset("rebash-helper", "bash"), Some(2));
    assert_eq!(find_offset("bash", "bash"), Some(0));
    assert_eq!(find_offset("abab", "ab"), Some(0));
    assert_eq!(find_offset("xabab", "ab"), Some(1));
    assert_eq!(find_offset("bash", ""), Some(0));
    assert_eq!(find_offset("", ""), Some(0));
    assert_eq!(find_offset("sh", "bash"), None);
    assert_eq!(find_offset("zsh", "bash"), None);
}

#[test]
fn offsets_count_characters() {
    assert_eq!(find_offset("\u{e9}t\u{e9}-bash", "bash"), Some(4));
    assert_eq!(find_offset("\u{e9}\u{e9}", "\u{e9}"), Some(0));
}

#[test]
fn bash_scenario() {
    let snapshot = vec![
        record("200", Some("rebash-helper"), 2_048_000, 4_096),
        record("100", Some("bash"), 5_242_880, 8_192),
        record("300", Some("zsh"), 1, 1),
    ];
    let rows = select(&snapshot, "bash", Prefix::Binary);
    assert_eq!(rows.len(), 2);
    assert_eq!(rows[0].pid, "100");
    assert_eq!(rows[0].name, "bash");
    assert_eq!(rows[0].match_offset, 0);
    assert_eq!(rows[0].memory, "5.00 MiB");
    assert_eq!(rows[0].virtual_memory, "8.00 KiB");
    assert_eq!(rows[1].pid, "200");
    assert_eq!(rows[1].name, "rebash-helper");
    assert_eq!(rows[1].match_offset, 2);
    assert_eq!(rows[1].memory, "1.95 MiB");
    assert_eq!(rows[1].virtual_memory, "4.00 KiB");
    let lines = render(&rows);
    assert_eq!(lines.len(), 6);
}

#[test]
fn equal_offsets_keep_snapshot_order() {
    let snapshot = vec![
        record("1", Some("xxbash"), 0, 0),
        record("2", Some("bash-a"), 0, 0),
        record("3", Some("ybash"), 0, 0),
        record("4", Some("bash-b"), 0, 0),
        record("5", Some("zbash"), 0, 0),
    ];
    let order = match_order(&snapshot, "bash");
    assert_eq!(order, vec![1, 3, 2, 4, 0]);
    let rows = select(&snapshot, "bash", Prefix::Decimal);
    let pids: Vec<&str> = rows.iter().map(|r| r.pid.as_str()).collect();
    assert_eq!(pids, vec!["2", "4", "3", "5", "1"]);
}

#[test]
fn filter_is_case_sensitive() {
    let snapshot = vec![record("1", Some("Bash"), 0, 0), record("2", Some("bash"), 0, 0)];
    let rows = select(&snapshot, "bash", Prefix::Decimal);
    assert_eq!(rows.len(), 1);
    assert_eq!(rows[0].pid, "2");
}

#[test]
fn empty_filter_selects_every_readable_name() {
    let snapshot = vec![
        record("7", Some("init"), 1000, 2000),
        record("8", None, 1, 1),
        record("9", Some("sh"), 0, 0),
    ];
    let rows = select(&snapshot, "", Prefix::Decimal);
    assert_eq!(rows.len(), 2);
    assert_eq!(rows[0].pid, "7");
    assert_eq!(rows[0].match_offset, 0);
    assert_eq!(rows[0].memory, "1.00 KB");
    assert_eq!(rows[0].virtual_memory, "2.00 KB");
    assert_eq!(rows[1].pid, "9");
    assert_eq!(rows[1].memory, "0.00 B");
}

#[test]
fn unreadable_names_are_reported_and_skipped() {
    let snapshot = vec![
        record("11", None, 0, 0),
        record("12", Some("bash"), 0, 0),
        record("13", None, 0, 0),
    ];
    assert_eq!(undecodable_pids(&snapshot), vec!["11".to_string(), "13".to_string()]);
    let rows = select(&snapshot, "", Prefix::Binary);
    assert_eq!(rows.len(), 1);
    assert_eq!(rows[0].pid, "12");
}

#[test]
fn empty_snapshot_gives_the_bare_frame() {
    let snapshot: Vec<ProcessRecord> = Vec::new();
    let rows = select(&snapshot, "anything", Prefix::Decimal);
    assert!(rows.is_empty());
    assert!(undecodable_pids(&snapshot).is_empty());
    let lines = render(&rows);
    assert_eq!(lines.len(), 4);
    let width = lines[0].chars().count();
    for l in &lines {
        assert_eq!(l.chars().count(), width);
    }
}
