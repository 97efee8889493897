use cargo_kimi::trend::{
    average_score, cutoff_instant, group_by_day, history_entry, recent_entries, Days,
    HistoryEntry,
};

fn entry(ts: &str, avg: u32) -> HistoryEntry {
    HistoryEntry { timestamp: ts.to_string(), average_score: avg, files: vec![] }
}

#[test]
fn average_of_scores() {
    assert_eq!(average_score(&vec![]), 0);
    assert_eq!(average_score(&vec![80, 90]), 85);
    assert_eq!(average_score(&vec![1, 2]), 1);
    assert_eq!(average_score(&vec![100, 100, 100]), 100);
}

#[test]
fn history_entry_averages_file_scores() {
    let e = history_entry(
        "2026-05-05T10:00:00Z".to_string(),
        vec![("src/a.rs".to_string(), 70), ("src/b.rs".to_string(), 91)],
    );
    assert_eq!(e.average_score, 80);
    assert_eq!(e.timestamp, "2026-05-05T10:00:00Z");
    assert_eq!(e.files.len(), 2);
    let empty = history_entry("t".to_string(), vec![]);
    assert_eq!(empty.average_score, 0);
}

#[test]
fn days_round_trip() {
    assert_eq!(Days::new(30).get(), 30);
}

#[test]
fn recent_entries_keep_those_after_cutoff() {
    // 2026-05-05T00:00:00Z
    let cutoff = (1777939200i64, 0u32);
    let entries = vec![
        entry("2026-05-04T10:00:00Z", 1),
        entry("2026-05-05T00:00:00Z", 2),
        entry("not a time", 3),
        entry("2026-05-06T09:30:00+02:00", 4),
        entry("2026-05-04T23:59:59.999999999Z", 5),
    ];
    let kept = recent_entries(entries, cutoff);
    let scores: Vec<u32> = kept.iter().map(|e| e.average_score).collect();
    assert_eq!(scores, vec![2, 4]);
}

#[test]
fn recent_entries_compare_nanoseconds() {
    let cutoff = (1777939200i64, 500u32);
    let kept = recent_entries(
        vec![entry("2026-05-05T00:00:00.000000400Z", 1), entry("2026-05-05T00:00:00.000000600Z", 2)],
        cutoff,
    );
    assert_eq!(kept.len(), 1);
    assert_eq!(kept[0].average_score, 2);
}

#[test]
fn group_by_day_keeps_last_entry_per_day_in_order() {
    let entries = vec![
        entry("2026-05-06T08:00:00Z", 60),
        entry("2026-05-04T08:00:00Z", 40),
        entry("2026-05-06T20:00:00Z", 65),
        entry("2026-05-05T08:00:00Z", 50),
        entry("2026-05-04T09:00:00Z", 45),
    ];
    let days = group_by_day(entries);
    let got: Vec<(String, u32)> = days.iter().map(|(d, e)| (d.clone(), e.average_score)).collect();
    assert_eq!(
        got,
        vec![
            ("2026-05-04".to_string(), 45),
            ("2026-05-05".to_string(), 50),
            ("2026-05-06".to_string(), 65),
        ]
    );
}

#[test]
fn group_by_day_without_time_part() {
    let days = group_by_day(vec![entry("b", 1), entry("a", 2), entry("", 3)]);
    let got: Vec<&str> = days.iter().map(|(d, _)| d.as_str()).collect();
    assert_eq!(got, vec!["", "a", "b"]);
    assert!(group_by_day(vec![]).is_empty());
}

#[test]
fn history_entry_keeps_each_file_once_with_its_last_score() {
    let e = history_entry(
        "2026-05-05T10:00:00Z".to_string(),
        vec![("a.rs".to_string(), 10), ("b.rs".to_string(), 20), ("a.rs".to_string(), 30)],
    );
    assert_eq!(e.average_score, 20);
    assert_eq!(e.files.len(), 2);
    assert!(e.files.contains(&("a.rs".to_string(), 30)));
    assert!(e.files.contains(&("b.rs".to_string(), 20)));
}

#[test]
fn cutoff_goes_back_whole_days() {
    assert_eq!(cutoff_instant((1777939200, 5), Days::new(30)), (1777939200 - 30 * 86400, 5));
    assert_eq!(cutoff_instant((100, 0), Days::new(0)), (100, 0));
    assert_eq!(cutoff_instant((0, 7), Days::new(1)), (-86400, 7));
}
