use zrun::history::{decimal_chars, record, relative_time, relative_time_at, sort_newest_first, HistoryEntry};

fn entry(name: &str, ts: u64, count: u32) -> HistoryEntry {
    HistoryEntry { name: name.to_string(), path: format!("/p/{name}.sh"), timestamp: ts, run_count: count }
}

#[test]
fn record_inserts_new_entry_first() {
    let mut h = vec![entry("a", 10, 3)];
    record(&mut h, "b", "/q/b.sh", 20, 100);
    assert_eq!(h, vec![
        HistoryEntry { name: "b".into(), path: "/q/b.sh".into(), timestamp: 20, run_count: 1 },
        entry("a", 10, 3),
    ]);
}

#[test]
fn record_bumps_existing_entry() {
    let mut h = vec![entry("b", 30, 1), entry("a", 10, 3)];
    record(&mut h, "a", "/new/a.sh", 40, 100);
    assert_eq!(h, vec![
        HistoryEntry { name: "a".into(), path: "/new/a.sh".into(), timestamp: 40, run_count: 4 },
        entry("b", 30, 1),
    ]);
}

#[test]
fn record_bumps_only_first_duplicate() {
    let mut h = vec![entry("a", 10, 1), entry("a", 5, 7)];
    record(&mut h, "a", "/p/a.sh", 50, 100);
    assert_eq!(h[0].run_count, 2);
    assert_eq!(h[1], entry("a", 5, 7));
}

#[test]
fn record_sort_is_stable_for_equal_times() {
    let mut h = vec![entry("x", 5, 1), entry("y", 9, 1), entry("z", 5, 1)];
    record(&mut h, "w", "/p/w.sh", 5, 100);
    let names: Vec<&str> = h.iter().map(|e| e.name.as_str()).collect();
    assert_eq!(names, vec!["y", "x", "z", "w"]);
}

#[test]
fn record_trims_to_limit() {
    let mut h = vec![entry("a", 3, 1), entry("b", 2, 1), entry("c", 1, 1)];
    record(&mut h, "d", "/p/d.sh", 4, 2);
    let names: Vec<&str> = h.iter().map(|e| e.name.as_str()).collect();
    assert_eq!(names, vec!["d", "a"]);
    record(&mut h, "e", "/p/e.sh", 5, 0);
    assert!(h.is_empty());
}

#[test]
fn relative_time_boundaries() {
    let cases: [(u64, &str); 11] = [
        (0, "just now"),
        (59, "just now"),
        (60, "1m ago"),
        (3599, "59m ago"),
        (3600, "1h ago"),
        (86399, "23h ago"),
        (86400, "1d ago"),
        (604799, "6d ago"),
        (604800, "1w ago"),
        (2592000, "1mo ago"),
        (31536000, "12mo ago"),
    ];
    for (diff, want) in cases {
        assert_eq!(relative_time_at(1_000_000_000, 1_000_000_000 + diff), want, "diff {diff}");
    }
}

#[test]
fn relative_time_future_is_just_now() {
    assert_eq!(relative_time_at(100, 50), "just now");
}

#[test]
fn relative_time_reads_the_clock() {
    // the epoch lies far in the past of any clock this runs on
    assert!(relative_time(0).ends_with("mo ago"));
    assert_eq!(relative_time(u64::MAX), "just now");
}

#[test]
fn decimal_digits() {
    assert_eq!(decimal_chars(0), vec!['0']);
    assert_eq!(decimal_chars(907), vec!['9', '0', '7']);
    assert_eq!(decimal_chars(u64::MAX).iter().collect::<String>(), u64::MAX.to_string());
}

#[test]
fn sort_newest_first_is_stable() {
    let h = vec![entry("x", 5, 1), entry("y", 9, 2), entry("z", 5, 3)];
    assert_eq!(sort_newest_first(&h), vec![entry("y", 9, 2), entry("x", 5, 1), entry("z", 5, 3)]);
    assert_eq!(sort_newest_first(&Vec::new()), Vec::<HistoryEntry>::new());
}

#[test]
fn recorded_run_first_on_load() {
    let mut h = vec![entry("b", 30, 1), entry("a", 10, 3)];
    record(&mut h, "a", "/new/a.sh", 40, 100);
    let loaded = sort_newest_first(&h);
    assert_eq!(loaded[0], HistoryEntry { name: "a".into(), path: "/new/a.sh".into(), timestamp: 40, run_count: 4 });
    let mut h = vec![entry("b", 30, 1)];
    record(&mut h, "c", "/c.sh", 31, 1);
    assert_eq!(sort_newest_first(&h), vec![HistoryEntry { name: "c".into(), path: "/c.sh".into(), timestamp: 31, run_count: 1 }]);
}
