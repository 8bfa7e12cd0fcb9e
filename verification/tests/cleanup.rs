use lanpaste::cleanup::{cleanup_continues, cleanup_order, cleanup_victim, CleanupCandidate};
use lanpaste::types::AppSettings;

#[test]
fn cleanup_oldest_first_and_skip_inflight() {
    let items = vec![
        ("a".into(), 100u64, 1_000i64),
        ("b".into(), 100, 2_000),
        ("c".into(), 100, 3_000),
    ];
    let inflight = vec!["a".to_string()];
    // Keep 2: skip inflight "a", drop next-oldest "b", leave "c".
    let deleted = cleanup_order(&items, 2, 10_000, None, 10_000, &inflight);
    assert_eq!(deleted, vec!["b".to_string()]);
}

#[test]
fn cleanup_whichever_limit_first() {
    let items: Vec<(String, u64, i64)> = (0..10)
        .map(|i| (format!("n{i}"), 100u64, i as i64))
        .collect();
    let deleted = cleanup_order(&items, 3, 10_000, None, 100, &[]);
    assert_eq!(deleted.len(), 7);
    assert_eq!(deleted[0], "n0");
    assert_eq!(deleted[6], "n6");

    let big = vec![
        ("x".into(), 900u64, 1),
        ("y".into(), 200, 2),
        ("z".into(), 50, 3),
    ];
    let deleted = cleanup_order(&big, 50, 200, None, 100, &[]);
    assert_eq!(deleted, vec!["x".to_string(), "y".to_string()]);
}

#[test]
fn cleanup_max_age() {
    let items = vec![
        ("old".into(), 10u64, 0i64),
        ("new".into(), 10, 90_000_000),
    ];
    let deleted = cleanup_order(&items, 500, 1_000_000, Some(1), 90_000_000, &[]);
    assert_eq!(deleted, vec!["old".to_string()]);
}

#[test]
fn cleanup_nothing_when_within_limits() {
    let items = vec![("a".into(), 1u64, 1i64), ("b".into(), 1, 2)];
    assert!(cleanup_order(&items, 2, 2, Some(1), 100, &[]).is_empty());
    assert!(cleanup_order(&[], 0, 0, None, 0, &[]).is_empty());
}

#[test]
fn cleanup_all_inflight_stops() {
    let items = vec![("a".into(), 100u64, 1i64), ("b".into(), 100, 2)];
    let inflight = vec!["a".to_string(), "b".to_string()];
    assert!(cleanup_order(&items, 0, 0, None, 100, &inflight).is_empty());
}

#[test]
fn cleanup_victim_skips_served_blobs() {
    let mut settings = AppSettings::default();
    settings.cleanup_max_items = 1;
    let oldest = vec![
        CleanupCandidate {
            id: "a".into(),
            copied_at: 1,
            blob_hashes: vec!["h1".into()],
        },
        CleanupCandidate {
            id: "b".into(),
            copied_at: 2,
            blob_hashes: vec![],
        },
    ];
    assert_eq!(
        cleanup_victim(&oldest, 2, 0, &settings, 10, &["h1".to_string()]),
        Some(1)
    );
    assert_eq!(cleanup_victim(&oldest, 2, 0, &settings, 10, &[]), Some(0));
    assert_eq!(cleanup_victim(&oldest, 1, 0, &settings, 10, &[]), None);
    assert!(cleanup_continues(10_000));
    assert!(!cleanup_continues(10_001));
}

#[test]
fn cleanup_deletes_only_what_is_needed() {
    // Over the item limit by one, and "a" too old: "a" goes for its age,
    // "b" for the count; after that nothing more is needed.
    let items = vec![
        ("a".into(), 10u64, 0i64),
        ("b".into(), 10, 200_000_000),
        ("c".into(), 10, 200_000_001),
        ("d".into(), 10, 200_000_002),
    ];
    let deleted = cleanup_order(&items, 2, 10_000, Some(1), 200_000_003, &[]);
    assert_eq!(deleted, vec!["a".to_string(), "b".to_string()]);
    let within = cleanup_order(&items[1..], 3, 10_000, Some(1), 200_000_003, &[]);
    assert!(within.is_empty());
}
