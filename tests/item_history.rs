use torimies::itemhistory::{ItemHistory, RETENTION_WINDOW};

#[test]
fn added_item_is_contained() {
    let mut h = ItemHistory::new();
    assert!(!h.contains(5, 1));
    h.add_item(5, 1, 100);
    assert!(h.contains(5, 1));
    assert!(!h.contains(5, 2));
    assert_eq!(h.first_seen(5, 1), Some(100));
}

#[test]
fn adding_twice_keeps_first_sighting() {
    let mut h = ItemHistory::new();
    h.add_item(5, 1, 100);
    h.add_item(5, 1, 300);
    assert_eq!(h.first_seen(5, 1), Some(100));
}

#[test]
fn history_eviction_at_window_edges() {
    let t = 1_000_000;
    let mut h = ItemHistory::new();
    h.add_item(7, 1, t);
    h.purge_old_at(t + RETENTION_WINDOW - 1);
    assert!(h.contains(7, 1));
    h.purge_old_at(t + RETENTION_WINDOW + 1);
    assert!(!h.contains(7, 1));
}

#[test]
fn purge_keeps_only_fresh_entries() {
    let mut h = ItemHistory::new();
    h.add_item(1, 1, 0);
    h.add_item(2, 1, 600);
    h.add_item(3, 2, 1500);
    h.purge_old_at(1500);
    assert!(!h.contains(1, 1));
    assert!(h.contains(2, 1));
    assert!(h.contains(3, 2));
}

#[test]
fn merge_is_union_with_earliest_sighting() {
    let mut live = ItemHistory::new();
    live.add_item(1, 1, 100);
    live.add_item(2, 1, 200);
    let mut snap = ItemHistory::new();
    snap.add_item(2, 1, 150);
    snap.add_item(3, 2, 250);
    live.merge_at(&snap, 300);
    assert_eq!(live.first_seen(1, 1), Some(100));
    assert_eq!(live.first_seen(2, 1), Some(150));
    assert_eq!(live.first_seen(3, 2), Some(250));
}

#[test]
fn interleaved_merges_keep_both_snapshots() {
    let mut live = ItemHistory::new();
    live.add_item(1, 1, 100);
    let mut first = live.snapshot();
    let mut second = live.snapshot();
    first.add_item(10, 1, 110);
    first.add_item(20, 1, 120);
    second.add_item(20, 1, 115);
    second.add_item(30, 2, 130);
    live.merge_at(&second, 200);
    live.merge_at(&first, 200);
    for (id, site, ts) in [(1, 1, 100), (10, 1, 110), (20, 1, 115), (30, 2, 130)] {
        assert_eq!(live.first_seen(id, site), Some(ts));
    }
}

#[test]
fn merge_purges_expired_entries() {
    let mut live = ItemHistory::new();
    live.add_item(1, 1, 0);
    let other = ItemHistory::new();
    live.merge_at(&other, RETENTION_WINDOW + 5);
    assert!(!live.contains(1, 1));
}

#[test]
fn extend_keeps_entries_seen_now() {
    let now = std::time::SystemTime::now()
        .duration_since(std::time::UNIX_EPOCH)
        .unwrap()
        .as_secs() as i64;
    let mut live = ItemHistory::new();
    let mut snap = ItemHistory::new();
    snap.add_item(4, 1, now);
    snap.add_item(5, 1, now - 10 * RETENTION_WINDOW);
    live.extend(&snap);
    assert!(live.contains(4, 1));
    assert!(!live.contains(5, 1));
    live.purge_old();
    assert!(live.contains(4, 1));
}

#[test]
fn default_history_is_empty() {
    let h = ItemHistory::default();
    assert!(!h.contains(1, 1));
    assert_eq!(h.first_seen(1, 1), None);
}
