use clipy_rs::capture::{
    capture_history_at, capture_rich_status, capture_text_status, check_capture, CaptureCheck,
    CaptureStatus,
};
use clipy_rs::history::{
    find_history_index, find_rich_index, now_millis, promote_history_entry, prune_history,
    prune_rich_history, record_history_use, record_rich_use, remove_history_id,
    resolve_history_id, rich_payload_eq, set_history_pin, toggle_history_pin_at, upsert_history,
    upsert_history_at, upsert_rich_history_at,
};
use clipy_rs::model::{
    HistoryEntry, RichClipboardFlavor, RichClipboardKind, RichHistoryEntry,
};
use clipy_rs::order::{filter_history, sorted_history, sorted_rich_history};

fn entry(id: u64, content: &str, updated_at: u64, pinned: bool) -> HistoryEntry {
    HistoryEntry {
        id,
        content: content.to_string(),
        created_at: 1,
        updated_at,
        use_count: 0,
        pinned,
    }
}

fn rich(id: u64, label: &str, ty: &str, data: Vec<u8>, pinned: bool) -> RichHistoryEntry {
    RichHistoryEntry {
        id,
        kind: RichClipboardKind::Image,
        label: label.to_string(),
        flavors: vec![RichClipboardFlavor {
            flavor_type: ty.to_string(),
            data,
        }],
        created_at: 1,
        updated_at: 1,
        use_count: 0,
        pinned,
    }
}

fn contents(entries: &[HistoryEntry]) -> Vec<String> {
    entries.iter().map(|e| e.content.clone()).collect()
}

#[test]
fn upsert_into_empty_history_starts_ids_at_one() {
    let mut entries = Vec::new();
    assert!(upsert_history_at(&mut entries, "first".to_string(), 42));
    assert_eq!(entries, vec![HistoryEntry {
        id: 1,
        content: "first".to_string(),
        created_at: 42,
        updated_at: 42,
        use_count: 0,
        pinned: false,
    }]);
}

#[test]
fn upsert_gives_new_text_the_next_identifier() {
    let mut entries = vec![entry(3, "a", 1, false), entry(10, "b", 1, false)];
    assert!(upsert_history_at(&mut entries, "c".to_string(), 7));
    assert_eq!(entries[0].id, 11);
    assert_eq!(contents(&entries), vec!["c", "a", "b"]);
}

#[test]
fn upsert_identifier_saturates() {
    let mut entries = vec![entry(u64::MAX, "a", 1, false)];
    assert!(upsert_history_at(&mut entries, "b".to_string(), 7));
    assert_eq!(entries[0].id, u64::MAX);
}

#[test]
fn upsert_of_known_text_moves_it_to_front_and_touches_it() {
    let mut entries = vec![
        entry(1, "a", 1, false),
        entry(2, "b", 2, true),
        entry(3, "c", 3, false),
    ];
    assert!(!upsert_history_at(&mut entries, "b".to_string(), 99));
    assert_eq!(contents(&entries), vec!["b", "a", "c"]);
    assert_eq!(entries[0].updated_at, 99);
    assert_eq!(entries[0].created_at, 1);
    assert!(entries[0].pinned);
    assert_eq!(entries[0].id, 2);
}

#[test]
fn upsert_uses_the_clock() {
    let mut entries = Vec::new();
    upsert_history(&mut entries, "now".to_string());
    assert!(entries[0].created_at > 1_600_000_000_000);
    assert!(now_millis() >= entries[0].created_at);
}

#[test]
fn prune_to_zero_keeps_only_pinned_entries() {
    let mut entries = vec![
        entry(1, "a", 1, true),
        entry(2, "b", 1, false),
        entry(3, "c", 1, true),
    ];
    prune_history(&mut entries, 0);
    assert_eq!(contents(&entries), vec!["a", "c"]);
}

#[test]
fn prune_drops_the_oldest_unpinned_entries_first() {
    let mut entries = vec![
        entry(1, "a", 1, false),
        entry(2, "b", 1, true),
        entry(3, "c", 1, false),
        entry(4, "d", 1, false),
    ];
    prune_history(&mut entries, 2);
    assert_eq!(contents(&entries), vec!["a", "b"]);
}

#[test]
fn prune_of_all_pinned_entries_cuts_from_the_end() {
    let mut entries = vec![
        entry(1, "a", 1, true),
        entry(2, "b", 1, true),
        entry(3, "c", 1, true),
    ];
    prune_history(&mut entries, 2);
    assert_eq!(contents(&entries), vec!["a", "b"]);
}

#[test]
fn prune_leaves_a_short_history_alone() {
    let mut entries = vec![entry(1, "a", 1, false), entry(2, "b", 1, false)];
    prune_history(&mut entries, 5);
    assert_eq!(contents(&entries), vec!["a", "b"]);
}

#[test]
fn prune_rich_history_keeps_pinned_items() {
    let mut entries = vec![
        rich(1, "a", "public.png", vec![1], false),
        rich(2, "b", "public.png", vec![2], true),
        rich(3, "c", "public.png", vec![3], false),
    ];
    prune_rich_history(&mut entries, 1);
    assert_eq!(entries.len(), 1);
    assert_eq!(entries[0].label, "b");
}

#[test]
fn rich_upsert_of_same_payload_updates_label_and_moves_to_front() {
    let mut entries = vec![
        rich(1, "one", "public.png", vec![1], false),
        rich(2, "two", "public.png", vec![2], false),
    ];
    let again = rich(0, "renamed", "public.png", vec![2], false);
    assert!(!upsert_rich_history_at(&mut entries, again, 50));
    assert_eq!(entries[0].id, 2);
    assert_eq!(entries[0].label, "renamed");
    assert_eq!(entries[0].updated_at, 50);
    assert_eq!(entries[1].id, 1);
}

#[test]
fn rich_upsert_of_new_payload_gets_fresh_id_and_times() {
    let mut entries = vec![rich(4, "one", "public.png", vec![1], false)];
    let fresh = rich(0, "other", "public.tiff", vec![1], true);
    assert!(upsert_rich_history_at(&mut entries, fresh, 60));
    assert_eq!(entries[0].id, 5);
    assert_eq!(entries[0].created_at, 60);
    assert_eq!(entries[0].updated_at, 60);
    assert!(entries[0].pinned);
}

#[test]
fn rich_payload_compares_kind_and_flavors() {
    let a = rich(1, "x", "public.png", vec![1, 2], false);
    let b = rich(9, "y", "public.png", vec![1, 2], true);
    let c = rich(1, "x", "public.png", vec![1, 3], false);
    let mut d = a.clone();
    d.kind = RichClipboardKind::File;
    assert!(rich_payload_eq(&a, &b));
    assert!(!rich_payload_eq(&a, &c));
    assert!(!rich_payload_eq(&a, &d));
}

#[test]
fn finding_and_counting_uses() {
    let mut entries = vec![entry(5, "a", 1, false), entry(9, "b", 1, false)];
    assert_eq!(find_history_index(&entries, 9), Some(1));
    assert_eq!(find_history_index(&entries, 7), None);
    record_history_use(&mut entries, 1, 77);
    assert_eq!(entries[1].use_count, 1);
    assert_eq!(entries[1].updated_at, 77);
    entries[0].use_count = u64::MAX;
    record_history_use(&mut entries, 0, 78);
    assert_eq!(entries[0].use_count, u64::MAX);
}

#[test]
fn promoting_an_entry_moves_it_to_front() {
    let mut entries = vec![entry(1, "a", 1, false), entry(2, "b", 1, false)];
    promote_history_entry(&mut entries, 1, 33);
    assert_eq!(contents(&entries), vec!["b", "a"]);
    assert_eq!(entries[0].use_count, 1);
    assert_eq!(entries[0].updated_at, 33);
}

#[test]
fn pinning_and_toggling_by_identifier() {
    let mut entries = vec![entry(1, "a", 1, false), entry(2, "b", 1, false)];
    assert!(set_history_pin(&mut entries, 2, true));
    assert!(entries[1].pinned);
    assert!(!set_history_pin(&mut entries, 3, true));
    assert!(toggle_history_pin_at(&mut entries, 2, 40));
    assert!(!entries[1].pinned);
    assert_eq!(entries[1].updated_at, 40);
    assert!(!toggle_history_pin_at(&mut entries, 8, 40));
}

#[test]
fn removing_by_identifier_counts_removed_entries() {
    let mut entries = vec![
        entry(1, "a", 1, false),
        entry(2, "b", 1, false),
        entry(1, "c", 1, false),
    ];
    assert_eq!(remove_history_id(&mut entries, 1), 2);
    assert_eq!(contents(&entries), vec!["b"]);
    assert_eq!(remove_history_id(&mut entries, 9), 0);
}

#[test]
fn rich_lookup_and_use() {
    let mut entries = vec![rich(3, "a", "public.png", vec![1], false)];
    assert_eq!(find_rich_index(&entries, 3), Some(0));
    assert_eq!(find_rich_index(&entries, 4), None);
    record_rich_use(&mut entries, 0, 12);
    assert_eq!(entries[0].use_count, 1);
    assert_eq!(entries[0].updated_at, 12);
}

#[test]
fn resolving_history_keys() {
    let entries = vec![entry(5, "a", 1, false), entry(9, "b", 1, false)];
    assert_eq!(resolve_history_id(&entries, "2", false), Ok(9));
    assert_eq!(resolve_history_id(&entries, "0", false), Ok(5));
    assert_eq!(
        resolve_history_id(&entries, "3", false),
        Err("history index `3` was not found".to_string())
    );
    assert_eq!(
        resolve_history_id(&entries, "x", false),
        Err("invalid list index `x`".to_string())
    );
    assert_eq!(resolve_history_id(&entries, "9", true), Ok(9));
    assert_eq!(
        resolve_history_id(&entries, "4", true),
        Err("history item `4` was not found".to_string())
    );
    assert_eq!(
        resolve_history_id(&entries, "-1", true),
        Err("invalid entry id `-1`".to_string())
    );
}

#[test]
fn sorted_history_puts_pinned_then_newest_then_highest_id() {
    let entries = vec![
        entry(1, "one", 5, false),
        entry(2, "two", 1, true),
        entry(3, "three", 5, false),
        entry(4, "four", 9, false),
    ];
    let sorted = sorted_history(entries);
    assert_eq!(contents(&sorted), vec!["two", "four", "three", "one"]);
}

#[test]
fn sorted_history_keeps_ties_in_order() {
    let entries = vec![entry(1, "x", 1, false), entry(1, "y", 1, false)];
    assert_eq!(contents(&sorted_history(entries)), vec!["x", "y"]);
}

#[test]
fn sorted_rich_history_puts_pinned_first() {
    let entries = vec![
        rich(1, "a", "public.png", vec![1], false),
        rich(2, "b", "public.png", vec![2], true),
    ];
    let sorted = sorted_rich_history(entries);
    assert_eq!(sorted[0].label, "b");
    assert_eq!(sorted[1].label, "a");
}

#[test]
fn filter_history_matches_case_insensitively() {
    let entries = vec![
        entry(1, "Hello there", 1, false),
        entry(2, "goodbye", 2, false),
        entry(3, "say HELLO", 3, false),
    ];
    let found = filter_history(entries.clone(), Some("hello"));
    assert_eq!(contents(&found), vec!["say HELLO", "Hello there"]);
    let all = filter_history(entries, None);
    assert_eq!(all.len(), 3);
}

#[test]
fn check_capture_outcomes() {
    assert_eq!(check_capture("\0\0".to_string(), false, 10), CaptureCheck::Empty);
    assert_eq!(
        check_capture("hello world".to_string(), false, 5),
        CaptureCheck::TooLarge(11)
    );
    assert_eq!(
        check_capture("password=x".to_string(), false, 100),
        CaptureCheck::Sensitive
    );
    assert_eq!(
        check_capture("password=x".to_string(), true, 100),
        CaptureCheck::Accepted("password=x".to_string())
    );
    assert_eq!(
        check_capture("\0note\0".to_string(), false, 100),
        CaptureCheck::Accepted("note".to_string())
    );
}

#[test]
fn capture_records_then_prunes() {
    let mut entries = vec![entry(1, "a", 1, false), entry(2, "b", 1, false)];
    assert!(capture_history_at(&mut entries, "c".to_string(), 2, 9));
    assert_eq!(contents(&entries), vec!["c", "a"]);
}

#[test]
fn menu_capture_reports_status() {
    let mut entries = Vec::new();
    assert_eq!(
        capture_text_status(&mut entries, "hi".to_string(), 1),
        CaptureStatus::Changed
    );
    assert_eq!(
        capture_text_status(&mut entries, "hi".to_string(), 2),
        CaptureStatus::Unchanged
    );
    assert_eq!(
        capture_text_status(&mut entries, "\0".to_string(), 3),
        CaptureStatus::Ignored
    );
    assert_eq!(
        capture_text_status(&mut entries, "my password is x".to_string(), 3),
        CaptureStatus::Ignored
    );
    assert_eq!(entries.len(), 1);
    let mut rich_entries = Vec::new();
    assert_eq!(
        capture_rich_status(&mut rich_entries, rich(0, "a", "public.png", vec![1], false), 4),
        CaptureStatus::Changed
    );
    assert_eq!(
        capture_rich_status(&mut rich_entries, rich(0, "a", "public.png", vec![1], false), 5),
        CaptureStatus::Unchanged
    );
}

#[test]
fn unpin_undoes_pin_and_pinning_twice_is_pinning_once() {
    let original = vec![entry(1, "a", 5, false), entry(2, "b", 4, false), entry(3, "c", 3, true)];

    let mut entries = original.clone();
    assert!(set_history_pin(&mut entries, 2, true));
    assert!(entries[1].pinned);
    assert!(set_history_pin(&mut entries, 2, false));
    assert_eq!(entries, original);

    let mut once = original.clone();
    set_history_pin(&mut once, 1, true);
    let mut twice = once.clone();
    set_history_pin(&mut twice, 1, true);
    assert_eq!(once, twice);

    let mut missing = original.clone();
    assert!(!set_history_pin(&mut missing, 9, true));
    assert_eq!(missing, original);
}

#[test]
fn pruning_keeps_the_newest_unpinned_items() {
    let mut entries = vec![
        entry(1, "a", 9, false),
        entry(2, "b", 8, true),
        entry(3, "c", 7, false),
        entry(4, "d", 6, false),
        entry(5, "e", 5, true),
    ];
    prune_history(&mut entries, 3);
    let ids: Vec<u64> = entries.iter().map(|e| e.id).collect();
    assert_eq!(ids, vec![1, 2, 5]);
}
