use clipy_rs::history::{prune_history, upsert_history};
use clipy_rs::model::{
    HistoryEntry, RichClipboardFlavor, RichClipboardKind, RichHistoryEntry, SnippetEntry,
};
use clipy_rs::settings::{decode_settings, encode_settings, AppSettings, Language};
use clipy_rs::snippets::upsert_snippet;
use clipy_rs::storage::{
    decode_history, decode_rich_history, decode_snippets, encode_history, encode_rich_history,
    encode_snippets,
};

fn entry(id: u64, content: &str, pinned: bool) -> HistoryEntry {
    HistoryEntry {
        id,
        content: content.to_string(),
        created_at: id,
        updated_at: id,
        use_count: 0,
        pinned,
    }
}

#[test]
fn history_roundtrip() {
    let entries = vec![HistoryEntry {
        id: 7,
        content: "hello\nworld".to_string(),
        created_at: 1,
        updated_at: 2,
        use_count: 3,
        pinned: true,
    }];

    let bytes = encode_history(&entries);
    assert_eq!(decode_history(&bytes).unwrap(), entries);
}

#[test]
fn snippet_roundtrip() {
    let snippets = vec![SnippetEntry {
        name: "sig".to_string(),
        content: "thanks".to_string(),
        created_at: 1,
        updated_at: 2,
        use_count: 3,
    }];

    let bytes = encode_snippets(&snippets);
    assert_eq!(decode_snippets(&bytes).unwrap(), snippets);
}

#[test]
fn rich_history_roundtrip() {
    let entries = vec![RichHistoryEntry {
        id: 9,
        kind: RichClipboardKind::Image,
        label: "PNG image".to_string(),
        flavors: vec![RichClipboardFlavor {
            flavor_type: "public.png".to_string(),
            data: vec![1, 2, 3],
        }],
        created_at: 1,
        updated_at: 2,
        use_count: 3,
        pinned: false,
    }];

    let bytes = encode_rich_history(&entries);
    assert_eq!(decode_rich_history(&bytes).unwrap(), entries);
}

#[test]
fn settings_roundtrip() {
    let settings = AppSettings {
        language: Language::Chinese,
        capture_rich_clipboard: false,
        max_history_items: 60,
        visible_history_items: 15,
        menu_width: 280,
    };

    assert_eq!(decode_settings(&encode_settings(&settings)), settings);
}

#[test]
fn settings_are_normalized() {
    let settings = decode_settings(
        "language=en\ncapture_rich_clipboard=true\nmax_history_items=0\nvisible_history_items=999\nmenu_width=9999\n",
    );

    assert_eq!(settings.max_history_items, 1);
    assert_eq!(settings.visible_history_items, 1);
    assert_eq!(settings.menu_width, 600);
}

#[test]
fn upsert_moves_duplicates_to_front() {
    let mut entries = Vec::new();
    assert!(upsert_history(&mut entries, "a".to_string()));
    assert!(upsert_history(&mut entries, "b".to_string()));
    assert!(!upsert_history(&mut entries, "a".to_string()));

    assert_eq!(entries.len(), 2);
    assert_eq!(entries[0].content, "a");
}

#[test]
fn upsert_snippet_updates_existing_name() {
    let mut snippets = Vec::new();
    assert!(upsert_snippet(
        &mut snippets,
        "work/signature".to_string(),
        "old".to_string()
    ));
    assert!(!upsert_snippet(
        &mut snippets,
        "work/signature".to_string(),
        "new".to_string()
    ));

    assert_eq!(snippets.len(), 1);
    assert_eq!(snippets[0].content, "new");
}

#[test]
fn pruning_keeps_pinned_items() {
    let mut entries = vec![
        entry(1, "a", false),
        entry(2, "b", true),
        entry(3, "c", false),
    ];
    prune_history(&mut entries, 1);
    assert_eq!(entries.len(), 1);
    assert_eq!(entries[0].content, "b");
}
