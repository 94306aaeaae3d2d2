use clipy_rs::codec::{DataFile, DecodeError};
use clipy_rs::model::{
    HistoryEntry, RichClipboardFlavor, RichClipboardKind, RichHistoryEntry, SnippetEntry,
};
use clipy_rs::settings::{
    decode_settings, encode_settings, normalize_settings, AppSettings, Language,
};
use clipy_rs::storage::{
    decode_history, decode_rich_history, decode_snippets, encode_history, encode_rich_history,
    encode_snippets,
};
use clipy_rs::store::{data_root, Store};

const HISTORY_MAGIC: &[u8] = b"CLIPY_RS_HISTORY_V1\n";
const RICH_MAGIC: &[u8] = b"CLIPY_RS_RICH_HISTORY_V1\n";

fn u64_bytes(v: u64) -> Vec<u8> {
    v.to_le_bytes().to_vec()
}

fn history_prefix() -> Vec<u8> {
    let mut b = HISTORY_MAGIC.to_vec();
    b.extend(u64_bytes(1));
    for v in [1u64, 2, 3, 4] {
        b.extend(u64_bytes(v));
    }
    b
}

#[test]
fn several_entries_survive_a_roundtrip() {
    let entries = vec![
        HistoryEntry {
            id: 1,
            content: "café ☕".to_string(),
            created_at: 10,
            updated_at: 20,
            use_count: 0,
            pinned: false,
        },
        HistoryEntry {
            id: u64::MAX,
            content: String::new(),
            created_at: 0,
            updated_at: u64::MAX,
            use_count: 7,
            pinned: true,
        },
    ];
    assert_eq!(decode_history(&encode_history(&entries)).unwrap(), entries);
    let snippets = vec![
        SnippetEntry {
            name: "work/sig".to_string(),
            content: "Regards\n".to_string(),
            created_at: 1,
            updated_at: 2,
            use_count: 3,
        },
        SnippetEntry {
            name: "e".to_string(),
            content: "x".to_string(),
            created_at: 4,
            updated_at: 5,
            use_count: 6,
        },
    ];
    assert_eq!(decode_snippets(&encode_snippets(&snippets)).unwrap(), snippets);
    let rich = vec![RichHistoryEntry {
        id: 2,
        kind: RichClipboardKind::File,
        label: "File clipboard".to_string(),
        flavors: vec![
            RichClipboardFlavor {
                flavor_type: "public.file-url".to_string(),
                data: b"file:///tmp/a".to_vec(),
            },
            RichClipboardFlavor {
                flavor_type: "public.utf8-plain-text".to_string(),
                data: vec![],
            },
        ],
        created_at: 1,
        updated_at: 2,
        use_count: 0,
        pinned: true,
    }];
    assert_eq!(decode_rich_history(&encode_rich_history(&rich)).unwrap(), rich);
}

#[test]
fn empty_lists_roundtrip() {
    let bytes = encode_history(&[]);
    let mut expected = HISTORY_MAGIC.to_vec();
    expected.extend(u64_bytes(0));
    assert_eq!(bytes, expected);
    assert_eq!(decode_history(&bytes).unwrap(), Vec::<HistoryEntry>::new());
}

#[test]
fn decode_errors_name_the_problem() {
    let e = decode_history(b"junk").unwrap_err();
    assert_eq!(e, DecodeError::BadHeader(DataFile::History));
    assert_eq!(e.message(), "bad history header");
    assert_eq!(
        decode_snippets(b"junk").unwrap_err().message(),
        "bad snippets header"
    );
    assert_eq!(
        decode_rich_history(b"junk").unwrap_err(),
        DecodeError::BadHeader(DataFile::RichHistory)
    );
    assert_eq!(
        decode_rich_history(b"").unwrap_err().message(),
        "bad rich history header"
    );

    let e = decode_history(HISTORY_MAGIC).unwrap_err();
    assert_eq!(e, DecodeError::MissingU64);
    assert_eq!(e.message(), "expected u64: failed to fill whole buffer");

    let e = decode_history(&history_prefix()).unwrap_err();
    assert_eq!(e, DecodeError::MissingByte);
    assert_eq!(e.message(), "expected byte: failed to fill whole buffer");

    let mut b = history_prefix();
    b.push(1);
    b.extend(u64_bytes(5));
    b.extend(b"ab");
    let e = decode_history(&b).unwrap_err();
    assert_eq!(e, DecodeError::MissingBytes(5));
    assert_eq!(e.message(), "expected 5 bytes: failed to fill whole buffer");

    let mut b = history_prefix();
    b.push(0);
    b.extend(u64_bytes(1));
    b.push(0xff);
    let e = decode_history(&b).unwrap_err();
    assert_eq!(e, DecodeError::InvalidUtf8);
    assert_eq!(e.message(), "invalid utf8");

    let mut b = RICH_MAGIC.to_vec();
    b.extend(u64_bytes(1));
    b.extend(u64_bytes(9));
    b.push(3);
    let e = decode_rich_history(&b).unwrap_err();
    assert_eq!(e, DecodeError::UnknownRichKind(3));
    assert_eq!(e.message(), "unknown rich clipboard kind 3");
}

#[test]
fn any_nonzero_pinned_byte_reads_as_pinned_and_trailing_bytes_are_ignored() {
    let mut b = history_prefix();
    b.push(7);
    b.extend(u64_bytes(2));
    b.extend(b"hi");
    b.extend(b"trailing");
    let entries = decode_history(&b).unwrap();
    assert_eq!(entries.len(), 1);
    assert!(entries[0].pinned);
    assert_eq!(entries[0].content, "hi");
    assert_eq!(entries[0].id, 1);
    assert_eq!(entries[0].use_count, 4);
}

#[test]
fn default_settings_are_written_line_by_line() {
    assert_eq!(
        encode_settings(&AppSettings::default()),
        "language=en\ncapture_rich_clipboard=true\nmax_history_items=40\nvisible_history_items=10\nmenu_width=260\n"
    );
}

#[test]
fn settings_read_back_normalized() {
    let wild = AppSettings {
        language: Language::English,
        capture_rich_clipboard: true,
        max_history_items: 1000,
        visible_history_items: 0,
        menu_width: 10,
    };
    let back = decode_settings(&encode_settings(&wild));
    assert_eq!(back, normalize_settings(wild));
    assert_eq!(back.max_history_items, 500);
    assert_eq!(back.visible_history_items, 1);
    assert_eq!(back.menu_width, 180);
    assert_eq!(normalize_settings(back), back);
}

#[test]
fn settings_lines_tolerate_spaces_and_carriage_returns() {
    let s = decode_settings("language = zh\r\nmax_history_items= 7 \r\n");
    assert_eq!(s.language, Language::Chinese);
    assert_eq!(s.max_history_items, 7);
    assert_eq!(s.visible_history_items, 7);
    assert_eq!(s.menu_width, 260);
    assert!(s.capture_rich_clipboard);
}

#[test]
fn settings_ignore_unknown_and_unusable_lines() {
    let s = decode_settings(
        "language=chinese\nmenu_width=abc\nunknown=1\nnoequals\ncapture_rich_clipboard=0\n",
    );
    assert_eq!(s.language, Language::Chinese);
    assert_eq!(s.menu_width, 260);
    assert!(!s.capture_rich_clipboard);
    assert!(decode_settings("capture_rich_clipboard=yes").capture_rich_clipboard);
    assert_eq!(decode_settings("language=fr").language, Language::English);
    assert_eq!(decode_settings(""), AppSettings::default());
}

#[test]
fn store_paths_join_the_data_directory() {
    let store = Store::new("/tmp/x".to_string());
    assert_eq!(store.root(), "/tmp/x");
    assert_eq!(store.history_path(), "/tmp/x/history.bin");
    assert_eq!(store.snippets_path(), "/tmp/x/snippets.bin");
    assert_eq!(store.rich_history_path(), "/tmp/x/rich_history.bin");
    assert_eq!(store.settings_path(), "/tmp/x/settings.conf");
    assert_eq!(Store::new("/tmp/y/".to_string()).history_path(), "/tmp/y/history.bin");
    assert_eq!(Store::new(String::new()).history_path(), "history.bin");
}

#[test]
fn store_persists_history() {
    let store = Store::new("/data".to_string());
    let entries = vec![HistoryEntry {
        id: 1,
        content: "persisted".to_string(),
        created_at: 1,
        updated_at: 1,
        use_count: 0,
        pinned: false,
    }];
    let write = store.save_history(&entries);
    assert_eq!(write.path, "/data/history.bin");
    assert_eq!(store.load_history(Some(&write.bytes)).unwrap(), entries);
    assert_eq!(store.load_history(None).unwrap(), Vec::<HistoryEntry>::new());
    assert_eq!(
        store.load_history(Some(b"bad")).unwrap_err(),
        "failed to parse /data/history.bin: bad history header"
    );
    assert_eq!(
        store.load_snippets(Some(b"bad")).unwrap_err(),
        "failed to parse /data/snippets.bin: bad snippets header"
    );
    assert!(store.load_rich_history(None).unwrap().is_empty());

    let settings = AppSettings {
        language: Language::Chinese,
        capture_rich_clipboard: false,
        max_history_items: 9999,
        visible_history_items: 15,
        menu_width: 280,
    };
    let write = store.save_settings(&settings);
    assert_eq!(write.path, "/data/settings.conf");
    let text = String::from_utf8(write.bytes).unwrap();
    assert_eq!(store.load_settings(Some(&text)), normalize_settings(settings));
    assert_eq!(store.load_settings(None), AppSettings::default());
}

#[test]
fn data_root_prefers_rclipy_home_then_home() {
    assert_eq!(data_root(Some("/data"), Some("/home/u"), true), Ok("/data".to_string()));
    assert_eq!(
        data_root(None, Some("/home/u"), true),
        Ok("/home/u/Library/Application Support/clipy-rs".to_string())
    );
    assert_eq!(
        data_root(None, Some("/home/u/"), false),
        Ok("/home/u/.local/share/clipy-rs".to_string())
    );
    assert_eq!(data_root(None, None, true), Err("HOME is not set".to_string()));
}
