use clipy_rs::args::free_text;
use clipy_rs::model::SnippetEntry;
use clipy_rs::preview::preview;
use clipy_rs::snippets::{render_snippet_content_with_clipboard, resolve_snippet};

#[test]
fn preview_collapses_whitespace() {
    assert_eq!(preview("hello\n\nworld\t!", 80), "hello world !");
}

#[test]
fn free_text_ignores_flag_values() {
    let args = vec![
        "hello".to_string(),
        "--limit".to_string(),
        "5".to_string(),
        "world".to_string(),
    ];
    assert_eq!(
        free_text(&args, &["--limit"]),
        Some("hello world".to_string())
    );
}

#[test]
fn resolves_snippet_by_index_exact_name_and_unique_query() {
    let snippets = vec![
        SnippetEntry {
            name: "work/signature".to_string(),
            content: "Regards".to_string(),
            created_at: 1,
            updated_at: 3,
            use_count: 0,
        },
        SnippetEntry {
            name: "email".to_string(),
            content: "hello@example.com".to_string(),
            created_at: 1,
            updated_at: 2,
            use_count: 0,
        },
    ];

    assert_eq!(
        resolve_snippet(&snippets, "1").unwrap().name,
        "work/signature"
    );
    assert_eq!(
        resolve_snippet(&snippets, "signature").unwrap().name,
        "work/signature"
    );
    assert_eq!(resolve_snippet(&snippets, "hello@").unwrap().name, "email");
}

#[test]
fn renders_snippet_clipboard_and_cursor_markers() {
    let rendered =
        render_snippet_content_with_clipboard("wrap({{clipboard}}){{cursor}};", Some("value"));

    assert_eq!(rendered.content, "wrap(value);");
    assert_eq!(rendered.cursor_left, 1);
}
