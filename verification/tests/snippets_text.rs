use clipy_rs::args::{
    first_positional, flag_takes_value, has_flag, parse_flag_value, parse_u64_flag,
    parse_usize_flag,
};
use clipy_rs::model::SnippetEntry;
use clipy_rs::order::sorted_snippets;
use clipy_rs::preview::{
    normalize_clipboard_text, normalize_menu_preview, normalize_search_text, preview,
    truncated_candidate,
};
use clipy_rs::snippets::{
    earliest_marker, filter_snippets, find_snippet, record_snippet_use, remove_snippets_named,
    render_snippet_content_with_clipboard, resolve_snippet, snippet_display_name,
    snippet_matches_query, snippet_uses_clipboard, upsert_snippet_at,
};

fn snippet(name: &str, content: &str, updated_at: u64) -> SnippetEntry {
    SnippetEntry {
        name: name.to_string(),
        content: content.to_string(),
        created_at: 1,
        updated_at,
        use_count: 0,
    }
}

fn args(words: &[&str]) -> Vec<String> {
    words.iter().map(|w| w.to_string()).collect()
}

#[test]
fn preview_cuts_after_max_chars() {
    assert_eq!(preview("abcdef", 3), "abc...");
    assert_eq!(preview("abc", 3), "abc...");
    assert_eq!(preview("ab", 3), "ab");
    assert_eq!(preview("ab", 0), "a...");
    assert_eq!(preview("", 5), "");
    assert_eq!(preview("a \u{7}\u{0} b", 10), "a b");
}

#[test]
fn menu_and_search_normalization() {
    assert_eq!(normalize_menu_preview("a\n\n b"), "a b");
    assert_eq!(normalize_search_text("  Hello\t\tWORLD  "), "hello world");
    assert_eq!(normalize_clipboard_text("\0\0hi\0".to_string()), "hi");
    assert_eq!(normalize_clipboard_text("\0".to_string()), "");
}

#[test]
fn truncated_candidates_drop_trailing_spaces() {
    assert_eq!(truncated_candidate(&['a', 'b', ' ', ' ', 'c'], 4), "ab...");
    assert_eq!(truncated_candidate(&['x'], 10), "x...");
    assert_eq!(truncated_candidate(&[' ', ' '], 2), "...");
}

#[test]
fn flag_values() {
    assert_eq!(
        parse_flag_value(&args(&["--limit=5"]), "--limit"),
        Ok(Some("5".to_string()))
    );
    assert_eq!(
        parse_flag_value(&args(&["a", "--limit", "7"]), "--limit"),
        Ok(Some("7".to_string()))
    );
    assert_eq!(
        parse_flag_value(&args(&["--limit"]), "--limit"),
        Err("--limit requires a value".to_string())
    );
    assert_eq!(parse_flag_value(&args(&["x"]), "--limit"), Ok(None));
    assert_eq!(
        parse_usize_flag(&args(&["--limit", "abc"]), "--limit"),
        Err("invalid --limit value `abc`".to_string())
    );
    assert_eq!(parse_usize_flag(&args(&["--limit", "12"]), "--limit"), Ok(Some(12)));
    assert_eq!(
        parse_u64_flag(&args(&["--interval-ms=200"]), "--interval-ms"),
        Ok(Some(200))
    );
    assert_eq!(
        parse_u64_flag(&args(&["--interval-ms", "-1"]), "--interval-ms"),
        Err("invalid --interval-ms value `-1`".to_string())
    );
}

#[test]
fn flags_and_positionals() {
    let a = args(&["--id", "--paste", "7"]);
    assert!(has_flag(&a, "--paste"));
    assert!(!has_flag(&a, "--full"));
    assert_eq!(first_positional(&a, &["--paste", "--id"]), Some("7"));
    assert_eq!(
        first_positional(&args(&["--limit", "5", "x"]), &["--limit"]),
        Some("x")
    );
    assert_eq!(first_positional(&args(&["--foo", "--limit=3"]), &["--limit"]), None);
    assert!(flag_takes_value("--max-bytes"));
    assert!(!flag_takes_value("--paste"));
}

#[test]
fn display_names_are_the_last_name_part() {
    assert_eq!(snippet_display_name("work/signature"), "signature");
    assert_eq!(snippet_display_name("/a/b/"), "b");
    assert_eq!(snippet_display_name("plain"), "plain");
    assert_eq!(snippet_display_name("///"), "");
}

#[test]
fn snippet_matching_uses_lower_case() {
    let s = snippet("Work/Greeting", "Best Regards", 1);
    assert!(snippet_matches_query(&s, "greet"));
    assert!(snippet_matches_query(&s, "regards"));
    assert!(!snippet_matches_query(&s, "Regards"));
    assert!(!snippet_matches_query(&s, "nope"));
}

#[test]
fn snippet_resolution_errors() {
    let folders = vec![snippet("a/sig", "x", 1), snippet("b/sig", "y", 1)];
    assert_eq!(
        resolve_snippet(&folders, "sig").unwrap_err(),
        "snippet `sig` matched 2 folders; use the full name or copy by index"
    );
    assert_eq!(resolve_snippet(&folders, "a/sig").unwrap().content, "x");
    assert_eq!(
        resolve_snippet(&folders, "zzz").unwrap_err(),
        "snippet `zzz` was not found"
    );
    let many = vec![snippet("alpha", "x", 1), snippet("beta", "alphabet", 1)];
    assert_eq!(
        resolve_snippet(&many, "alp").unwrap_err(),
        "snippet `alp` matched 2 items; use `snip list alp` and copy by index"
    );
    assert_eq!(resolve_snippet(&many, "3").unwrap_err(), "snippet `3` was not found");
    assert_eq!(resolve_snippet(&many, "2").unwrap().name, "beta");
}

#[test]
fn rendering_markers() {
    let r = render_snippet_content_with_clipboard("a$|$bc", None);
    assert_eq!(r.content, "abc");
    assert_eq!(r.cursor_left, 2);
    let r = render_snippet_content_with_clipboard("x{{cursor}}y$|$z", None);
    assert_eq!(r.content, "xyz");
    assert_eq!(r.cursor_left, 2);
    let r = render_snippet_content_with_clipboard("a{{cursor}}b$|$c", None);
    assert_eq!(r.content, "abc");
    assert_eq!(r.cursor_left, 2);
    let r = render_snippet_content_with_clipboard("$|$ab{{cursor}}", None);
    assert_eq!(r.content, "ab");
    assert_eq!(r.cursor_left, 2);
    let r = render_snippet_content_with_clipboard("[{{clipboard}}|{{clipboard}}]", None);
    assert_eq!(r.content, "[|]");
    assert_eq!(r.cursor_left, 0);
    assert!(snippet_uses_clipboard("hi {{clipboard}}"));
    assert!(!snippet_uses_clipboard("hi {{cursor}}"));
}

#[test]
fn earliest_marker_picks_the_first_occurrence() {
    let text: Vec<char> = "ab$|$cd{{cursor}}".chars().collect();
    assert_eq!(earliest_marker(&text, &["{{cursor}}", "$|$"]), Some((2, 1)));
    let none: Vec<char> = "plain".chars().collect();
    assert_eq!(earliest_marker(&none, &["{{cursor}}", "$|$"]), None);
}

#[test]
fn saving_and_using_snippets() {
    let mut snippets = vec![snippet("a", "1", 1)];
    assert!(upsert_snippet_at(&mut snippets, "b".to_string(), "2".to_string(), 9));
    assert_eq!(snippets[1].name, "b");
    assert_eq!(snippets[1].created_at, 9);
    assert!(!upsert_snippet_at(&mut snippets, "a".to_string(), "3".to_string(), 10));
    assert_eq!(snippets[0].content, "3");
    assert_eq!(snippets[0].updated_at, 10);
    assert_eq!(snippets[0].created_at, 1);
    assert_eq!(find_snippet(&snippets, "b"), Some(1));
    assert_eq!(find_snippet(&snippets, "c"), None);
    record_snippet_use(&mut snippets, 1, 20);
    assert_eq!(snippets[1].use_count, 1);
    assert_eq!(snippets[1].updated_at, 20);
    assert_eq!(remove_snippets_named(&mut snippets, "a"), 1);
    assert_eq!(snippets.len(), 1);
    assert_eq!(remove_snippets_named(&mut snippets, "a"), 0);
}

#[test]
fn snippets_sort_newest_first_and_filter() {
    let snippets = vec![snippet("a", "x", 2), snippet("b", "Regards", 5), snippet("c", "y", 5)];
    let sorted = sorted_snippets(snippets.clone());
    let names: Vec<&str> = sorted.iter().map(|s| s.name.as_str()).collect();
    assert_eq!(names, vec!["b", "c", "a"]);
    let found = filter_snippets(snippets, Some("REG"));
    assert_eq!(found.len(), 1);
    assert_eq!(found[0].name, "b");
}
