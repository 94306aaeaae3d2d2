use vstd::prelude::*;
use crate::model::{history_view, HistoryEntry, HistoryEntryView};
use crate::settings::{
    default_settings, normalize_settings, spec_normalize_settings, AppSettings, Language,
};
use crate::text::{
    chars_eq_str, chars_of, contains_str, contains_sub, decimal, parse_usize_chars, parse_usize_spec, string_push_str, trim,
    trim_bounds, usize_to_decimal,
};

verus! {

// ---------------------------------------------------------------------------
// Interface text.
// ---------------------------------------------------------------------------

/// The English text of an interface key; empty for an unknown key.
pub open spec fn english_text(key: Seq<char>) -> Seq<char> {
    if key == "app_name"@ {
        "clipy-rs"@
    } else if key == "hotkey"@ {
        "Global hotkey: Cmd+Shift+V"@
    } else if key == "error"@ {
        "Error"@
    } else if key == "capture_now"@ {
        "Capture Current Clipboard"@
    } else if key == "refresh"@ {
        "Refresh Menu"@
    } else if key == "show_menu"@ {
        "Show Menu"@
    } else if key == "history"@ {
        "History"@
    } else if key == "search_history"@ {
        "Search history"@
    } else if key == "search_placeholder"@ {
        "Type to search…"@
    } else if key == "search_no_results"@ {
        "No matches"@
    } else if key == "load_history_failed"@ {
        "Failed to load history"@
    } else if key == "storage_unavailable"@ {
        "Storage unavailable"@
    } else if key == "no_history"@ {
        "No history yet"@
    } else if key == "preferences"@ {
        "Preferences..."@
    } else if key == "preferences_title"@ {
        "Preferences"@
    } else if key == "language"@ {
        "Language"@
    } else if key == "history_limit"@ {
        "Max text items shown"@
    } else if key == "visible_count"@ {
        "Visible recent items"@
    } else if key == "rich_history_limit"@ {
        "Max image/file items shown"@
    } else if key == "rich_visible_count"@ {
        "Visible image/file items"@
    } else if key == "menu_width"@ {
        "Menu width"@
    } else if key == "rich_capture_setting"@ {
        "Images and files"@
    } else if key == "enabled"@ {
        "Enabled"@
    } else if key == "disabled"@ {
        "Disabled"@
    } else if key == "save"@ {
        "Save"@
    } else if key == "cancel"@ {
        "Cancel"@
    } else if key == "rich_history"@ {
        "Images and Files"@
    } else if key == "no_rich_history"@ {
        "No images or files yet"@
    } else if key == "kind_image"@ {
        "Image"@
    } else if key == "kind_file"@ {
        "File"@
    } else if key == "favorites"@ {
        "Favorites"@
    } else if key == "no_favorites"@ {
        "No favorites yet"@
    } else if key == "add_favorite"@ {
        "Add Favorite"@
    } else if key == "remove_favorite"@ {
        "Remove Favorite"@
    } else if key == "no_favorite_candidates"@ {
        "No history items to favorite"@
    } else if key == "settings"@ {
        "Settings"@
    } else if key == "rich_enabled"@ {
        "[x] Capture images and files"@
    } else if key == "rich_disabled"@ {
        "[ ] Capture images and files"@
    } else if key == "clear_history"@ {
        "Clear History"@
    } else if key == "quit"@ {
        "Quit"@
    } else if key == "permission_required_title"@ {
        "Accessibility Permission Required"@
    } else if key == "permission_required_body"@ {
        "Clipy RS needs Accessibility permission to auto-paste. Please enable it in System Settings → Privacy & Security → Accessibility, then try again."@
    } else if key == "open_settings"@ {
        "Open Settings"@
    } else {
        ""@
    }
}

/// The Chinese text of an interface key; empty for an unknown key.
pub open spec fn chinese_text(key: Seq<char>) -> Seq<char> {
    if key == "app_name"@ {
        "clipy-rs"@
    } else if key == "hotkey"@ {
        "全局快捷键: Cmd+Shift+V"@
    } else if key == "error"@ {
        "错误"@
    } else if key == "capture_now"@ {
        "捕获当前剪贴板"@
    } else if key == "refresh"@ {
        "刷新菜单"@
    } else if key == "show_menu"@ {
        "显示菜单"@
    } else if key == "history"@ {
        "文本历史"@
    } else if key == "search_history"@ {
        "搜索历史"@
    } else if key == "search_placeholder"@ {
        "输入关键词搜索…"@
    } else if key == "search_no_results"@ {
        "无匹配结果"@
    } else if key == "load_history_failed"@ {
        "加载历史失败"@
    } else if key == "storage_unavailable"@ {
        "存储不可用"@
    } else if key == "no_history"@ {
        "暂无历史"@
    } else if key == "preferences"@ {
        "偏好设置..."@
    } else if key == "preferences_title"@ {
        "偏好设置"@
    } else if key == "language"@ {
        "语言"@
    } else if key == "history_limit"@ {
        "文本最多展示数"@
    } else if key == "visible_count"@ {
        "顶部直接显示"@
    } else if key == "rich_history_limit"@ {
        "图片/文件最多展示数"@
    } else if key == "rich_visible_count"@ {
        "图片/文件直显数量"@
    } else if key == "menu_width"@ {
        "菜单宽度"@
    } else if key == "rich_capture_setting"@ {
        "图片/文件剪贴板"@
    } else if key == "enabled"@ {
        "开启"@
    } else if key == "disabled"@ {
        "关闭"@
    } else if key == "save"@ {
        "保存"@
    } else if key == "cancel"@ {
        "取消"@
    } else if key == "rich_history"@ {
        "图片和文件"@
    } else if key == "no_rich_history"@ {
        "暂无图片或文件"@
    } else if key == "kind_image"@ {
        "图片"@
    } else if key == "kind_file"@ {
        "文件"@
    } else if key == "favorites"@ {
        "收藏"@
    } else if key == "no_favorites"@ {
        "暂无收藏"@
    } else if key == "add_favorite"@ {
        "添加收藏"@
    } else if key == "remove_favorite"@ {
        "取消收藏"@
    } else if key == "no_favorite_candidates"@ {
        "暂无可收藏历史"@
    } else if key == "settings"@ {
        "设置"@
    } else if key == "rich_enabled"@ {
        "[x] 捕获图片和文件"@
    } else if key == "rich_disabled"@ {
        "[ ] 捕获图片和文件"@
    } else if key == "clear_history"@ {
        "清空历史"@
    } else if key == "quit"@ {
        "退出"@
    } else if key == "permission_required_title"@ {
        "需要辅助功能权限"@
    } else if key == "permission_required_body"@ {
        "Clipy RS 需要辅助功能权限才能自动粘贴。请在 系统设置 → 隐私与安全性 → 辅助功能 中启用 Clipy RS 后重试。"@
    } else if key == "open_settings"@ {
        "打开系统设置"@
    } else {
        ""@
    }
}

/// The interface text of `key` in `language`.
pub open spec fn translation(language: Language, key: Seq<char>) -> Seq<char> {
    match language {
        Language::English => english_text(key),
        Language::Chinese => chinese_text(key),
    }
}

/// The English text of a key.
fn english(key: &[char]) -> (r: &'static str)
    ensures
        r@ == english_text(key@),
{
    if chars_eq_str(key, "app_name") {
        return "clipy-rs";
    }
    if chars_eq_str(key, "hotkey") {
        return "Global hotkey: Cmd+Shift+V";
    }
    if chars_eq_str(key, "error") {
        return "Error";
    }
    if chars_eq_str(key, "capture_now") {
        return "Capture Current Clipboard";
    }
    if chars_eq_str(key, "refresh") {
        return "Refresh Menu";
    }
    if chars_eq_str(key, "show_menu") {
        return "Show Menu";
    }
    if chars_eq_str(key, "history") {
        return "History";
    }
    if chars_eq_str(key, "search_history") {
        return "Search history";
    }
    if chars_eq_str(key, "search_placeholder") {
        return "Type to search…";
    }
    if chars_eq_str(key, "search_no_results") {
        return "No matches";
    }
    if chars_eq_str(key, "load_history_failed") {
        return "Failed to load history";
    }
    if chars_eq_str(key, "storage_unavailable") {
        return "Storage unavailable";
    }
    if chars_eq_str(key, "no_history") {
        return "No history yet";
    }
    if chars_eq_str(key, "preferences") {
        return "Preferences...";
    }
    if chars_eq_str(key, "preferences_title") {
        return "Preferences";
    }
    if chars_eq_str(key, "language") {
        return "Language";
    }
    if chars_eq_str(key, "history_limit") {
        return "Max text items shown";
    }
    if chars_eq_str(key, "visible_count") {
        return "Visible recent items";
    }
    if chars_eq_str(key, "rich_history_limit") {
        return "Max image/file items shown";
    }
    if chars_eq_str(key, "rich_visible_count") {
        return "Visible image/file items";
    }
    if chars_eq_str(key, "menu_width") {
        return "Menu width";
    }
    if chars_eq_str(key, "rich_capture_setting") {
        return "Images and files";
    }
    if chars_eq_str(key, "enabled") {
        return "Enabled";
    }
    if chars_eq_str(key, "disabled") {
        return "Disabled";
    }
    if chars_eq_str(key, "save") {
        return "Save";
    }
    if chars_eq_str(key, "cancel") {
        return "Cancel";
    }
    if chars_eq_str(key, "rich_history") {
        return "Images and Files";
    }
    if chars_eq_str(key, "no_rich_history") {
        return "No images or files yet";
    }
    if chars_eq_str(key, "kind_image") {
        return "Image";
    }
    if chars_eq_str(key, "kind_file") {
        return "File";
    }
    if chars_eq_str(key, "favorites") {
        return "Favorites";
    }
    if chars_eq_str(key, "no_favorites") {
        return "No favorites yet";
    }
    if chars_eq_str(key, "add_favorite") {
        return "Add Favorite";
    }
    if chars_eq_str(key, "remove_favorite") {
        return "Remove Favorite";
    }
    if chars_eq_str(key, "no_favorite_candidates") {
        return "No history items to favorite";
    }
    if chars_eq_str(key, "settings") {
        return "Settings";
    }
    if chars_eq_str(key, "rich_enabled") {
        return "[x] Capture images and files";
    }
    if chars_eq_str(key, "rich_disabled") {
        return "[ ] Capture images and files";
    }
    if chars_eq_str(key, "clear_history") {
        return "Clear History";
    }
    if chars_eq_str(key, "quit") {
        return "Quit";
    }
    if chars_eq_str(key, "permission_required_title") {
        return "Accessibility Permission Required";
    }
    if chars_eq_str(key, "permission_required_body") {
        return "Clipy RS needs Accessibility permission to auto-paste. Please enable it in System Settings → Privacy & Security → Accessibility, then try again.";
    }
    if chars_eq_str(key, "open_settings") {
        return "Open Settings";
    }
    ""
}

/// The Chinese text of a key.
fn chinese(key: &[char]) -> (r: &'static str)
    ensures
        r@ == chinese_text(key@),
{
    if chars_eq_str(key, "app_name") {
        return "clipy-rs";
    }
    if chars_eq_str(key, "hotkey") {
        return "全局快捷键: Cmd+Shift+V";
    }
    if chars_eq_str(key, "error") {
        return "错误";
    }
    if chars_eq_str(key, "capture_now") {
        return "捕获当前剪贴板";
    }
    if chars_eq_str(key, "refresh") {
        return "刷新菜单";
    }
    if chars_eq_str(key, "show_menu") {
        return "显示菜单";
    }
    if chars_eq_str(key, "history") {
        return "文本历史";
    }
    if chars_eq_str(key, "search_history") {
        return "搜索历史";
    }
    if chars_eq_str(key, "search_placeholder") {
        return "输入关键词搜索…";
    }
    if chars_eq_str(key, "search_no_results") {
        return "无匹配结果";
    }
    if chars_eq_str(key, "load_history_failed") {
        return "加载历史失败";
    }
    if chars_eq_str(key, "storage_unavailable") {
        return "存储不可用";
    }
    if chars_eq_str(key, "no_history") {
        return "暂无历史";
    }
    if chars_eq_str(key, "preferences") {
        return "偏好设置...";
    }
    if chars_eq_str(key, "preferences_title") {
        return "偏好设置";
    }
    if chars_eq_str(key, "language") {
        return "语言";
    }
    if chars_eq_str(key, "history_limit") {
        return "文本最多展示数";
    }
    if chars_eq_str(key, "visible_count") {
        return "顶部直接显示";
    }
    if chars_eq_str(key, "rich_history_limit") {
        return "图片/文件最多展示数";
    }
    if chars_eq_str(key, "rich_visible_count") {
        return "图片/文件直显数量";
    }
    if chars_eq_str(key, "menu_width") {
        return "菜单宽度";
    }
    if chars_eq_str(key, "rich_capture_setting") {
        return "图片/文件剪贴板";
    }
    if chars_eq_str(key, "enabled") {
        return "开启";
    }
    if chars_eq_str(key, "disabled") {
        return "关闭";
    }
    if chars_eq_str(key, "save") {
        return "保存";
    }
    if chars_eq_str(key, "cancel") {
        return "取消";
    }
    if chars_eq_str(key, "rich_history") {
        return "图片和文件";
    }
    if chars_eq_str(key, "no_rich_history") {
        return "暂无图片或文件";
    }
    if chars_eq_str(key, "kind_image") {
        return "图片";
    }
    if chars_eq_str(key, "kind_file") {
        return "文件";
    }
    if chars_eq_str(key, "favorites") {
        return "收藏";
    }
    if chars_eq_str(key, "no_favorites") {
        return "暂无收藏";
    }
    if chars_eq_str(key, "add_favorite") {
        return "添加收藏";
    }
    if chars_eq_str(key, "remove_favorite") {
        return "取消收藏";
    }
    if chars_eq_str(key, "no_favorite_candidates") {
        return "暂无可收藏历史";
    }
    if chars_eq_str(key, "settings") {
        return "设置";
    }
    if chars_eq_str(key, "rich_enabled") {
        return "[x] 捕获图片和文件";
    }
    if chars_eq_str(key, "rich_disabled") {
        return "[ ] 捕获图片和文件";
    }
    if chars_eq_str(key, "clear_history") {
        return "清空历史";
    }
    if chars_eq_str(key, "quit") {
        return "退出";
    }
    if chars_eq_str(key, "permission_required_title") {
        return "需要辅助功能权限";
    }
    if chars_eq_str(key, "permission_required_body") {
        return "Clipy RS 需要辅助功能权限才能自动粘贴。请在 系统设置 → 隐私与安全性 → 辅助功能 中启用 Clipy RS 后重试。";
    }
    if chars_eq_str(key, "open_settings") {
        return "打开系统设置";
    }
    ""
}

/// The interface text of `key` in `language`; empty for an unknown key.
pub fn t(language: Language, key: &str) -> (r: &'static str)
    ensures
        r@ == translation(language, key@),
{
    let k = chars_of(key);
    match language {
        Language::English => english(k.as_slice()),
        Language::Chinese => chinese(k.as_slice()),
    }
}

// ---------------------------------------------------------------------------
// Preference fields.
// ---------------------------------------------------------------------------

/// A positive number typed into a preference field: the trimmed text read as a `usize`,
/// or `fallback` when that fails or gives 0.
pub open spec fn spec_parse_positive_usize(value: Seq<char>, fallback: usize) -> usize {
    match parse_usize_spec(trim(value)) {
        Some(v) => if v > 0 {
            v
        } else {
            fallback
        },
        None => fallback,
    }
}

/// Reads a positive number typed into a preference field, as
/// [`spec_parse_positive_usize`] describes.
pub fn parse_positive_usize(value: &str, fallback: usize) -> (r: usize)
    ensures
        r == spec_parse_positive_usize(value@, fallback),
{
    let c = chars_of(value);
    let (lo, hi) = trim_bounds(c.as_slice(), 0, c.len());
    assert(c@.subrange(0, c@.len() as int) =~= value@);
    match parse_usize_chars(c.as_slice(), lo, hi) {
        Some(v) => if v > 0 {
            v
        } else {
            fallback
        },
        None => fallback,
    }
}

// ---------------------------------------------------------------------------
// Menu layout.
// ---------------------------------------------------------------------------

/// How a list of history items is laid out in a menu: the first `direct` items are
/// shown in the menu itself, the rest in submenus each holding the items `start..end`.
#[derive(Clone, Debug, PartialEq, Eq)]
pub struct MenuSections {
    pub direct: usize,
    pub chunks: Vec<(usize, usize)>,
}

/// The number of items shown at all: at most `max_items` of the `count` there are.
pub open spec fn shown_count(count: usize, max_items: usize) -> int {
    if count < max_items {
        count as int
    } else {
        max_items as int
    }
}

/// The number of items shown in the menu itself: at most `visible` and at most
/// `max_items` of those shown.
pub open spec fn direct_count(count: usize, max_items: usize, visible: usize) -> int {
    let shown = shown_count(count, max_items);
    let v = if visible < max_items {
        visible as int
    } else {
        max_items as int
    };
    if v < shown {
        v
    } else {
        shown
    }
}

/// Lays out `count` items with at most `max_items` shown, `visible` of them directly in
/// the menu and the rest in submenus of `visible` items each (the last one may hold
/// fewer). Submenus are needed only when items remain after the direct ones, and then
/// `visible` must be above zero.
pub fn menu_sections(count: usize, max_items: usize, visible: usize) -> (r: MenuSections)
    requires
        visible > 0 || direct_count(count, max_items, visible) >= shown_count(count, max_items),
    ensures
        r.direct == direct_count(count, max_items, visible),
        forall|k: int|
            0 <= k < r.chunks@.len() ==> (#[trigger] r.chunks@[k]).0 == r.direct + k * visible
                && r.chunks@[k].1 == if r.direct + (k + 1) * visible < shown_count(count, max_items) {
                r.direct + (k + 1) * visible
            } else {
                shown_count(count, max_items)
            },
        r.chunks@.len() == 0 ==> r.direct >= shown_count(count, max_items),
        r.chunks@.len() > 0 ==> r.chunks@.last().1 == shown_count(count, max_items),
        forall|k: int| 0 <= k < r.chunks@.len() ==> (#[trigger] r.chunks@[k]).0 < r.chunks@[k].1,
{
    let shown = if count < max_items {
        count
    } else {
        max_items
    };
    let v = if visible < max_items {
        visible
    } else {
        max_items
    };
    let direct = if v < shown {
        v
    } else {
        shown
    };
    let mut chunks: Vec<(usize, usize)> = Vec::new();
    let mut start = direct;
    let ghost mut k: int = 0;
    while start < shown
        invariant
            direct <= start <= shown,
            visible > 0 || start >= shown,
            direct == direct_count(count, max_items, visible),
            shown == shown_count(count, max_items),
            start < shown ==> start == direct + k * visible,
            k == chunks@.len(),
            forall|m: int|
                0 <= m < chunks@.len() ==> (#[trigger] chunks@[m]).0 == direct + m * visible
                    && chunks@[m].1 == if direct + (m + 1) * visible < shown {
                    direct + (m + 1) * visible
                } else {
                    shown as int
                },
            forall|m: int| 0 <= m < chunks@.len() ==> (#[trigger] chunks@[m]).0 < chunks@[m].1,
            chunks@.len() > 0 ==> chunks@.last().1 == start,
            chunks@.len() == 0 ==> start == direct,
        decreases shown - start,
    {
        let end = if shown - start > visible {
            start + visible
        } else {
            shown
        };
        assert((k + 1) * visible == k * visible + visible) by (nonlinear_arith);
        chunks.push((start, end));
        start = end;
        proof {
            k = k + 1;
        }
    }
    MenuSections { direct, chunks }
}

/// The title of a submenu holding the items `start..end`, counted from 1.
pub fn chunk_title(start: usize, end: usize) -> (r: String)
    requires
        start < usize::MAX,
    ensures
        r@ == decimal((start + 1) as nat) + " - "@ + decimal(end as nat),
{
    let mut r = String::new();
    let a = usize_to_decimal(start + 1);
    string_push_str(&mut r, a.as_str());
    string_push_str(&mut r, " - ");
    let b = usize_to_decimal(end);
    string_push_str(&mut r, b.as_str());
    r
}

/// A four-character code as a big-endian integer, as Carbon event types use.
pub fn fourcc(bytes: [u8; 4]) -> (r: u32)
    ensures
        r == bytes[0] as u32 * 0x1000000 + bytes[1] as u32 * 0x10000 + bytes[2] as u32 * 0x100
            + bytes[3] as u32,
{
    let a = bytes[0] as u32;
    let b = bytes[1] as u32;
    let c = bytes[2] as u32;
    let d = bytes[3] as u32;
    assert(a * 0x1000000 + b * 0x10000 + c * 0x100 + d <= 0xffff_ffff) by (nonlinear_arith)
        requires
            a < 256,
            b < 256,
            c < 256,
            d < 256,
    ;
    a * 0x1000000 + b * 0x10000 + c * 0x100 + d
}

// ---------------------------------------------------------------------------
// Menu entries.
// ---------------------------------------------------------------------------

/// The number before a history item's title: its 1-based position right-aligned in two
/// columns, a dot and a space, then `* ` for a pinned item.
pub open spec fn spec_title_prefix(index: nat, pinned: bool) -> Seq<char> {
    let n = decimal(index + 1);
    (if n.len() < 2 {
        seq![' '] + n
    } else {
        n
    }) + ". "@ + if pinned {
        "* "@
    } else {
        ""@
    }
}

/// The number before a history item's title.
pub fn history_title_prefix(index: usize, pinned: bool) -> (r: String)
    requires
        index < usize::MAX,
    ensures
        r@ == spec_title_prefix(index as nat, pinned),
{
    let n = usize_to_decimal(index + 1);
    let mut r = String::new();
    if index + 1 < 10 {
        proof {
            reveal_with_fuel(decimal, 2);
        }
        string_push_str(&mut r, " ");
    } else {
        proof {
            lemma_decimal_len((index + 1) as nat);
        }
    }
    string_push_str(&mut r, n.as_str());
    string_push_str(&mut r, ". ");
    if pinned {
        string_push_str(&mut r, "* ");
    } else {
        string_push_str(&mut r, "");
    }
    proof {
        reveal_strlit(" ");
        assert(" "@ =~= seq![' ']);
    }
    r
}

proof fn lemma_decimal_len(n: nat)
    requires
        n >= 10,
    ensures
        decimal(n).len() >= 2,
    decreases n,
{
    crate::text::lemma_decimal_digits(n / 10);
}

/// Whether an entry's pin is `pinned`.
pub open spec fn pin_is(pinned: bool) -> spec_fn(HistoryEntryView) -> bool {
    |e: HistoryEntryView| e.pinned == pinned
}

/// The first `max_items` entries whose pin is `pinned`, in order: the favorites, or the
/// history shown outside them.
pub fn entries_with_pin(entries: &[HistoryEntry], pinned: bool, max_items: usize) -> (out: Vec<
    HistoryEntry,
>)
    ensures
        ({
            let f = history_view(entries@).filter(pin_is(pinned));
            history_view(out@) == f.take(if f.len() < max_items {
                f.len() as int
            } else {
                max_items as int
            })
        }),
{
    let ghost v = history_view(entries@);
    let ghost p = pin_is(pinned);
    let mut out: Vec<HistoryEntry> = Vec::new();
    let mut i: usize = 0;
    while i < entries.len() && out.len() < max_items
        invariant
            i <= entries@.len(),
            v == history_view(entries@),
            p == pin_is(pinned),
            out@.len() <= max_items,
            history_view(out@) == v.take(i as int).filter(p),
        decreases entries@.len() - i,
    {
        assert(v.take(i + 1) =~= v.take(i as int).push(v[i as int]));
        proof {
            v.take(i as int).lemma_filter_push(v[i as int], p);
        }
        if entries[i].pinned == pinned {
            let ghost o = out@;
            out.push(entries[i].duplicate());
            assert(history_view(out@) =~= history_view(o).push(v[i as int]));
        }
        i = i + 1;
    }
    proof {
        let f = v.filter(p);
        lemma_filter_prefix(v, p, i as int);
        if out@.len() < max_items {
            assert(v.take(i as int) =~= v);
            assert(f.take(f.len() as int) =~= f);
        }
    }
    out
}

/// Filtering a prefix gives a prefix of the filtered list.
proof fn lemma_filter_prefix(v: Seq<HistoryEntryView>, p: spec_fn(HistoryEntryView) -> bool, i: int)
    requires
        0 <= i <= v.len(),
    ensures
        v.take(i).filter(p).len() <= v.filter(p).len(),
        v.filter(p).take(v.take(i).filter(p).len() as int) == v.take(i).filter(p),
    decreases v.len() - i,
{
    if i < v.len() {
        lemma_filter_prefix(v, p, i + 1);
        assert(v.take(i + 1) =~= v.take(i).push(v[i]));
        v.take(i).lemma_filter_push(v[i], p);
        let a = v.take(i).filter(p);
        let b = v.take(i + 1).filter(p);
        assert(v.filter(p).take(a.len() as int) =~= b.take(a.len() as int));
        assert(b.take(a.len() as int) =~= a);
    } else {
        assert(v.take(i) =~= v);
        assert(v.filter(p).take(v.filter(p).len() as int) =~= v.filter(p));
    }
}

/// Whether a paste failed for want of the Accessibility permission, which the app then
/// asks the system to prompt for: the message says so.
pub fn is_permission_error(message: &str) -> (r: bool)
    ensures
        r == contains_sub(message@, "Accessibility permission"@),
{
    let c = chars_of(message);
    contains_str(c.as_slice(), "Accessibility permission")
}

/// Whether the clipboard should be read on a poll: always when forced or when its
/// change count is unknown, otherwise only when the count moved since the last capture.
pub fn should_capture(change_count: Option<i64>, last_change: i64, force: bool) -> (r: bool)
    ensures
        r == match change_count {
            Some(c) => force || c != last_change,
            None => true,
        },
{
    match change_count {
        Some(c) => force || c != last_change,
        None => true,
    }
}

// ---------------------------------------------------------------------------
// The preferences panel.
// ---------------------------------------------------------------------------

/// The settings the preferences panel holds: the language from the first popup (second
/// item Chinese, else English), image and file capture on when the second popup shows
/// its first item, and the numbers typed into the fields, with the defaults for what is
/// not a positive number; normalized.
pub open spec fn spec_preferences_settings(
    language_index: int,
    rich_index: int,
    history_limit: Seq<char>,
    visible_count: Seq<char>,
    menu_width: Seq<char>,
) -> AppSettings {
    spec_normalize_settings(
        AppSettings {
            language: if language_index == 1 {
                Language::Chinese
            } else {
                Language::English
            },
            capture_rich_clipboard: rich_index == 0,
            max_history_items: spec_parse_positive_usize(
                history_limit,
                default_settings().max_history_items,
            ),
            visible_history_items: spec_parse_positive_usize(
                visible_count,
                default_settings().visible_history_items,
            ),
            menu_width: spec_parse_positive_usize(menu_width, default_settings().menu_width),
        },
    )
}

/// The settings the preferences panel holds, as [`spec_preferences_settings`] describes.
pub fn preferences_settings(
    language_index: isize,
    rich_index: isize,
    history_limit: &str,
    visible_count: &str,
    menu_width: &str,
) -> (s: AppSettings)
    ensures
        s == spec_preferences_settings(
            language_index as int,
            rich_index as int,
            history_limit@,
            visible_count@,
            menu_width@,
        ),
{
    let defaults = AppSettings::default();
    normalize_settings(
        AppSettings {
            language: if language_index == 1 {
                Language::Chinese
            } else {
                Language::English
            },
            capture_rich_clipboard: rich_index == 0,
            max_history_items: parse_positive_usize(history_limit, defaults.max_history_items),
            visible_history_items: parse_positive_usize(
                visible_count,
                defaults.visible_history_items,
            ),
            menu_width: parse_positive_usize(menu_width, defaults.menu_width),
        },
    )
}

} // verus!
