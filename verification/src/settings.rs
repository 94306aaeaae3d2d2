use vstd::prelude::*;
use crate::text::{
    all_digits, chars_eq_str, chars_of, chars_range, decimal, is_digit, is_white_space,
    lemma_decimal_digits, lemma_parse_decimal, parse_usize_chars, parse_usize_spec, string_push,
    string_push_str, trim, trim_bounds, trim_end, trim_start, usize_to_decimal,
};

verus! {

/// The language of the menu bar interface.
#[derive(Clone, Copy, Debug, PartialEq, Eq, Structural)]
pub enum Language {
    English,
    Chinese,
}

/// User preferences kept in `settings.conf`.
#[derive(Clone, Copy, Debug, PartialEq, Eq, Structural)]
pub struct AppSettings {
    pub language: Language,
    pub capture_rich_clipboard: bool,
    pub max_history_items: usize,
    pub visible_history_items: usize,
    pub menu_width: usize,
}

/// The settings used when none were saved.
pub open spec fn default_settings() -> AppSettings {
    AppSettings {
        language: Language::English,
        capture_rich_clipboard: true,
        max_history_items: 40,
        visible_history_items: 10,
        menu_width: 260,
    }
}

impl Default for AppSettings {
    fn default() -> (s: AppSettings)
        ensures
            s == default_settings(),
    {
        AppSettings {
            language: Language::English,
            capture_rich_clipboard: true,
            max_history_items: 40,
            visible_history_items: 10,
            menu_width: 260,
        }
    }
}

// ---------------------------------------------------------------------------
// Normalization.
// ---------------------------------------------------------------------------

/// `v` brought into `[lo, hi]`.
pub open spec fn clamp(v: usize, lo: usize, hi: usize) -> usize {
    if v < lo {
        lo
    } else if v > hi {
        hi
    } else {
        v
    }
}

/// The settings with every count and width brought into its allowed range: at most
/// 1..=500 stored items, 1..=100 visible items and never more visible than stored,
/// and a menu 180..=600 points wide.
pub open spec fn spec_normalize_settings(s: AppSettings) -> AppSettings {
    let max = clamp(s.max_history_items, 1, 500);
    let visible = clamp(s.visible_history_items, 1, 100);
    AppSettings {
        language: s.language,
        capture_rich_clipboard: s.capture_rich_clipboard,
        max_history_items: max,
        visible_history_items: if visible > max {
            max
        } else {
            visible
        },
        menu_width: clamp(s.menu_width, 180, 600),
    }
}

/// Whether every field already lies in its allowed range.
pub open spec fn settings_normalized(s: AppSettings) -> bool {
    &&& 1 <= s.max_history_items <= 500
    &&& 1 <= s.visible_history_items <= 100
    &&& s.visible_history_items <= s.max_history_items
    &&& 180 <= s.menu_width <= 600
}

fn clamp_usize(v: usize, lo: usize, hi: usize) -> (r: usize)
    ensures
        r == clamp(v, lo, hi),
{
    if v < lo {
        lo
    } else if v > hi {
        hi
    } else {
        v
    }
}

/// Brings every count and width of `settings` into its allowed range.
pub fn normalize_settings(settings: AppSettings) -> (out: AppSettings)
    ensures
        out == spec_normalize_settings(settings),
        settings_normalized(out),
        settings_normalized(settings) ==> out == settings,
{
    let mut settings = settings;
    settings.max_history_items = clamp_usize(settings.max_history_items, 1, 500);
    settings.visible_history_items = clamp_usize(settings.visible_history_items, 1, 100);
    if settings.visible_history_items > settings.max_history_items {
        settings.visible_history_items = settings.max_history_items;
    }
    settings.menu_width = clamp_usize(settings.menu_width, 180, 600);
    settings
}

/// Normalized settings lie in their ranges, and normalizing them again changes nothing.
pub proof fn lemma_normalize_idempotent(s: AppSettings)
    ensures
        settings_normalized(spec_normalize_settings(s)),
        spec_normalize_settings(spec_normalize_settings(s)) == spec_normalize_settings(s),
{
}

/// The default settings are already normalized.
pub proof fn lemma_default_normalized()
    ensures
        settings_normalized(default_settings()),
        spec_normalize_settings(default_settings()) == default_settings(),
{
}

// ---------------------------------------------------------------------------
// The text format of `settings.conf`.
// ---------------------------------------------------------------------------

/// How a language is written in the settings file.
pub open spec fn language_code(l: Language) -> Seq<char> {
    match l {
        Language::English => "en"@,
        Language::Chinese => "zh-CN"@,
    }
}

/// How a flag is written in the settings file.
pub open spec fn bool_text(b: bool) -> Seq<char> {
    if b {
        "true"@
    } else {
        "false"@
    }
}

/// One `key=value` line, ended by a newline.
pub open spec fn setting_line(key: Seq<char>, value: Seq<char>) -> Seq<char> {
    key + seq!['='] + value + seq!['\n']
}

/// The settings file for `s`: one line per field, in a fixed order.
pub open spec fn spec_encode_settings(s: AppSettings) -> Seq<char> {
    setting_line("language"@, language_code(s.language)) + setting_line(
        "capture_rich_clipboard"@,
        bool_text(s.capture_rich_clipboard),
    ) + setting_line("max_history_items"@, decimal(s.max_history_items as nat)) + setting_line(
        "visible_history_items"@,
        decimal(s.visible_history_items as nat),
    ) + setting_line("menu_width"@, decimal(s.menu_width as nat))
}

/// The position of the first `c` in `s`, or `s.len()` when there is none.
pub open spec fn index_of_char(s: Seq<char>, c: char) -> nat
    decreases s.len(),
{
    if s.len() == 0 {
        0
    } else if s[0] == c {
        0
    } else {
        1 + index_of_char(s.drop_first(), c)
    }
}

/// The language a settings value names: Chinese for `zh`, `zh-CN` or `chinese`,
/// English for anything else.
pub open spec fn language_from_value(v: Seq<char>) -> Language {
    if v == "zh"@ || v == "zh-CN"@ || v == "chinese"@ {
        Language::Chinese
    } else {
        Language::English
    }
}

/// Whether a settings value turns a flag on: `1`, `true` or `yes`.
pub open spec fn flag_from_value(v: Seq<char>) -> bool {
    v == "1"@ || v == "true"@ || v == "yes"@
}

/// `st` after reading one line. A line without `=` is skipped; otherwise the text
/// before the first `=` is the key and the text after it the value, both trimmed.
pub open spec fn apply_line(st: AppSettings, line: Seq<char>) -> AppSettings {
    let eq = index_of_char(line, '=');
    if eq >= line.len() {
        st
    } else {
        apply_setting(st, trim(line.take(eq as int)), trim(line.skip(eq + 1int)))
    }
}

/// `st` with the field that `key` names set from `value`. Unknown keys, and numbers
/// that do not parse as `usize`, leave `st` unchanged.
pub open spec fn apply_setting(st: AppSettings, key: Seq<char>, value: Seq<char>) -> AppSettings {
    if key == "language"@ {
        AppSettings { language: language_from_value(value), ..st }
    } else if key == "capture_rich_clipboard"@ {
        AppSettings { capture_rich_clipboard: flag_from_value(value), ..st }
    } else if key == "max_history_items"@ {
        match parse_usize_spec(value) {
            Some(v) => AppSettings { max_history_items: v, ..st },
            None => st,
        }
    } else if key == "visible_history_items"@ {
        match parse_usize_spec(value) {
            Some(v) => AppSettings { visible_history_items: v, ..st },
            None => st,
        }
    } else if key == "menu_width"@ {
        match parse_usize_spec(value) {
            Some(v) => AppSettings { menu_width: v, ..st },
            None => st,
        }
    } else {
        st
    }
}

/// `st` after reading every line of `text` in order. Lines end at `\n`; a `\r`
/// before it ends up in the value and is trimmed away with the rest of the white space.
pub open spec fn apply_lines(st: AppSettings, text: Seq<char>) -> AppSettings
    decreases text.len(),
{
    let nl = index_of_char(text, '\n');
    if nl >= text.len() {
        apply_line(st, text)
    } else {
        apply_lines(apply_line(st, text.take(nl as int)), text.skip(nl + 1int))
    }
}

/// The settings a file holds: the defaults, overridden line by line, then normalized.
pub open spec fn spec_decode_settings(text: Seq<char>) -> AppSettings {
    spec_normalize_settings(apply_lines(default_settings(), text))
}

proof fn lemma_index_of_char(s: Seq<char>, c: char, i: int)
    requires
        0 <= i <= s.len(),
        forall|k: int| 0 <= k < i ==> s[k] != c,
        i == s.len() || s[i] == c,
    ensures
        index_of_char(s, c) == i,
    decreases i,
{
    if i > 0 {
        lemma_index_of_char(s.drop_first(), c, i - 1);
    }
}

/// The first `c` in `s[lo..hi]`, or `hi` when there is none.
fn find_char(s: &[char], lo: usize, hi: usize, c: char) -> (r: usize)
    requires
        lo <= hi <= s@.len(),
    ensures
        lo <= r <= hi,
        r - lo == index_of_char(s@.subrange(lo as int, hi as int), c),
{
    let ghost t = s@.subrange(lo as int, hi as int);
    let mut i = lo;
    while i < hi && s[i] != c
        invariant
            lo <= i <= hi <= s@.len(),
            t == s@.subrange(lo as int, hi as int),
            forall|k: int| 0 <= k < i - lo ==> t[k] != c,
        decreases hi - i,
    {
        assert(t[i - lo] == s@[i as int]);
        i = i + 1;
    }
    proof {
        if i < hi {
            assert(t[i - lo] == s@[i as int]);
        }
        lemma_index_of_char(t, c, i - lo);
    }
    i
}

/// The settings after reading the line `s[lo..hi]`.
fn apply_line_chars(st: AppSettings, s: &[char], lo: usize, hi: usize) -> (out: AppSettings)
    requires
        lo <= hi <= s@.len(),
    ensures
        out == apply_line(st, s@.subrange(lo as int, hi as int)),
{
    let ghost line = s@.subrange(lo as int, hi as int);
    let eq = find_char(s, lo, hi, '=');
    if eq == hi {
        return st;
    }
    let (klo, khi) = trim_bounds(s, lo, eq);
    let (vlo, vhi) = trim_bounds(s, eq + 1, hi);
    assert(line.take(eq - lo) =~= s@.subrange(lo as int, eq as int));
    assert(line.skip(eq - lo + 1) =~= s@.subrange(eq + 1, hi as int));
    let key = chars_range(s, klo, khi);
    let value = chars_range(s, vlo, vhi);
    let mut st = st;
    if chars_eq_str(key.as_slice(), "language") {
        let v = value.as_slice();
        st.language = if chars_eq_str(v, "zh") || chars_eq_str(v, "zh-CN") || chars_eq_str(
            v,
            "chinese",
        ) {
            Language::Chinese
        } else {
            Language::English
        };
    } else if chars_eq_str(key.as_slice(), "capture_rich_clipboard") {
        let v = value.as_slice();
        st.capture_rich_clipboard = chars_eq_str(v, "1") || chars_eq_str(v, "true")
            || chars_eq_str(v, "yes");
    } else if chars_eq_str(key.as_slice(), "max_history_items") {
        if let Some(n) = parse_usize_chars(s, vlo, vhi) {
            st.max_history_items = n;
        }
    } else if chars_eq_str(key.as_slice(), "visible_history_items") {
        if let Some(n) = parse_usize_chars(s, vlo, vhi) {
            st.visible_history_items = n;
        }
    } else if chars_eq_str(key.as_slice(), "menu_width") {
        if let Some(n) = parse_usize_chars(s, vlo, vhi) {
            st.menu_width = n;
        }
    }
    st
}

/// Reads a settings file. Every line that names a known key with a usable value
/// overrides the default; the result is normalized. This never fails.
pub fn decode_settings(text: &str) -> (out: AppSettings)
    ensures
        out == spec_decode_settings(text@),
        settings_normalized(out),
{
    let chars = chars_of(text);
    let s = chars.as_slice();
    let mut st = AppSettings::default();
    let mut start: usize = 0;
    assert(s@.subrange(0, s@.len() as int) =~= text@);
    loop
        invariant_except_break
            start <= s@.len(),
            s@ == text@,
            apply_lines(default_settings(), text@) == apply_lines(
                st,
                s@.subrange(start as int, s@.len() as int),
            ),
        ensures
            apply_lines(default_settings(), text@) == st,
        decreases s@.len() - start,
    {
        let ghost rest = s@.subrange(start as int, s@.len() as int);
        let nl = find_char(s, start, s.len(), '\n');
        st = apply_line_chars(st, s, start, nl);
        proof {
            assert(rest.take(nl - start) =~= s@.subrange(start as int, nl as int));
        }
        if nl == s.len() {
            break;
        }
        assert(rest.skip(nl - start + 1) =~= s@.subrange(nl + 1, s@.len() as int));
        start = nl + 1;
    }
    normalize_settings(st)
}

/// Appends the line `key=value` and its newline.
fn push_setting_line(out: &mut String, key: &str, value: &str)
    ensures
        final(out)@ == old(out)@ + setting_line(key@, value@),
{
    string_push_str(out, key);
    string_push(out, '=');
    string_push_str(out, value);
    string_push(out, '\n');
    assert(final(out)@ =~= old(out)@ + setting_line(key@, value@));
}

/// Writes the settings file for `settings`, one `key=value` line per field.
pub fn encode_settings(settings: &AppSettings) -> (out: String)
    ensures
        out@ == spec_encode_settings(*settings),
{
    let mut out = String::new();
    let language = match settings.language {
        Language::English => "en",
        Language::Chinese => "zh-CN",
    };
    push_setting_line(&mut out, "language", language);
    let flag = if settings.capture_rich_clipboard {
        "true"
    } else {
        "false"
    };
    push_setting_line(&mut out, "capture_rich_clipboard", flag);
    let n = usize_to_decimal(settings.max_history_items);
    push_setting_line(&mut out, "max_history_items", n.as_str());
    let n = usize_to_decimal(settings.visible_history_items);
    push_setting_line(&mut out, "visible_history_items", n.as_str());
    let n = usize_to_decimal(settings.menu_width);
    push_setting_line(&mut out, "menu_width", n.as_str());
    assert(out@ =~= spec_encode_settings(*settings));
    out
}

// ---------------------------------------------------------------------------
// Reading back a written settings file.
// ---------------------------------------------------------------------------

/// No character of `s` is `c`.
pub open spec fn lacks_char(s: Seq<char>, c: char) -> bool {
    forall|k: int| 0 <= k < s.len() ==> s[k] != c
}

/// `s` neither starts nor ends with white space.
pub open spec fn untrimmed(s: Seq<char>) -> bool {
    s.len() == 0 || (!is_white_space(s[0]) && !is_white_space(s.last()))
}

proof fn lemma_index_of_char_concat(a: Seq<char>, b: Seq<char>, c: char)
    requires
        lacks_char(a, c),
    ensures
        index_of_char(a + b, c) == a.len() + index_of_char(b, c),
    decreases a.len(),
{
    if a.len() > 0 {
        assert((a + b).drop_first() =~= a.drop_first() + b);
        lemma_index_of_char_concat(a.drop_first(), b, c);
    } else {
        assert(a + b =~= b);
    }
}

proof fn lemma_trim_untrimmed(s: Seq<char>)
    requires
        untrimmed(s),
    ensures
        trim(s) == s,
{
    assert(trim_start(s) == s);
    assert(trim_end(s) == s);
}

proof fn lemma_apply_lines_step(st: AppSettings, key: Seq<char>, value: Seq<char>, rest: Seq<char>)
    requires
        lacks_char(key, '='),
        lacks_char(key, '\n'),
        lacks_char(value, '\n'),
        untrimmed(key),
        untrimmed(value),
    ensures
        apply_lines(st, setting_line(key, value) + rest) == apply_lines(
            apply_setting(st, key, value),
            rest,
        ),
{
    let line = key + seq!['='] + value;
    let text = setting_line(key, value) + rest;
    assert(lacks_char(line, '\n')) by {
        assert forall|k: int| 0 <= k < line.len() implies line[k] != '\n' by {
            if k < key.len() {
                assert(line[k] == key[k]);
            } else if k > key.len() {
                assert(line[k] == value[k - key.len() - 1]);
            }
        }
    }
    assert(text =~= line + (seq!['\n'] + rest));
    lemma_index_of_char_concat(line, seq!['\n'] + rest, '\n');
    assert(index_of_char(text, '\n') == line.len());
    assert(text.take(line.len() as int) =~= line);
    assert(text.skip(line.len() + 1int) =~= rest);
    lemma_index_of_char_concat(key, seq!['='] + value, '=');
    assert(line =~= key + (seq!['='] + value));
    assert(index_of_char(line, '=') == key.len());
    assert(line.take(key.len() as int) =~= key);
    assert(line.skip(key.len() + 1int) =~= value);
    lemma_trim_untrimmed(key);
    lemma_trim_untrimmed(value);
}

proof fn lemma_decimal_plain(n: nat)
    ensures
        lacks_char(decimal(n), '\n'),
        untrimmed(decimal(n)),
{
    lemma_decimal_digits(n);
    let d = decimal(n);
    assert forall|k: int| 0 <= k < d.len() implies d[k] != '\n' by {
        assert(is_digit(d[k]));
    }
    assert(is_digit(d[0]));
    assert(is_digit(d.last()));
}

proof fn lemma_key_literals()
    ensures
        lacks_char("language"@, '='),
        lacks_char("language"@, '\n'),
        untrimmed("language"@),
        lacks_char("capture_rich_clipboard"@, '='),
        lacks_char("capture_rich_clipboard"@, '\n'),
        untrimmed("capture_rich_clipboard"@),
        lacks_char("max_history_items"@, '='),
        lacks_char("max_history_items"@, '\n'),
        untrimmed("max_history_items"@),
        lacks_char("visible_history_items"@, '='),
        lacks_char("visible_history_items"@, '\n'),
        untrimmed("visible_history_items"@),
        lacks_char("menu_width"@, '='),
        lacks_char("menu_width"@, '\n'),
        untrimmed("menu_width"@),
        "capture_rich_clipboard"@ != "language"@,
        "max_history_items"@ != "language"@,
        "max_history_items"@ != "capture_rich_clipboard"@,
        "visible_history_items"@ != "language"@,
        "visible_history_items"@ != "capture_rich_clipboard"@,
        "visible_history_items"@ != "max_history_items"@,
        "menu_width"@ != "language"@,
        "menu_width"@ != "capture_rich_clipboard"@,
        "menu_width"@ != "max_history_items"@,
        "menu_width"@ != "visible_history_items"@,
{
    reveal_strlit("language");
    reveal_strlit("capture_rich_clipboard");
    reveal_strlit("max_history_items");
    reveal_strlit("visible_history_items");
    reveal_strlit("menu_width");
}

proof fn lemma_value_literals(l: Language, b: bool)
    ensures
        lacks_char(language_code(l), '\n'),
        untrimmed(language_code(l)),
        language_from_value(language_code(l)) == l,
        lacks_char(bool_text(b), '\n'),
        untrimmed(bool_text(b)),
        flag_from_value(bool_text(b)) == b,
{
    reveal_strlit("en");
    reveal_strlit("zh");
    reveal_strlit("zh-CN");
    reveal_strlit("chinese");
    reveal_strlit("true");
    reveal_strlit("false");
    reveal_strlit("1");
    reveal_strlit("yes");
}

/// Reading back a written settings file gives the normalized settings; for settings
/// that are already normalized, exactly the settings that were written.
#[verifier::spinoff_prover]
#[verifier::rlimit(40)]
pub proof fn lemma_settings_roundtrip(s: AppSettings)
    ensures
        spec_decode_settings(spec_encode_settings(s)) == spec_normalize_settings(s),
        settings_normalized(s) ==> spec_decode_settings(spec_encode_settings(s)) == s,
{
    lemma_key_literals();
    lemma_value_literals(s.language, s.capture_rich_clipboard);
    let k1 = "language"@;
    let k2 = "capture_rich_clipboard"@;
    let k3 = "max_history_items"@;
    let k4 = "visible_history_items"@;
    let k5 = "menu_width"@;
    let v1 = language_code(s.language);
    let v2 = bool_text(s.capture_rich_clipboard);
    let v3 = decimal(s.max_history_items as nat);
    let v4 = decimal(s.visible_history_items as nat);
    let v5 = decimal(s.menu_width as nat);
    lemma_decimal_plain(s.max_history_items as nat);
    lemma_decimal_plain(s.visible_history_items as nat);
    lemma_decimal_plain(s.menu_width as nat);
    lemma_parse_decimal(s.max_history_items);
    lemma_parse_decimal(s.visible_history_items);
    lemma_parse_decimal(s.menu_width);
    let l1 = setting_line(k1, v1);
    let l2 = setting_line(k2, v2);
    let l3 = setting_line(k3, v3);
    let l4 = setting_line(k4, v4);
    let l5 = setting_line(k5, v5);
    let e: Seq<char> = seq![];
    let r4 = l5 + e;
    let r3 = l4 + r4;
    let r2 = l3 + r3;
    let r1 = l2 + r2;
    assert(spec_encode_settings(s) =~= l1 + r1);
    let st0 = default_settings();
    lemma_apply_lines_step(st0, k1, v1, r1);
    let st1 = apply_setting(st0, k1, v1);
    assert(st1 == AppSettings { language: s.language, ..st0 });
    lemma_apply_lines_step(st1, k2, v2, r2);
    let st2 = apply_setting(st1, k2, v2);
    assert(st2 == AppSettings { capture_rich_clipboard: s.capture_rich_clipboard, ..st1 });
    lemma_apply_lines_step(st2, k3, v3, r3);
    let st3 = apply_setting(st2, k3, v3);
    assert(st3 == AppSettings { max_history_items: s.max_history_items, ..st2 });
    lemma_apply_lines_step(st3, k4, v4, r4);
    let st4 = apply_setting(st3, k4, v4);
    assert(st4 == AppSettings { visible_history_items: s.visible_history_items, ..st3 });
    lemma_apply_lines_step(st4, k5, v5, e);
    let st5 = apply_setting(st4, k5, v5);
    assert(st5 == s);
    assert(apply_lines(st5, e) == st5);
}

} // verus!
