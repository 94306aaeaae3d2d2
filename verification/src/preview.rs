use vstd::prelude::*;
use crate::text::{
    chars_of, is_control, is_control_char, is_prefix, is_white_space, is_whitespace_char,
    lowercase, string_from_chars, string_from_range, string_push, string_push_str, strip_char,
    strip_char_bounds, to_lowercase, trim, trim_bounds,
};

verus! {

// ---------------------------------------------------------------------------
// One-line previews.
// ---------------------------------------------------------------------------

/// A character as a preview shows it: control characters and white space become a space.
pub open spec fn preview_char(c: char) -> char {
    if is_control_char(c) || is_white_space(c) {
        ' '
    } else {
        c
    }
}

/// `s` on one line: every control or white-space character becomes a space, and runs
/// of spaces collapse into one.
pub open spec fn collapse_spaces(s: Seq<char>) -> Seq<char>
    decreases s.len(),
{
    if s.len() == 0 {
        seq![]
    } else {
        let o = collapse_spaces(s.drop_last());
        let m = preview_char(s.last());
        if m == ' ' && o.len() > 0 && o.last() == ' ' {
            o
        } else {
            o.push(m)
        }
    }
}

/// The one-line preview of `text` cut to `max_chars` characters (at least one), with
/// `...` after a cut.
pub open spec fn spec_preview(text: Seq<char>, max_chars: nat) -> Seq<char> {
    let c = collapse_spaces(text);
    let n: nat = if max_chars == 0 {
        1
    } else {
        max_chars
    };
    if c.len() >= n {
        c.take(n as int) + "..."@
    } else {
        c
    }
}

/// A collapsed preview never holds two spaces in a row, nor a control or white-space
/// character other than the space.
pub proof fn lemma_collapse_clean(s: Seq<char>)
    ensures
        forall|i: int|
            0 <= i < collapse_spaces(s).len() ==> preview_char(#[trigger] collapse_spaces(s)[i])
                == collapse_spaces(s)[i],
        forall|i: int|
            0 <= i < collapse_spaces(s).len() - 1 ==> !(#[trigger] collapse_spaces(s)[i] == ' '
                && collapse_spaces(s)[i + 1] == ' '),
    decreases s.len(),
{
    if s.len() > 0 {
        lemma_collapse_clean(s.drop_last());
        let o = collapse_spaces(s.drop_last());
        let c = collapse_spaces(s);
        assert forall|i: int| 0 <= i < c.len() implies preview_char(#[trigger] c[i]) == c[i] by {
            if i < o.len() {
                assert(c[i] == o[i]);
            }
        }
        assert forall|i: int| 0 <= i < c.len() - 1 implies !(#[trigger] c[i] == ' ' && c[i + 1]
            == ' ') by {
            if i + 1 < o.len() {
                assert(c[i] == o[i] && c[i + 1] == o[i + 1]);
            } else if i + 1 == o.len() {
                assert(c[i] == o[i]);
            }
        }
    }
}

fn preview_char_exec(c: char) -> (r: char)
    ensures
        r == preview_char(c),
{
    if is_control(c) || is_whitespace_char(c) {
        ' '
    } else {
        c
    }
}

/// `chars` on one line, as [`collapse_spaces`] describes.
fn collapse_chars(chars: &[char]) -> (out: Vec<char>)
    ensures
        out@ == collapse_spaces(chars@),
{
    let mut out: Vec<char> = Vec::new();
    let mut previous_space = false;
    let mut i: usize = 0;
    while i < chars.len()
        invariant
            i <= chars@.len(),
            out@ == collapse_spaces(chars@.take(i as int)),
            previous_space == (out@.len() > 0 && out@.last() == ' '),
        decreases chars@.len() - i,
    {
        let m = preview_char_exec(chars[i]);
        assert(chars@.take(i + 1).drop_last() =~= chars@.take(i as int));
        assert(chars@.take(i + 1).last() == chars@[i as int]);
        if m == ' ' {
            if !previous_space {
                out.push(m);
                previous_space = true;
            }
        } else {
            out.push(m);
            previous_space = false;
        }
        i = i + 1;
    }
    assert(chars@.take(chars@.len() as int) =~= chars@);
    out
}

/// The one-line preview of `text`, cut to `max_chars` characters with `...` after a cut.
pub fn preview(text: &str, max_chars: usize) -> (out: String)
    ensures
        out@ == spec_preview(text@, max_chars as nat),
{
    let chars = chars_of(text);
    let c = collapse_chars(chars.as_slice());
    let n: usize = if max_chars == 0 {
        1
    } else {
        max_chars
    };
    let mut out = String::new();
    let mut i: usize = 0;
    while i < c.len()
        invariant
            i <= c@.len(),
            i < n,
            n == if max_chars == 0 {
                1
            } else {
                max_chars
            },
            c@ == collapse_spaces(text@),
            out@ == c@.take(i as int),
        decreases c@.len() - i,
    {
        string_push(&mut out, c[i]);
        assert(c@.take(i + 1) =~= c@.take(i as int).push(c@[i as int]));
        i = i + 1;
        if i >= n {
            string_push_str(&mut out, "...");
            return out;
        }
    }
    assert(c@.take(i as int) =~= c@);
    out
}

/// The menu preview of `text`: one line, every run of white space a single space.
pub fn normalize_menu_preview(text: &str) -> (out: String)
    ensures
        out@ == collapse_spaces(text@),
{
    let chars = chars_of(text);
    let c = collapse_chars(chars.as_slice());
    string_from_chars(c.as_slice())
}

/// `s` without its trailing spaces.
pub open spec fn strip_trailing_spaces(s: Seq<char>) -> Seq<char>
    decreases s.len(),
{
    if s.len() > 0 && s.last() == ' ' {
        strip_trailing_spaces(s.drop_last())
    } else {
        s
    }
}

/// The first `char_count` characters (all of them when there are fewer) without
/// trailing spaces, then `...`.
pub open spec fn spec_truncated_candidate(chars: Seq<char>, char_count: nat) -> Seq<char> {
    let k = if char_count < chars.len() {
        char_count as int
    } else {
        chars.len() as int
    };
    strip_trailing_spaces(chars.take(k)) + "..."@
}

/// A shortened preview: the first `char_count` characters without trailing spaces, then
/// `...`.
pub fn truncated_candidate(chars: &[char], char_count: usize) -> (out: String)
    ensures
        out@ == spec_truncated_candidate(chars@, char_count as nat),
{
    let mut k = if char_count < chars.len() {
        char_count
    } else {
        chars.len()
    };
    let ghost full = chars@.take(k as int);
    while k > 0 && chars[k - 1] == ' '
        invariant
            k <= chars@.len(),
            strip_trailing_spaces(full) == strip_trailing_spaces(chars@.take(k as int)),
        decreases k,
    {
        assert(chars@.take(k as int).drop_last() =~= chars@.take(k - 1));
        k = k - 1;
    }
    let mut out = String::new();
    let mut i: usize = 0;
    while i < k
        invariant
            i <= k <= chars@.len(),
            out@ == chars@.take(i as int),
        decreases k - i,
    {
        string_push(&mut out, chars[i]);
        assert(chars@.take(i + 1) =~= chars@.take(i as int).push(chars@[i as int]));
        i = i + 1;
    }
    string_push_str(&mut out, "...");
    out
}

/// The form in which history search compares text: lower case, on one line with single
/// spaces, trimmed.
pub open spec fn spec_normalize_search_text(text: Seq<char>) -> Seq<char> {
    trim(collapse_spaces(lowercase(text)))
}

/// Brings text into the form in which history search compares it.
pub fn normalize_search_text(text: &str) -> (out: String)
    ensures
        out@ == spec_normalize_search_text(text@),
{
    let lower = to_lowercase(text);
    let chars = chars_of(lower.as_str());
    let c = collapse_chars(chars.as_slice());
    let (lo, hi) = trim_bounds(c.as_slice(), 0, c.len());
    assert(c@.subrange(0, c@.len() as int) =~= c@);
    let mut out = String::new();
    let mut i = lo;
    while i < hi
        invariant
            lo <= i <= hi <= c@.len(),
            out@ == c@.subrange(lo as int, i as int),
        decreases hi - i,
    {
        string_push(&mut out, c[i]);
        assert(c@.subrange(lo as int, i + 1) =~= c@.subrange(lo as int, i as int).push(c@[i as int]));
        i = i + 1;
    }
    out
}

// ---------------------------------------------------------------------------
// Clipboard text clean-up.
// ---------------------------------------------------------------------------

/// Removes NUL characters from both ends of clipboard text, where some applications
/// pad it.
pub fn normalize_clipboard_text(text: String) -> (out: String)
    ensures
        out@ == strip_char(text@, '\0'),
{
    let chars = chars_of(text.as_str());
    let (lo, hi) = strip_char_bounds(chars.as_slice(), '\0');
    string_from_range(chars.as_slice(), lo, hi)
}

/// A preview shows at most `max_chars` characters of the text (at least one), plus the
/// three dots of a cut.
pub proof fn lemma_preview_len(text: Seq<char>, max_chars: nat)
    ensures
        spec_preview(text, max_chars).len() <= (if max_chars == 0 {
            1
        } else {
            max_chars
        }) + 3,
        spec_preview(text, max_chars).len() <= text.len() + 3,
{
    reveal_strlit("...");
    lemma_collapse_len(text);
}

/// Collapsing never lengthens text.
pub proof fn lemma_collapse_len(s: Seq<char>)
    ensures
        collapse_spaces(s).len() <= s.len(),
    decreases s.len(),
{
    if s.len() > 0 {
        lemma_collapse_len(s.drop_last());
    }
}

} // verus!
