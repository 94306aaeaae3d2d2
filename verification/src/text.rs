use vstd::prelude::*;
use vstd::utf8::*;

verus! {

// ---------------------------------------------------------------------------
// Building strings and reading their characters.
// ---------------------------------------------------------------------------

/// Appends one character to a `String`.
///
/// Calls `String::push`, which std documents as appending the given `char`
/// to the end of the string; the contract claims exactly that.
#[verifier::external_body]
pub(crate) fn string_push(s: &mut String, c: char)
    ensures
        final(s)@ == old(s)@.push(c),
{
    s.push(c);
}

/// Appends a string slice to a `String`.
///
/// Calls `String::push_str`, which std documents as appending the given
/// slice to the end of the string; the contract claims exactly that.
#[verifier::external_body]
pub(crate) fn string_push_str(s: &mut String, t: &str)
    ensures
        final(s)@ == old(s)@ + t@,
{
    s.push_str(t);
}

/// The characters of `s`, in order.
pub fn chars_of(s: &str) -> (out: Vec<char>)
    ensures
        out@ == s@,
{
    let mut out: Vec<char> = Vec::new();
    for c in it: s.chars()
        invariant
            out@ == it.seq().take(it.index() as int),
            it.seq() == s@,
    {
        out.push(c);
    }
    out
}

/// A `String` holding exactly the characters of `chars`.
pub fn string_from_chars(chars: &[char]) -> (out: String)
    ensures
        out@ == chars@,
{
    let mut out = String::new();
    let mut i: usize = 0;
    while i < chars.len()
        invariant
            i <= chars@.len(),
            out@ == chars@.take(i as int),
        decreases chars@.len() - i,
    {
        string_push(&mut out, chars[i]);
        assert(chars@.take(i + 1) == chars@.take(i as int).push(chars@[i as int]));
        i = i + 1;
    }
    assert(chars@.take(chars@.len() as int) == chars@);
    out
}

/// Whether two character slices hold the same characters.
pub fn chars_eq(a: &[char], b: &[char]) -> (r: bool)
    ensures
        r == (a@ == b@),
{
    if a.len() != b.len() {
        return false;
    }
    let mut i: usize = 0;
    while i < a.len()
        invariant
            i <= a@.len(),
            a@.len() == b@.len(),
            forall|k: int| 0 <= k < i ==> a@[k] == b@[k],
        decreases a@.len() - i,
    {
        if a[i] != b[i] {
            return false;
        }
        i = i + 1;
    }
    assert(a@ =~= b@);
    true
}

/// Whether a character slice holds exactly the characters of `s`.
pub fn chars_eq_str(a: &[char], s: &str) -> (r: bool)
    ensures
        r == (a@ == s@),
{
    let b = chars_of(s);
    chars_eq(a, b.as_slice())
}

/// The characters `s[start..end]`.
pub fn chars_range(s: &[char], start: usize, end: usize) -> (out: Vec<char>)
    requires
        start <= end <= s@.len(),
    ensures
        out@ == s@.subrange(start as int, end as int),
{
    let mut out: Vec<char> = Vec::new();
    let mut i = start;
    while i < end
        invariant
            start <= i <= end <= s@.len(),
            out@ == s@.subrange(start as int, i as int),
        decreases end - i,
    {
        out.push(s[i]);
        assert(s@.subrange(start as int, i + 1) == s@.subrange(start as int, i as int).push(
            s@[i as int],
        ));
        i = i + 1;
    }
    out
}

// ---------------------------------------------------------------------------
// Character classes.
// ---------------------------------------------------------------------------

/// Unicode `White_Space`, the property that `char::is_whitespace` tests.
pub open spec fn is_white_space(c: char) -> bool {
    ||| '\u{9}' <= c <= '\u{d}'
    ||| c == ' '
    ||| c == '\u{85}'
    ||| c == '\u{a0}'
    ||| c == '\u{1680}'
    ||| '\u{2000}' <= c <= '\u{200a}'
    ||| c == '\u{2028}'
    ||| c == '\u{2029}'
    ||| c == '\u{202f}'
    ||| c == '\u{205f}'
    ||| c == '\u{3000}'
}

/// Whether `c` is Unicode white space.
pub fn is_whitespace_char(c: char) -> (r: bool)
    ensures
        r == is_white_space(c),
{
    ('\u{9}' <= c && c <= '\u{d}') || c == ' ' || c == '\u{85}' || c == '\u{a0}' || c
        == '\u{1680}' || ('\u{2000}' <= c && c <= '\u{200a}') || c == '\u{2028}' || c == '\u{2029}'
        || c == '\u{202f}' || c == '\u{205f}' || c == '\u{3000}'
}

/// Unicode general category `Cc`, the property that `char::is_control` tests.
pub open spec fn is_control_char(c: char) -> bool {
    c <= '\u{1f}' || ('\u{7f}' <= c && c <= '\u{9f}')
}

/// Whether `c` is a control character.
pub fn is_control(c: char) -> (r: bool)
    ensures
        r == is_control_char(c),
{
    c <= '\u{1f}' || ('\u{7f}' <= c && c <= '\u{9f}')
}

/// An ASCII decimal digit.
pub open spec fn is_digit(c: char) -> bool {
    '0' <= c <= '9'
}

/// The value of an ASCII decimal digit.
pub open spec fn digit_value(c: char) -> nat {
    (c as u32 - '0' as u32) as nat
}

/// The digit character for `d < 10`.
pub open spec fn digit_char(d: nat) -> char {
    if d == 0 {
        '0'
    } else if d == 1 {
        '1'
    } else if d == 2 {
        '2'
    } else if d == 3 {
        '3'
    } else if d == 4 {
        '4'
    } else if d == 5 {
        '5'
    } else if d == 6 {
        '6'
    } else if d == 7 {
        '7'
    } else if d == 8 {
        '8'
    } else {
        '9'
    }
}

proof fn lemma_digit_char(d: nat)
    requires
        d < 10,
    ensures
        is_digit(digit_char(d)),
        digit_value(digit_char(d)) == d,
        digit_char(d) != '+',
{
}

// ---------------------------------------------------------------------------
// Trimming white space.
// ---------------------------------------------------------------------------

/// `s` without its leading white space.
pub open spec fn trim_start(s: Seq<char>) -> Seq<char>
    decreases s.len(),
{
    if s.len() > 0 && is_white_space(s[0]) {
        trim_start(s.drop_first())
    } else {
        s
    }
}

/// `s` without its trailing white space.
pub open spec fn trim_end(s: Seq<char>) -> Seq<char>
    decreases s.len(),
{
    if s.len() > 0 && is_white_space(s.last()) {
        trim_end(s.drop_last())
    } else {
        s
    }
}

/// `s` without leading and trailing white space, as `str::trim` gives it.
pub open spec fn trim(s: Seq<char>) -> Seq<char> {
    trim_end(trim_start(s))
}

proof fn lemma_trim_start_skip(s: Seq<char>, i: int)
    requires
        0 <= i <= s.len(),
        forall|k: int| 0 <= k < i ==> is_white_space(#[trigger] s[k]),
    ensures
        trim_start(s) == trim_start(s.skip(i)),
    decreases i,
{
    if i > 0 {
        assert(s.drop_first().skip(i - 1) =~= s.skip(i));
        lemma_trim_start_skip(s.drop_first(), i - 1);
    } else {
        assert(s.skip(0) =~= s);
    }
}

proof fn lemma_trim_end_take(s: Seq<char>, j: int)
    requires
        0 <= j <= s.len(),
        forall|k: int| j <= k < s.len() ==> is_white_space(#[trigger] s[k]),
    ensures
        trim_end(s) == trim_end(s.take(j)),
    decreases s.len() - j,
{
    if j < s.len() {
        assert(s.drop_last().take(j) =~= s.take(j));
        lemma_trim_end_take(s.drop_last(), j);
    } else {
        assert(s.take(j) =~= s);
    }
}

/// The bounds `[start, end)` of `s` once leading and trailing white space is dropped.
pub fn trim_bounds(s: &[char], lo: usize, hi: usize) -> (r: (usize, usize))
    requires
        lo <= hi <= s@.len(),
    ensures
        lo <= r.0 <= r.1 <= hi,
        s@.subrange(r.0 as int, r.1 as int) == trim(s@.subrange(lo as int, hi as int)),
{
    let ghost t = s@.subrange(lo as int, hi as int);
    let mut i = lo;
    while i < hi && is_whitespace_char(s[i])
        invariant
            lo <= i <= hi <= s@.len(),
            t == s@.subrange(lo as int, hi as int),
            forall|k: int| lo <= k < i ==> is_white_space(#[trigger] s@[k]),
        decreases hi - i,
    {
        i = i + 1;
    }
    proof {
        assert forall|k: int| 0 <= k < i - lo implies is_white_space(#[trigger] t[k]) by {
            assert(t[k] == s@[lo + k]);
        }
        lemma_trim_start_skip(t, i - lo);
        assert(t.skip(i - lo) =~= s@.subrange(i as int, hi as int));
        if i < hi {
            assert(!is_white_space(s@.subrange(i as int, hi as int)[0]));
        }
    }
    let ghost u = s@.subrange(i as int, hi as int);
    assert(trim_start(t) == u);
    let mut j = hi;
    while j > i && is_whitespace_char(s[j - 1])
        invariant
            lo <= i <= j <= hi <= s@.len(),
            u == s@.subrange(i as int, hi as int),
            forall|k: int| j <= k < hi ==> is_white_space(#[trigger] s@[k]),
        decreases j - i,
    {
        j = j - 1;
    }
    proof {
        assert forall|k: int| j - i <= k < u.len() implies is_white_space(#[trigger] u[k]) by {
            assert(u[k] == s@[i + k]);
        }
        lemma_trim_end_take(u, j - i);
        assert(u.take(j - i) =~= s@.subrange(i as int, j as int));
        if j > i {
            assert(s@.subrange(i as int, j as int).last() == s@[j - 1]);
        }
    }
    (i, j)
}

// ---------------------------------------------------------------------------
// Decimal numbers.
// ---------------------------------------------------------------------------

/// Whether every character of `s` is an ASCII digit.
pub open spec fn all_digits(s: Seq<char>) -> bool {
    forall|i: int| 0 <= i < s.len() ==> is_digit(#[trigger] s[i])
}

/// The number that the digits `s` spell, most significant first.
pub open spec fn digits_value(s: Seq<char>) -> nat
    decreases s.len(),
{
    if s.len() == 0 {
        0
    } else {
        digits_value(s.drop_last()) * 10 + digit_value(s.last())
    }
}

/// What `str::parse::<usize>` accepts and yields: an optional `+`, then one or more
/// ASCII digits whose value fits in `usize`.
pub open spec fn parse_usize_spec(s: Seq<char>) -> Option<usize> {
    let d = if s.len() > 0 && s[0] == '+' {
        s.drop_first()
    } else {
        s
    };
    if d.len() > 0 && all_digits(d) && digits_value(d) <= usize::MAX {
        Some(digits_value(d) as usize)
    } else {
        None
    }
}

/// What `str::parse::<u64>` accepts and yields.
pub open spec fn parse_u64_spec(s: Seq<char>) -> Option<u64> {
    let d = if s.len() > 0 && s[0] == '+' {
        s.drop_first()
    } else {
        s
    };
    if d.len() > 0 && all_digits(d) && digits_value(d) <= u64::MAX {
        Some(digits_value(d) as u64)
    } else {
        None
    }
}

proof fn lemma_digits_value_prefix(s: Seq<char>, k: int)
    requires
        0 <= k <= s.len(),
    ensures
        digits_value(s.take(k)) <= digits_value(s),
    decreases s.len() - k,
{
    if k < s.len() {
        assert(s.drop_last().take(k) =~= s.take(k));
        lemma_digits_value_prefix(s.drop_last(), k);
    } else {
        assert(s.take(k) =~= s);
    }
}

/// The value of the digits `s[lo..hi]`, if they are all digits and the value fits under
/// `bound`.
fn digits_in(s: &[char], lo: usize, hi: usize, bound: u64) -> (r: Option<u64>)
    requires
        lo <= hi <= s@.len(),
        9 <= bound,
    ensures
        ({
            let d = s@.subrange(lo as int, hi as int);
            r == if all_digits(d) && digits_value(d) <= bound {
                Some(digits_value(d) as u64)
            } else {
                None::<u64>
            }
        }),
{
    let ghost d = s@.subrange(lo as int, hi as int);
    let mut acc: u64 = 0;
    let mut i = lo;
    while i < hi
        invariant
            lo <= i <= hi <= s@.len(),
            d == s@.subrange(lo as int, hi as int),
            all_digits(d.take(i - lo)),
            acc == digits_value(d.take(i - lo)),
            acc <= bound,
            9 <= bound,
        decreases hi - i,
    {
        let c = s[i];
        assert(d[i - lo] == c);
        assert(d.take(i - lo + 1).drop_last() =~= d.take(i - lo));
        if !('0' <= c && c <= '9') {
            assert(!all_digits(d)) by {
                assert(!is_digit(d[i - lo]));
            }
            return None;
        }
        let digit = (c as u32 - '0' as u32) as u64;
        assert(digit == digit_value(c));
        if acc > (bound - digit) / 10 {
            proof {
                assert(acc * 10 + digit > bound) by (nonlinear_arith)
                    requires
                        acc > (bound - digit) / 10,
                        digit <= bound,
                ;
                assert(digits_value(d.take(i - lo + 1)) == acc * 10 + digit);
                lemma_digits_value_prefix(d, i - lo + 1);
            }
            return None;
        }
        assert(acc * 10 + digit <= bound) by (nonlinear_arith)
            requires
                acc <= (bound - digit) / 10,
                digit <= bound,
        ;
        acc = acc * 10 + digit;
        i = i + 1;
        assert(all_digits(d.take(i - lo))) by {
            assert forall|k: int| 0 <= k < i - lo implies is_digit(#[trigger] d.take(i - lo)[k]) by {
                if k < i - lo - 1 {
                    assert(d.take(i - lo)[k] == d.take(i - lo - 1)[k]);
                }
            }
        }
    }
    assert(d.take(hi - lo) =~= d);
    Some(acc)
}

/// Parses `s[lo..hi]` as `str::parse::<usize>` does.
pub fn parse_usize_chars(s: &[char], lo: usize, hi: usize) -> (r: Option<usize>)
    requires
        lo <= hi <= s@.len(),
    ensures
        r == parse_usize_spec(s@.subrange(lo as int, hi as int)),
{
    let ghost t = s@.subrange(lo as int, hi as int);
    let mut start = lo;
    if lo < hi && s[lo] == '+' {
        start = lo + 1;
    }
    assert(start > lo ==> t.drop_first() =~= s@.subrange(start as int, hi as int));
    assert(start == lo ==> t =~= s@.subrange(start as int, hi as int));
    if start == hi {
        return None;
    }
    match digits_in(s, start, hi, usize::MAX as u64) {
        Some(v) => Some(v as usize),
        None => None,
    }
}

/// Parses `s[lo..hi]` as `str::parse::<u64>` does.
pub fn parse_u64_chars(s: &[char], lo: usize, hi: usize) -> (r: Option<u64>)
    requires
        lo <= hi <= s@.len(),
    ensures
        r == parse_u64_spec(s@.subrange(lo as int, hi as int)),
{
    let ghost t = s@.subrange(lo as int, hi as int);
    let mut start = lo;
    if lo < hi && s[lo] == '+' {
        start = lo + 1;
    }
    assert(start > lo ==> t.drop_first() =~= s@.subrange(start as int, hi as int));
    assert(start == lo ==> t =~= s@.subrange(start as int, hi as int));
    if start == hi {
        return None;
    }
    digits_in(s, start, hi, u64::MAX)
}

/// The decimal digits of `n`, most significant first, without leading zeros.
pub open spec fn decimal(n: nat) -> Seq<char>
    decreases n,
{
    if n < 10 {
        seq![digit_char(n)]
    } else {
        decimal(n / 10).push(digit_char(n % 10))
    }
}

/// The decimal spelling of a number reads back as that number.
pub proof fn lemma_decimal_digits(n: nat)
    ensures
        decimal(n).len() > 0,
        all_digits(decimal(n)),
        digits_value(decimal(n)) == n,
        decimal(n)[0] != '+',
    decreases n,
{
    lemma_digit_char(n % 10);
    if n < 10 {
        assert(decimal(n).drop_last() =~= Seq::<char>::empty());
        assert(digits_value(decimal(n)) == digits_value(decimal(n).drop_last()) * 10
            + digit_value(decimal(n).last()));
    } else {
        assert(n == (n / 10) * 10 + n % 10);
        lemma_decimal_digits(n / 10);
        let d = decimal(n);
        assert(d.drop_last() =~= decimal(n / 10));
        assert(d.last() == digit_char(n % 10));
        assert(digits_value(d) == digits_value(decimal(n / 10)) * 10 + digit_value(d.last()));
        assert forall|i: int| 0 <= i < d.len() implies is_digit(#[trigger] d[i]) by {
            if i < d.len() - 1 {
                assert(d[i] == decimal(n / 10)[i]);
            }
        }
    }
}

/// Parsing the decimal spelling of `n` gives back `n`.
pub proof fn lemma_parse_decimal(n: usize)
    ensures
        parse_usize_spec(decimal(n as nat)) == Some(n),
{
    lemma_decimal_digits(n as nat);
}

/// Appends the decimal spelling of `m`.
fn push_decimal(out: &mut String, m: usize)
    ensures
        final(out)@ == old(out)@ + decimal(m as nat),
    decreases m,
{
    if m >= 10 {
        push_decimal(out, m / 10);
    }
    let c = char_of_digit((m % 10) as u32);
    string_push(out, c);
    proof {
        if m >= 10 {
            assert(decimal(m as nat) == decimal((m / 10) as nat).push(digit_char((m % 10) as nat)));
        } else {
            assert(decimal(m as nat) == seq![digit_char(m as nat)]);
        }
    }
    assert(final(out)@ =~= old(out)@ + decimal(m as nat));
}

/// The decimal spelling of `n`, as `usize`'s `Display` writes it.
pub fn usize_to_decimal(n: usize) -> (out: String)
    ensures
        out@ == decimal(n as nat),
{
    let mut out = String::new();
    push_decimal(&mut out, n);
    assert(out@ =~= decimal(n as nat));
    out
}

/// The character for a digit `d < 10`.
fn char_of_digit(d: u32) -> (c: char)
    requires
        d < 10,
    ensures
        c == digit_char(d as nat),
{
    if d == 0 { '0' }
    else if d == 1 { '1' }
    else if d == 2 { '2' }
    else if d == 3 { '3' }
    else if d == 4 { '4' }
    else if d == 5 { '5' }
    else if d == 6 { '6' }
    else if d == 7 { '7' }
    else if d == 8 { '8' }
    else { '9' }
}

// ---------------------------------------------------------------------------
// Substrings.
// ---------------------------------------------------------------------------

/// Whether `needle` occurs in `hay` starting at position `i`.
pub open spec fn occurs_at(hay: Seq<char>, needle: Seq<char>, i: int) -> bool {
    0 <= i && i + needle.len() <= hay.len() && hay.subrange(i, i + needle.len()) == needle
}

/// Whether `needle` occurs somewhere in `hay`, as `str::contains` tests.
pub open spec fn contains_sub(hay: Seq<char>, needle: Seq<char>) -> bool {
    exists|i: int| #[trigger] occurs_at(hay, needle, i)
}

/// Whether `needle` occurs in `hay` at position `i`.
fn occurs_at_exec(hay: &[char], needle: &[char], i: usize) -> (r: bool)
    requires
        i + needle@.len() <= hay@.len(),
    ensures
        r == occurs_at(hay@, needle@, i as int),
{
    let n = hay.len();
    let mut k: usize = 0;
    while k < needle.len()
        invariant
            n == hay@.len(),
            k <= needle@.len(),
            i + needle@.len() <= hay@.len(),
            forall|m: int| 0 <= m < k ==> hay@[i + m] == needle@[m],
        decreases needle@.len() - k,
    {
        assert(i + k < hay@.len());
        if hay[i + k] != needle[k] {
            assert(hay@.subrange(i as int, i + needle@.len())[k as int] != needle@[k as int]);
            return false;
        }
        k = k + 1;
    }
    assert(hay@.subrange(i as int, i + needle@.len()) =~= needle@);
    true
}

/// Whether `needle` occurs in `hay`.
pub fn contains_chars(hay: &[char], needle: &[char]) -> (r: bool)
    ensures
        r == contains_sub(hay@, needle@),
{
    if needle.len() > hay.len() {
        assert forall|i: int| !#[trigger] occurs_at(hay@, needle@, i) by {}
        return false;
    }
    if needle.len() == 0 {
        assert(hay@.subrange(0, 0) =~= needle@);
        assert(occurs_at(hay@, needle@, 0));
        return true;
    }
    let n = hay.len();
    let last = n - needle.len();
    let mut i: usize = 0;
    while i <= last
        invariant
            n == hay@.len(),
            needle@.len() >= 1,
            last + needle@.len() == hay@.len(),
            i <= last + 1,
            forall|k: int| 0 <= k < i ==> !#[trigger] occurs_at(hay@, needle@, k),
        decreases last + 1 - i,
    {
        if occurs_at_exec(hay, needle, i) {
            return true;
        }
        i = i + 1;
    }
    assert forall|k: int| !#[trigger] occurs_at(hay@, needle@, k) by {
        if 0 <= k < i {
        }
    }
    false
}

/// Whether the text `needle` occurs in `hay`.
pub fn contains_str(hay: &[char], needle: &str) -> (r: bool)
    ensures
        r == contains_sub(hay@, needle@),
{
    let n = chars_of(needle);
    contains_chars(hay, n.as_slice())
}

// ---------------------------------------------------------------------------
// ASCII case.
// ---------------------------------------------------------------------------

/// `c` with ASCII upper case letters turned to lower case, as `char::to_ascii_lowercase`.
pub open spec fn ascii_lower_char(c: char) -> char {
    if 'A' <= c <= 'Z' {
        ((c as u32) + 32) as char
    } else {
        c
    }
}

/// `s` with every ASCII upper case letter turned to lower case.
pub open spec fn ascii_lowercase(s: Seq<char>) -> Seq<char> {
    s.map_values(|c: char| ascii_lower_char(c))
}

fn ascii_lower_exec(c: char) -> (r: char)
    ensures
        r == ascii_lower_char(c),
{
    if 'A' <= c && c <= 'Z' {
        let b = (c as u32) + 32;
        assert(0x61 <= b <= 0x7a);
        char_from_ascii(b)
    } else {
        c
    }
}

/// The character with the code `b`, for an ASCII lower case letter.
fn char_from_ascii(b: u32) -> (c: char)
    requires
        0x61 <= b <= 0x7a,
    ensures
        c == b as char,
{
    let c = (b as u8) as char;
    assert(c as u32 == b);
    c
}

/// The characters of `s[lo..hi]` with ASCII letters in lower case.
pub fn ascii_lowercase_chars(s: &[char], lo: usize, hi: usize) -> (out: Vec<char>)
    requires
        lo <= hi <= s@.len(),
    ensures
        out@ == ascii_lowercase(s@.subrange(lo as int, hi as int)),
{
    let mut out: Vec<char> = Vec::new();
    let mut i = lo;
    while i < hi
        invariant
            lo <= i <= hi <= s@.len(),
            out@ == ascii_lowercase(s@.subrange(lo as int, i as int)),
        decreases hi - i,
    {
        out.push(ascii_lower_exec(s[i]));
        assert(ascii_lowercase(s@.subrange(lo as int, i + 1)) =~= ascii_lowercase(
            s@.subrange(lo as int, i as int),
        ).push(ascii_lower_char(s@[i as int])));
        i = i + 1;
    }
    out
}

// ---------------------------------------------------------------------------
// UTF-8 length.
// ---------------------------------------------------------------------------

/// The number of UTF-8 bytes of `s`, which is what `str::len` counts.
pub open spec fn utf8_len(s: Seq<char>) -> nat {
    encode_utf8(s).len()
}

/// UTF-8 encoding distributes over appending a character.
pub proof fn lemma_encode_utf8_push(s: Seq<char>, c: char)
    ensures
        encode_utf8(s.push(c)) == encode_utf8(s) + encode_scalar(c as u32),
    decreases s.len(),
{
    if s.len() == 0 {
        assert(s.push(c).drop_first() =~= Seq::<char>::empty());
        assert(encode_utf8(Seq::<char>::empty()) =~= Seq::<u8>::empty());
        assert(s.push(c)[0] == c);
        assert(encode_utf8(s.push(c)) =~= encode_scalar(c as u32));
    } else {
        assert(s.push(c).drop_first() =~= s.drop_first().push(c));
        lemma_encode_utf8_push(s.drop_first(), c);
        assert(encode_utf8(s.push(c)) =~= encode_utf8(s) + encode_scalar(c as u32));
    }
}

/// The number of UTF-8 bytes of one character.
pub fn char_utf8_len(c: char) -> (r: usize)
    ensures
        r == encode_scalar(c as u32).len(),
        1 <= r <= 4,
{
    let v = c as u32;
    proof {
        char_is_scalar(c);
    }
    if v < 0x80 {
        1
    } else if v < 0x800 {
        2
    } else if v < 0x10000 {
        3
    } else {
        4
    }
}

/// The UTF-8 length of `s[lo..hi]`, counted up to a little past `cap`: the exact length
/// when it is at most `cap`, and some number above `cap` otherwise.
pub fn utf8_len_capped(s: &[char], lo: usize, hi: usize, cap: usize) -> (r: usize)
    requires
        lo <= hi <= s@.len(),
        cap <= usize::MAX - 4,
    ensures
        r <= cap ==> r == utf8_len(s@.subrange(lo as int, hi as int)),
        r > cap ==> utf8_len(s@.subrange(lo as int, hi as int)) > cap,
{
    let mut n: usize = 0;
    let mut i = lo;
    while i < hi
        invariant
            lo <= i <= hi <= s@.len(),
            cap <= usize::MAX - 4,
            n <= cap,
            n == utf8_len(s@.subrange(lo as int, i as int)),
        decreases hi - i,
    {
        proof {
            assert(s@.subrange(lo as int, i + 1) =~= s@.subrange(lo as int, i as int).push(s@[i as int]));
            lemma_encode_utf8_push(s@.subrange(lo as int, i as int), s@[i as int]);
        }
        n = n + char_utf8_len(s[i]);
        i = i + 1;
        if n > cap {
            proof {
                lemma_utf8_len_prefix(s@.subrange(lo as int, hi as int), i - lo);
                assert(s@.subrange(lo as int, hi as int).take(i - lo) =~= s@.subrange(lo as int, i as int));
            }
            return n;
        }
    }
    n
}

/// A prefix has no more UTF-8 bytes than the whole.
pub proof fn lemma_utf8_len_prefix(s: Seq<char>, k: int)
    requires
        0 <= k <= s.len(),
    ensures
        utf8_len(s.take(k)) <= utf8_len(s),
    decreases s.len() - k,
{
    if k < s.len() {
        lemma_utf8_len_prefix(s, k + 1);
        assert(s.take(k + 1) =~= s.take(k).push(s[k]));
        lemma_encode_utf8_push(s.take(k), s[k]);
    } else {
        assert(s.take(k) =~= s);
    }
}

// ---------------------------------------------------------------------------
// Comparing and building text.
// ---------------------------------------------------------------------------

/// Whether two strings hold the same text.
pub fn str_eq(a: &str, b: &str) -> (r: bool)
    ensures
        r == (a@ == b@),
{
    let x = chars_of(a);
    chars_eq_str(x.as_slice(), b)
}

/// Whether `p` is a prefix of `s`.
pub open spec fn is_prefix(p: Seq<char>, s: Seq<char>) -> bool {
    p.len() <= s.len() && s.take(p.len() as int) == p
}

/// Whether `s` starts with the characters `p`.
pub fn starts_with_chars(s: &[char], p: &[char]) -> (r: bool)
    ensures
        r == is_prefix(p@, s@),
{
    if p.len() > s.len() {
        return false;
    }
    let mut i: usize = 0;
    while i < p.len()
        invariant
            i <= p@.len() <= s@.len(),
            forall|k: int| 0 <= k < i ==> s@[k] == p@[k],
        decreases p@.len() - i,
    {
        if s[i] != p[i] {
            assert(s@.take(p@.len() as int)[i as int] != p@[i as int]);
            return false;
        }
        i = i + 1;
    }
    assert(s@.take(p@.len() as int) =~= p@);
    true
}

/// Whether `s` starts with the text `p`.
pub fn starts_with_str(s: &[char], p: &str) -> (r: bool)
    ensures
        r == is_prefix(p@, s@),
{
    let q = chars_of(p);
    starts_with_chars(s, q.as_slice())
}

/// The Unicode lower-case form of a text, as `str::to_lowercase` gives it.
pub uninterp spec fn lowercase(s: Seq<char>) -> Seq<char>;

/// Lower-cases text by calling `str::to_lowercase`.
///
/// The contract names the result `lowercase(s)`: std maps every character through
/// Unicode's lower-case tables (with the context rule for a final sigma), which depends
/// on the text alone. Nothing more is claimed of it.
#[verifier::external_body]
pub(crate) fn to_lowercase(s: &str) -> (r: String)
    ensures
        r@ == lowercase(s@),
{
    s.to_lowercase()
}

// ---------------------------------------------------------------------------
// Stripping a character from both ends.
// ---------------------------------------------------------------------------

/// `s` without the copies of `c` at its start.
pub open spec fn strip_char_start(s: Seq<char>, c: char) -> Seq<char>
    decreases s.len(),
{
    if s.len() > 0 && s[0] == c {
        strip_char_start(s.drop_first(), c)
    } else {
        s
    }
}

/// `s` without the copies of `c` at its end.
pub open spec fn strip_char_end(s: Seq<char>, c: char) -> Seq<char>
    decreases s.len(),
{
    if s.len() > 0 && s.last() == c {
        strip_char_end(s.drop_last(), c)
    } else {
        s
    }
}

/// `s` without the copies of `c` at either end, as `str::trim_matches(c)` gives it.
pub open spec fn strip_char(s: Seq<char>, c: char) -> Seq<char> {
    strip_char_end(strip_char_start(s, c), c)
}

/// The bounds `[lo, hi)` of `s` once the copies of `c` at either end are dropped.
pub fn strip_char_bounds(s: &[char], c: char) -> (r: (usize, usize))
    ensures
        r.0 <= r.1 <= s@.len(),
        s@.subrange(r.0 as int, r.1 as int) == strip_char(s@, c),
{
    let ghost t = s@;
    let mut lo: usize = 0;
    assert(t.skip(0) =~= t);
    while lo < s.len() && s[lo] == c
        invariant
            lo <= t.len(),
            t == s@,
            strip_char_start(t, c) == strip_char_start(t.skip(lo as int), c),
        decreases t.len() - lo,
    {
        assert(t.skip(lo as int).drop_first() =~= t.skip(lo + 1));
        lo = lo + 1;
    }
    let ghost u = t.skip(lo as int);
    assert(strip_char_start(t, c) == u);
    let mut hi = s.len();
    assert(u.take(u.len() as int) =~= u);
    while hi > lo && s[hi - 1] == c
        invariant
            lo <= hi <= t.len(),
            t == s@,
            u == t.skip(lo as int),
            strip_char_end(u, c) == strip_char_end(u.take(hi - lo), c),
        decreases hi,
    {
        assert(u.take(hi - lo).drop_last() =~= u.take(hi - lo - 1));
        hi = hi - 1;
    }
    assert(u.take(hi - lo) =~= t.subrange(lo as int, hi as int));
    (lo, hi)
}

/// The characters `s[lo..hi]` as a `String`.
pub fn string_from_range(s: &[char], lo: usize, hi: usize) -> (out: String)
    requires
        lo <= hi <= s@.len(),
    ensures
        out@ == s@.subrange(lo as int, hi as int),
{
    let mut out = String::new();
    let mut i = lo;
    while i < hi
        invariant
            lo <= i <= hi <= s@.len(),
            out@ == s@.subrange(lo as int, i as int),
        decreases hi - i,
    {
        string_push(&mut out, s[i]);
        assert(s@.subrange(lo as int, i + 1) =~= s@.subrange(lo as int, i as int).push(s@[i as int]));
        i = i + 1;
    }
    out
}

// ---------------------------------------------------------------------------
// Finding and replacing.
// ---------------------------------------------------------------------------

/// The position of the first occurrence of `p` in `s`, or `-1` when there is none, as
/// `str::find` gives it (counted in characters).
pub open spec fn find_sub(s: Seq<char>, p: Seq<char>) -> int
    decreases s.len(),
{
    if p.len() > s.len() {
        -1
    } else if s.take(p.len() as int) == p {
        0
    } else if s.len() == 0 {
        -1
    } else {
        let r = find_sub(s.drop_first(), p);
        if r < 0 {
            -1
        } else {
            r + 1
        }
    }
}

/// What `find_sub` promises: the first occurrence, or none at all.
pub proof fn lemma_find_sub(s: Seq<char>, p: Seq<char>)
    ensures
        -1 <= find_sub(s, p) <= s.len() - p.len() || find_sub(s, p) == -1,
        find_sub(s, p) >= 0 ==> occurs_at(s, p, find_sub(s, p)),
        forall|k: int| 0 <= k && (k < find_sub(s, p) || find_sub(s, p) < 0) ==> !#[trigger] occurs_at(s, p, k),
    decreases s.len(),
{
    if p.len() > s.len() {
    } else if s.take(p.len() as int) == p {
        assert(s.subrange(0, p.len() as int) =~= s.take(p.len() as int));
    } else {
        assert(p.len() > 0) by {
            if p.len() == 0 {
                assert(s.take(0) =~= p);
            }
        }
        lemma_find_sub(s.drop_first(), p);
        let r = find_sub(s.drop_first(), p);
        if r >= 0 {
            assert(s.subrange(r + 1, r + 1 + p.len()) =~= s.drop_first().subrange(r, r + p.len()));
        }
        assert forall|k: int| 0 <= k && (k < find_sub(s, p) || find_sub(s, p) < 0) implies !#[trigger] occurs_at(s, p, k) by {
            if k == 0 {
                assert(s.subrange(0, p.len() as int) =~= s.take(p.len() as int));
            } else if occurs_at(s, p, k) {
                assert(s.subrange(k, k + p.len()) =~= s.drop_first().subrange(k - 1, k - 1 + p.len()));
                assert(occurs_at(s.drop_first(), p, k - 1));
            }
        }
    }
}

/// `find_sub` is the first occurrence.
pub proof fn lemma_find_sub_at(s: Seq<char>, p: Seq<char>, i: int)
    requires
        -1 <= i,
        i >= 0 ==> occurs_at(s, p, i),
        forall|k: int| 0 <= k && (k < i || i < 0) ==> !#[trigger] occurs_at(s, p, k),
    ensures
        find_sub(s, p) == i,
{
    lemma_find_sub(s, p);
    let f = find_sub(s, p);
    if f >= 0 && i >= 0 {
        if f < i {
            assert(occurs_at(s, p, f));
        } else if i < f {
            assert(occurs_at(s, p, i));
        }
    } else if f >= 0 {
        assert(occurs_at(s, p, f));
    } else if i >= 0 {
        assert(occurs_at(s, p, i));
    }
}

/// The first occurrence of `p` in `s` at or after `start`.
pub fn find_from(s: &[char], p: &[char], start: usize) -> (r: Option<usize>)
    requires
        start <= s@.len(),
    ensures
        match r {
            Some(i) => start <= i && find_sub(s@.skip(start as int), p@) == i - start,
            None => find_sub(s@.skip(start as int), p@) == -1,
        },
{
    let ghost t = s@.skip(start as int);
    if p.len() > s.len() - start {
        proof {
            assert forall|k: int| 0 <= k && (k < -1 || -1 < 0) implies !#[trigger] occurs_at(t, p@, k) by {}
            lemma_find_sub_at(t, p@, -1);
        }
        return None;
    }
    let n = s.len();
    let last = n - p.len();
    let mut i = start;
    while i <= last
        invariant
            start <= i <= last + 1,
            n == s@.len(),
            last + p@.len() == n,
            t == s@.skip(start as int),
            forall|k: int| 0 <= k < i - start ==> !#[trigger] occurs_at(t, p@, k),
        decreases last + 1 - i,
    {
        assert(i + p@.len() <= s@.len());
        if occurs_at_chars(s, p, i) {
            proof {
                assert(t.subrange(i - start, i - start + p@.len()) =~= s@.subrange(i as int, i + p@.len()));
                lemma_find_sub_at(t, p@, i - start);
            }
            return Some(i);
        }
        assert(t.subrange(i - start, i - start + p@.len()) =~= s@.subrange(i as int, i + p@.len()));
        if i == last {
            proof {
                assert forall|k: int| 0 <= k && (k < -1 || -1 < 0) implies !#[trigger] occurs_at(t, p@, k) by {
                    if k > i - start {
                        assert(k + p@.len() > t.len());
                    }
                }
                lemma_find_sub_at(t, p@, -1);
            }
            return None;
        }
        i = i + 1;
    }
    proof {
        lemma_find_sub_at(t, p@, -1);
    }
    None
}

/// Whether `p` occurs in `s` at position `i`.
fn occurs_at_chars(s: &[char], p: &[char], i: usize) -> (r: bool)
    requires
        i + p@.len() <= s@.len(),
    ensures
        r == occurs_at(s@, p@, i as int),
{
    occurs_at_exec(s, p, i)
}

/// `s` with every occurrence of `from` replaced by `to`, left to right without overlap,
/// as `str::replace` gives it for a non-empty `from`.
pub open spec fn replace_all(s: Seq<char>, from: Seq<char>, to: Seq<char>) -> Seq<char>
    decreases s.len(),
{
    let i = find_sub(s, from);
    if from.len() == 0 || i < 0 {
        s
    } else {
        proof {
            lemma_find_sub(s, from);
        }
        s.take(i) + to + replace_all(s.skip(i + from.len()), from, to)
    }
}

/// `s` with every occurrence of the non-empty `from` replaced by `to`.
pub fn replace_chars(s: &[char], from: &[char], to: &[char]) -> (out: Vec<char>)
    requires
        from@.len() > 0,
    ensures
        out@ == replace_all(s@, from@, to@),
{
    let mut out: Vec<char> = Vec::new();
    let mut pos: usize = 0;
    let n = s.len();
    assert(s@.skip(0) =~= s@);
    loop
        invariant_except_break
            n == s@.len(),
            pos <= s@.len(),
            from@.len() > 0,
            replace_all(s@, from@, to@) == out@ + replace_all(s@.skip(pos as int), from@, to@),
        ensures
            replace_all(s@, from@, to@) == out@,
        decreases s@.len() - pos,
    {
        let ghost rest = s@.skip(pos as int);
        match find_from(s, from, pos) {
            Some(i) => {
                proof {
                    lemma_find_sub(rest, from@);
                }
                let ghost before = out@;
                let mut k = pos;
                while k < i
                    invariant
                        pos <= k <= i <= s@.len(),
                        out@ == before + s@.subrange(pos as int, k as int),
                    decreases i - k,
                {
                    out.push(s[k]);
                    assert(s@.subrange(pos as int, k + 1) =~= s@.subrange(pos as int, k as int).push(s@[k as int]));
                    k = k + 1;
                }
                let ghost mid = out@;
                let mut m: usize = 0;
                while m < to.len()
                    invariant
                        m <= to@.len(),
                        out@ == mid + to@.take(m as int),
                    decreases to@.len() - m,
                {
                    out.push(to[m]);
                    assert(to@.take(m + 1) =~= to@.take(m as int).push(to@[m as int]));
                    m = m + 1;
                }
                assert(to@.take(to@.len() as int) =~= to@);
                assert(rest.take(i - pos) =~= s@.subrange(pos as int, i as int));
                assert(rest.skip(i - pos + from@.len()) =~= s@.skip(i + from@.len()));
                assert(out@ + replace_all(s@.skip(i + from@.len()), from@, to@) =~= before + replace_all(rest, from@, to@));
                assert(i + from@.len() <= n);
                pos = i + from.len();
            },
            None => {
                let ghost before = out@;
                let mut k = pos;
                while k < s.len()
                    invariant
                        pos <= k <= s@.len(),
                        out@ == before + s@.subrange(pos as int, k as int),
                    decreases s@.len() - k,
                {
                    out.push(s[k]);
                    assert(s@.subrange(pos as int, k + 1) =~= s@.subrange(pos as int, k as int).push(s@[k as int]));
                    k = k + 1;
                }
                assert(s@.subrange(pos as int, s@.len() as int) =~= rest);
                break;
            },
        }
    }
    out
}

/// Appends the decimal spelling of `m`.
fn push_decimal_u64(out: &mut String, m: u64)
    ensures
        final(out)@ == old(out)@ + decimal(m as nat),
    decreases m,
{
    if m >= 10 {
        push_decimal_u64(out, m / 10);
    }
    let c = char_of_digit((m % 10) as u32);
    string_push(out, c);
    proof {
        if m >= 10 {
            assert(decimal(m as nat) == decimal((m / 10) as nat).push(digit_char((m % 10) as nat)));
        } else {
            assert(decimal(m as nat) == seq![digit_char(m as nat)]);
        }
    }
    assert(final(out)@ =~= old(out)@ + decimal(m as nat));
}

/// The decimal spelling of `n`, as `u64`'s `Display` writes it.
pub fn u64_to_decimal(n: u64) -> (out: String)
    ensures
        out@ == decimal(n as nat),
{
    let mut out = String::new();
    push_decimal_u64(&mut out, n);
    assert(out@ =~= decimal(n as nat));
    out
}

} // verus!
