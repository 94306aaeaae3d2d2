use vstd::prelude::*;
use crate::text::{
    all_digits, ascii_lowercase, ascii_lowercase_chars, chars_of, contains_str, contains_sub,
    digit_value, is_digit, is_white_space, occurs_at, is_whitespace_char, trim, trim_bounds, utf8_len,
    utf8_len_capped,
};

verus! {

// ---------------------------------------------------------------------------
// What counts as sensitive.
// ---------------------------------------------------------------------------

/// Whether lower-cased text mentions one of the markers of a secret.
pub open spec fn has_secret_marker(lower: Seq<char>) -> bool {
    ||| contains_sub(lower, "password"@)
    ||| contains_sub(lower, "passwd"@)
    ||| contains_sub(lower, "pwd="@)
    ||| contains_sub(lower, "api_key"@)
    ||| contains_sub(lower, "apikey"@)
    ||| contains_sub(lower, "access_key"@)
    ||| contains_sub(lower, "secret"@)
    ||| contains_sub(lower, "private_key"@)
    ||| contains_sub(lower, "client_secret"@)
    ||| contains_sub(lower, "access_token"@)
    ||| contains_sub(lower, "refresh_token"@)
    ||| contains_sub(lower, "authorization: bearer"@)
    ||| contains_sub(lower, "bearer "@)
    ||| contains_sub(lower, "ssh-rsa "@)
    ||| contains_sub(lower, "-----begin private key-----"@)
}

/// The value one digit adds to a Luhn sum: doubled digits above 9 lose 9.
pub open spec fn luhn_term(c: char, double: bool) -> nat {
    let v = digit_value(c);
    if double {
        if 2 * v > 9 {
            (2 * v - 9) as nat
        } else {
            2 * v
        }
    } else {
        v
    }
}

/// The Luhn sum of `s` read from its last digit, doubling every second digit
/// (starting with the last one when `double` holds).
pub open spec fn luhn_sum(s: Seq<char>, double: bool) -> nat
    decreases s.len(),
{
    if s.len() == 0 {
        0
    } else {
        luhn_term(s.last(), double) + luhn_sum(s.drop_last(), !double)
    }
}

/// Whether `s` is all digits and passes the Luhn check.
pub open spec fn spec_luhn_valid(s: Seq<char>) -> bool {
    all_digits(s) && luhn_sum(s, false) % 10 == 0
}

/// Whether a run of digits looks like a card number: 13 to 19 digits passing the
/// Luhn check.
pub open spec fn spec_is_luhn_candidate(s: Seq<char>) -> bool {
    13 <= s.len() <= 19 && spec_luhn_valid(s)
}

/// Whether `t[a..b]` is a maximal run of ASCII digits.
pub open spec fn digit_run(t: Seq<char>, a: int, b: int) -> bool {
    &&& 0 <= a <= b <= t.len()
    &&& forall|k: int| a <= k < b ==> is_digit(#[trigger] t[k])
    &&& (a == 0 || !is_digit(t[a - 1]))
    &&& (b == t.len() || !is_digit(t[b]))
}

/// Whether some maximal run of digits in `t` looks like a card number.
pub open spec fn spec_contains_luhn_candidate(t: Seq<char>) -> bool {
    exists|a: int, b: int| #[trigger] digit_run(t, a, b) && spec_is_luhn_candidate(t.subrange(a, b))
}

pub open spec fn is_ascii_lower(c: char) -> bool {
    'a' <= c <= 'z'
}

pub open spec fn is_ascii_upper(c: char) -> bool {
    'A' <= c <= 'Z'
}

/// The punctuation that API tokens commonly hold.
pub open spec fn is_token_symbol(c: char) -> bool {
    c == '_' || c == '-' || c == '.' || c == ':' || c == '/' || c == '+' || c == '='
}

/// The characters a token may hold.
pub open spec fn is_token_char(c: char) -> bool {
    is_ascii_lower(c) || is_ascii_upper(c) || is_digit(c) || is_token_symbol(c)
}

/// Whether trimmed text looks like an API token: 36 to 256 bytes without white space,
/// only letters, digits and token punctuation, with a digit and either both letter
/// cases or some punctuation.
pub open spec fn spec_looks_like_token(text: Seq<char>) -> bool {
    let c = trim(text);
    &&& 36 <= utf8_len(c) <= 256
    &&& forall|i: int| 0 <= i < c.len() ==> !is_white_space(#[trigger] c[i])
    &&& forall|i: int| 0 <= i < c.len() ==> is_token_char(#[trigger] c[i])
    &&& exists|i: int| 0 <= i < c.len() && is_digit(#[trigger] c[i])
    &&& ((exists|i: int| 0 <= i < c.len() && is_ascii_lower(#[trigger] c[i])) && (exists|i: int|
        0 <= i < c.len() && is_ascii_upper(#[trigger] c[i]))) || (exists|i: int|
        0 <= i < c.len() && is_token_symbol(#[trigger] c[i]))
}

/// Whether clipboard text looks like a secret: once trimmed it is not empty, and it
/// mentions a secret marker (in any ASCII case), holds a card-like run of digits, or
/// looks like an API token.
pub open spec fn spec_looks_sensitive(text: Seq<char>) -> bool {
    let t = trim(text);
    t.len() > 0 && (has_secret_marker(ascii_lowercase(t)) || spec_contains_luhn_candidate(t)
        || spec_looks_like_token(t))
}

// ---------------------------------------------------------------------------
// The checks.
// ---------------------------------------------------------------------------

/// Adding a term and reducing modulo 10 does not change the sum's last digit.
proof fn lemma_mod_step(a: int, v: int, rest: int)
    requires
        0 <= a,
        0 <= v,
        0 <= rest,
    ensures
        (a + (v + rest)) % 10 == ((a + v) % 10 + rest) % 10,
{
    assert((a + (v + rest)) % 10 == ((a + v) % 10 + rest) % 10) by (nonlinear_arith)
        requires
            0 <= a,
            0 <= v,
            0 <= rest,
    ;
}

/// Whether `digits` is all ASCII digits and passes the Luhn check.
pub fn luhn_valid(digits: &[char]) -> (r: bool)
    ensures
        r == spec_luhn_valid(digits@),
{
    let ghost s = digits@;
    // Only the sum's last decimal digit matters, so it is kept modulo 10.
    let mut sum: u32 = 0;
    let mut double = false;
    let mut k = digits.len();
    assert(s.take(k as int) =~= s);
    while k > 0
        invariant
            k <= s.len(),
            s == digits@,
            sum < 10,
            luhn_sum(s, false) % 10 == (sum + luhn_sum(s.take(k as int), double)) % 10,
            all_digits(s) == all_digits(s.take(k as int)),
        decreases k,
    {
        let ch = digits[k - 1];
        assert(s.take(k as int).last() == ch);
        assert(s.take(k as int).drop_last() =~= s.take(k - 1));
        if !('0' <= ch && ch <= '9') {
            assert(!is_digit(s[k - 1]));
            return false;
        }
        let mut value = (ch as u32) - ('0' as u32);
        if double {
            value = value * 2;
            if value > 9 {
                value = value - 9;
            }
        }
        assert(value == luhn_term(ch, double));
        proof {
            let rest = luhn_sum(s.take(k - 1), !double);
            assert(luhn_sum(s.take(k as int), double) == value + rest);
            lemma_mod_step(sum as int, value as int, rest as int);
        }
        sum = (sum + value) % 10;
        double = !double;
        proof {
            assert forall|i: int| 0 <= i < k - 1 implies #[trigger] s.take(k as int)[i] == s.take(k - 1)[i] by {}
            if all_digits(s.take(k - 1)) {
                assert forall|i: int| 0 <= i < k implies is_digit(#[trigger] s.take(k as int)[i]) by {
                    if i < k - 1 {
                        assert(s.take(k as int)[i] == s.take(k - 1)[i]);
                    }
                }
            }
            if all_digits(s.take(k as int)) {
                assert forall|i: int| 0 <= i < k - 1 implies is_digit(#[trigger] s.take(k - 1)[i]) by {
                    assert(s.take(k as int)[i] == s.take(k - 1)[i]);
                }
            }
        }
        k = k - 1;
    }
    assert(s.take(0) =~= Seq::<char>::empty());
    sum % 10 == 0
}

/// Whether a run of digits looks like a card number.
pub fn is_luhn_candidate(digits: &[char]) -> (r: bool)
    ensures
        r == spec_is_luhn_candidate(digits@),
{
    if digits.len() < 13 || digits.len() > 19 {
        return false;
    }
    luhn_valid(digits)
}

proof fn lemma_run_start_unique(t: Seq<char>, start: int, a: int, i: int)
    requires
        0 <= start <= i <= t.len(),
        forall|k: int| start <= k < i ==> is_digit(#[trigger] t[k]),
        start == 0 || !is_digit(t[start - 1]),
        digit_run(t, a, i),
    ensures
        a == start,
{
    if a < start {
        assert(is_digit(t[start - 1]));
    } else if a > start {
        assert(is_digit(t[a - 1]));
    }
}

/// Whether some maximal run of digits in `chars` looks like a card number.
pub fn contains_luhn_candidate(chars: &[char]) -> (r: bool)
    ensures
        r == spec_contains_luhn_candidate(chars@),
{
    let ghost t = chars@;
    let mut start: usize = 0;
    let mut i: usize = 0;
    while i < chars.len()
        invariant
            start <= i <= t.len(),
            t == chars@,
            forall|k: int| start <= k < i ==> is_digit(#[trigger] t[k]),
            start == 0 || !is_digit(t[start - 1]),
            forall|a: int, b: int|
                #![trigger digit_run(t, a, b)]
                digit_run(t, a, b) && b < start ==> !spec_is_luhn_candidate(t.subrange(a, b)),
        decreases t.len() - i,
    {
        let ch = chars[i];
        if !('0' <= ch && ch <= '9') {
            let run = crate::text::chars_range(chars, start, i);
            assert(digit_run(t, start as int, i as int));
            if is_luhn_candidate(run.as_slice()) {
                return true;
            }
            proof {
                assert forall|a: int, b: int|
                    #![trigger digit_run(t, a, b)]
                    digit_run(t, a, b) && b < i + 1 implies !spec_is_luhn_candidate(t.subrange(a, b)) by {
                    if b == i {
                        lemma_run_start_unique(t, start as int, a, i as int);
                    } else if b >= start {
                        assert(is_digit(t[b]));
                    }
                }
            }
            start = i + 1;
        }
        i = i + 1;
    }
    let run = crate::text::chars_range(chars, start, i);
    assert(digit_run(t, start as int, i as int));
    let found = is_luhn_candidate(run.as_slice());
    proof {
        if !found {
            assert forall|a: int, b: int| #[trigger] digit_run(t, a, b) implies !spec_is_luhn_candidate(t.subrange(a, b)) by {
                if b == t.len() {
                    lemma_run_start_unique(t, start as int, a, i as int);
                } else if b >= start {
                    assert(is_digit(t[b]));
                }
            }
        }
    }
    found
}

/// Whether the trimmed text looks like an API token.
pub fn looks_like_token(chars: &[char]) -> (r: bool)
    ensures
        r == spec_looks_like_token(chars@),
{
    let (lo, hi) = trim_bounds(chars, 0, chars.len());
    let ghost c = trim(chars@);
    assert(chars@.subrange(0, chars@.len() as int) =~= chars@);
    assert(chars@.subrange(lo as int, hi as int) == c);
    let n = utf8_len_capped(chars, lo, hi, 256);
    if n < 36 || n > 256 {
        return false;
    }
    let mut i = lo;
    while i < hi
        invariant
            lo <= i <= hi <= chars@.len(),
            c == chars@.subrange(lo as int, hi as int),
            c == trim(chars@),
            forall|k: int| 0 <= k < i - lo ==> !is_white_space(#[trigger] c[k]),
        decreases hi - i,
    {
        if is_whitespace_char(chars[i]) {
            assert(c[i - lo] == chars@[i as int]);
            return false;
        }
        assert(c[i - lo] == chars@[i as int]);
        i = i + 1;
    }
    let mut has_lower = false;
    let mut has_upper = false;
    let mut has_digit = false;
    let mut has_symbol = false;
    let mut i = lo;
    while i < hi
        invariant
            lo <= i <= hi <= chars@.len(),
            c == chars@.subrange(lo as int, hi as int),
            c == trim(chars@),
            forall|k: int| 0 <= k < i - lo ==> is_token_char(#[trigger] c[k]),
            has_lower == exists|k: int| 0 <= k < i - lo && is_ascii_lower(#[trigger] c[k]),
            has_upper == exists|k: int| 0 <= k < i - lo && is_ascii_upper(#[trigger] c[k]),
            has_digit == exists|k: int| 0 <= k < i - lo && is_digit(#[trigger] c[k]),
            has_symbol == exists|k: int| 0 <= k < i - lo && is_token_symbol(#[trigger] c[k]),
        decreases hi - i,
    {
        let ch = chars[i];
        assert(c[i - lo] == ch);
        if 'a' <= ch && ch <= 'z' {
            has_lower = true;
        } else if 'A' <= ch && ch <= 'Z' {
            has_upper = true;
        } else if '0' <= ch && ch <= '9' {
            has_digit = true;
        } else if ch == '_' || ch == '-' || ch == '.' || ch == ':' || ch == '/' || ch == '+' || ch
            == '=' {
            has_symbol = true;
        } else {
            return false;
        }
        i = i + 1;
    }
    has_digit && ((has_lower && has_upper) || has_symbol)
}

/// Whether clipboard text looks like a secret that should not be stored.
pub fn looks_sensitive(text: &str) -> (r: bool)
    ensures
        r == spec_looks_sensitive(text@),
{
    let chars = chars_of(text);
    let all = chars.as_slice();
    let (lo, hi) = trim_bounds(all, 0, all.len());
    assert(all@.subrange(0, all@.len() as int) =~= text@);
    if lo == hi {
        return false;
    }
    let lower = ascii_lowercase_chars(all, lo, hi);
    let l = lower.as_slice();
    if contains_str(l, "password") || contains_str(l, "passwd") || contains_str(l, "pwd=")
        || contains_str(l, "api_key") || contains_str(l, "apikey") || contains_str(
        l,
        "access_key",
    ) || contains_str(l, "secret") || contains_str(l, "private_key") || contains_str(
        l,
        "client_secret",
    ) || contains_str(l, "access_token") || contains_str(l, "refresh_token") || contains_str(
        l,
        "authorization: bearer",
    ) || contains_str(l, "bearer ") || contains_str(l, "ssh-rsa ") || contains_str(
        l,
        "-----begin private key-----",
    ) {
        return true;
    }
    let trimmed = crate::text::chars_range(all, lo, hi);
    contains_luhn_candidate(trimmed.as_slice()) || looks_like_token(trimmed.as_slice())
}

/// Text that mentions a secret marker is sensitive: whenever the trimmed text, with ASCII
/// letters lower-cased, contains one of the markers `password`, `passwd`, `pwd=`,
/// `api_key`, `apikey`, `access_key`, `secret`, `private_key`, `client_secret`,
/// `access_token`, `refresh_token`, `authorization: bearer`, `bearer `, `ssh-rsa ` or
/// `-----begin private key-----`, the text is judged sensitive and is not recorded.
pub proof fn lemma_marker_is_sensitive(text: Seq<char>, m: Seq<char>)
    requires
        m == "password"@ || m == "passwd"@ || m == "pwd="@ || m == "api_key"@ || m == "apikey"@ || m == "access_key"@ || m == "secret"@ || m == "private_key"@ || m == "client_secret"@ || m == "access_token"@ || m == "refresh_token"@ || m == "authorization: bearer"@ || m == "bearer "@ || m == "ssh-rsa "@ || m == "-----begin private key-----"@,
        contains_sub(ascii_lowercase(trim(text)), m),
    ensures
        spec_looks_sensitive(text),
{
    reveal_strlit("password");
    reveal_strlit("passwd");
    reveal_strlit("pwd=");
    reveal_strlit("api_key");
    reveal_strlit("apikey");
    reveal_strlit("access_key");
    reveal_strlit("secret");
    reveal_strlit("private_key");
    reveal_strlit("client_secret");
    reveal_strlit("access_token");
    reveal_strlit("refresh_token");
    reveal_strlit("authorization: bearer");
    reveal_strlit("bearer ");
    reveal_strlit("ssh-rsa ");
    reveal_strlit("-----begin private key-----");
    let lower = ascii_lowercase(trim(text));
    let i = choose|i: int| #[trigger] occurs_at(lower, m, i);
    assert(occurs_at(lower, m, i));
    assert(m.len() > 0);
    assert(lower.len() == trim(text).len());
    assert(has_secret_marker(lower));
}

} // verus!
