use vstd::prelude::*;
use crate::seqs::{first_index, lemma_first_index};
use crate::text::{
    chars_of, is_prefix, parse_u64_chars, parse_u64_spec, parse_usize_chars, parse_usize_spec,
    starts_with_chars, starts_with_str, str_eq, string_push, string_push_str,
};

verus! {

// ---------------------------------------------------------------------------
// The model of command-line arguments.
// ---------------------------------------------------------------------------

/// The texts of a list of owned strings.
pub open spec fn strings_view(v: Seq<String>) -> Seq<Seq<char>> {
    v.map_values(|s: String| s@)
}

/// The texts of a list of string slices.
pub open spec fn strs_view(v: Seq<&str>) -> Seq<Seq<char>> {
    v.map_values(|s: &str| s@)
}

/// The flags that are followed by a value.
pub open spec fn spec_flag_takes_value(flag: Seq<char>) -> bool {
    flag == "--limit"@ || flag == "--max-items"@ || flag == "--max-bytes"@ || flag
        == "--interval-ms"@
}

/// Whether an argument is `flag` itself or `flag=value`.
pub open spec fn names_flag(flag: Seq<char>) -> spec_fn(Seq<char>) -> bool {
    |a: Seq<char>| a == flag || is_prefix(flag.push('='), a)
}

/// The value given for `flag`: taken from the first argument that is `flag` (then the
/// next argument, an error when there is none) or `flag=value`; `None` when no argument
/// names the flag.
pub open spec fn spec_flag_value(args: Seq<Seq<char>>, flag: Seq<char>) -> Result<
    Option<Seq<char>>,
    Seq<char>,
> {
    let k = first_index(args, names_flag(flag));
    if k >= args.len() {
        Ok(None)
    } else if args[k] == flag {
        if k + 1 < args.len() {
            Ok(Some(args[k + 1]))
        } else {
            Err(flag + " requires a value"@)
        }
    } else {
        Ok(Some(args[k].skip(flag.len() + 1int)))
    }
}

/// The message for a flag value that is not a number.
pub open spec fn invalid_value_message(flag: Seq<char>, raw: Seq<char>) -> Seq<char> {
    "invalid "@ + flag + " value `"@ + raw + "`"@
}

/// A flag's value read as a `usize`.
pub open spec fn spec_usize_flag(args: Seq<Seq<char>>, flag: Seq<char>) -> Result<
    Option<usize>,
    Seq<char>,
> {
    match spec_flag_value(args, flag) {
        Err(e) => Err(e),
        Ok(None) => Ok(None),
        Ok(Some(raw)) => match parse_usize_spec(raw) {
            Some(v) => Ok(Some(v)),
            None => Err(invalid_value_message(flag, raw)),
        },
    }
}

/// A flag's value read as a `u64`.
pub open spec fn spec_u64_flag(args: Seq<Seq<char>>, flag: Seq<char>) -> Result<
    Option<u64>,
    Seq<char>,
> {
    match spec_flag_value(args, flag) {
        Err(e) => Err(e),
        Ok(None) => Ok(None),
        Ok(Some(raw)) => match parse_u64_spec(raw) {
            Some(v) => Ok(Some(v)),
            None => Err(invalid_value_message(flag, raw)),
        },
    }
}

/// Whether an argument is left out of the free words: it is `flag=value` for one of
/// `flags`, or any other `--option`.
pub open spec fn skipped_word(a: Seq<char>, flags: Seq<Seq<char>>) -> bool {
    (exists|j: int| 0 <= j < flags.len() && is_prefix(#[trigger] flags[j].push('='), a))
        || is_prefix("--"@, a)
}

/// The free words among the arguments: each of `flags` is dropped, with the value
/// after it when it takes one; so are `flag=value` arguments and other `--options`.
pub open spec fn free_words(args: Seq<Seq<char>>, flags: Seq<Seq<char>>) -> Seq<Seq<char>>
    decreases args.len(),
{
    if args.len() == 0 {
        seq![]
    } else if flags.contains(args[0]) {
        if spec_flag_takes_value(args[0]) && args.len() >= 2 {
            free_words(args.skip(2), flags)
        } else {
            free_words(args.drop_first(), flags)
        }
    } else if skipped_word(args[0], flags) {
        free_words(args.drop_first(), flags)
    } else {
        seq![args[0]] + free_words(args.drop_first(), flags)
    }
}

/// Words joined with single spaces.
pub open spec fn join_words(ws: Seq<Seq<char>>) -> Seq<char>
    decreases ws.len(),
{
    if ws.len() == 0 {
        seq![]
    } else if ws.len() == 1 {
        ws[0]
    } else {
        join_words(ws.drop_last()) + seq![' '] + ws.last()
    }
}

// ---------------------------------------------------------------------------
// Executable argument handling.
// ---------------------------------------------------------------------------

/// Whether `flag` is one of the arguments.
pub fn has_flag(args: &[String], flag: &str) -> (r: bool)
    ensures
        r == exists|i: int| 0 <= i < args@.len() && #[trigger] args@[i]@ == flag@,
{
    let mut i: usize = 0;
    while i < args.len()
        invariant
            i <= args@.len(),
            forall|k: int| 0 <= k < i ==> #[trigger] args@[k]@ != flag@,
        decreases args@.len() - i,
    {
        if str_eq(args[i].as_str(), flag) {
            return true;
        }
        i = i + 1;
    }
    false
}

/// Whether `flag` is followed by a value.
pub fn flag_takes_value(flag: &str) -> (r: bool)
    ensures
        r == spec_flag_takes_value(flag@),
{
    str_eq(flag, "--limit") || str_eq(flag, "--max-items") || str_eq(flag, "--max-bytes")
        || str_eq(flag, "--interval-ms")
}

/// Whether `arg` is `flag` or `flag=value`, and which of the two.
fn names_flag_exec(arg: &str, flag: &str) -> (r: (bool, bool))
    ensures
        r.0 == names_flag(flag@)(arg@),
        r.1 == (arg@ == flag@),
{
    if str_eq(arg, flag) {
        return (true, true);
    }
    let mut p = chars_of(flag);
    p.push('=');
    let a = chars_of(arg);
    (starts_with_chars(a.as_slice(), p.as_slice()), false)
}

/// The characters of `s` from `start` on, as a `String`.
fn chars_from(s: &[char], start: usize) -> (out: String)
    requires
        start <= s@.len(),
    ensures
        out@ == s@.skip(start as int),
{
    let mut out = String::new();
    let mut i = start;
    while i < s.len()
        invariant
            start <= i <= s@.len(),
            out@ == s@.subrange(start as int, i as int),
        decreases s@.len() - i,
    {
        string_push(&mut out, s[i]);
        assert(s@.subrange(start as int, i + 1) =~= s@.subrange(start as int, i as int).push(
            s@[i as int],
        ));
        i = i + 1;
    }
    assert(s@.subrange(start as int, s@.len() as int) =~= s@.skip(start as int));
    out
}

/// The value given for `flag`, as [`spec_flag_value`] describes.
pub fn parse_flag_value(args: &[String], flag: &str) -> (r: Result<Option<String>, String>)
    ensures
        match spec_flag_value(strings_view(args@), flag@) {
            Ok(Some(v)) => r matches Ok(Some(s)) && s@ == v,
            Ok(None) => r matches Ok(None),
            Err(e) => r matches Err(m) && m@ == e,
        },
{
    let ghost av = strings_view(args@);
    let mut i: usize = 0;
    while i < args.len()
        invariant
            i <= args@.len(),
            av == strings_view(args@),
            forall|k: int| 0 <= k < i ==> !names_flag(flag@)(#[trigger] av[k]),
        decreases args@.len() - i,
    {
        let (named, exact) = names_flag_exec(args[i].as_str(), flag);
        assert(av[i as int] == args@[i as int]@);
        if named {
            proof {
                lemma_first_index(av, names_flag(flag@), i as int);
            }
            if exact {
                if i + 1 < args.len() {
                    assert(av[i + 1] == args@[i + 1]@);
                    return Ok(Some(args[i + 1].clone()));
                }
                let mut msg = String::new();
                string_push_str(&mut msg, flag);
                string_push_str(&mut msg, " requires a value");
                return Err(msg);
            }
            let a = chars_of(args[i].as_str());
            let alen = a.len();
            let n = chars_of(flag).len();
            assert(n < alen);
            return Ok(Some(chars_from(a.as_slice(), n + 1)));
        }
        i = i + 1;
    }
    proof {
        lemma_first_index(av, names_flag(flag@), i as int);
    }
    Ok(None)
}

/// The message for a flag value that is not a number.
fn invalid_value(flag: &str, raw: &str) -> (m: String)
    ensures
        m@ == invalid_value_message(flag@, raw@),
{
    let mut m = String::new();
    string_push_str(&mut m, "invalid ");
    string_push_str(&mut m, flag);
    string_push_str(&mut m, " value `");
    string_push_str(&mut m, raw);
    string_push_str(&mut m, "`");
    m
}

/// The value of `flag` read as a `usize`, as [`spec_usize_flag`] describes.
pub fn parse_usize_flag(args: &[String], flag: &str) -> (r: Result<Option<usize>, String>)
    ensures
        match spec_usize_flag(strings_view(args@), flag@) {
            Ok(v) => r == Ok::<Option<usize>, String>(v),
            Err(e) => r matches Err(m) && m@ == e,
        },
{
    match parse_flag_value(args, flag) {
        Err(e) => Err(e),
        Ok(None) => Ok(None),
        Ok(Some(raw)) => {
            let c = chars_of(raw.as_str());
            assert(c@.subrange(0, c@.len() as int) =~= c@);
            match parse_usize_chars(c.as_slice(), 0, c.len()) {
                Some(v) => Ok(Some(v)),
                None => Err(invalid_value(flag, raw.as_str())),
            }
        },
    }
}

/// The value of `flag` read as a `u64`, as [`spec_u64_flag`] describes.
pub fn parse_u64_flag(args: &[String], flag: &str) -> (r: Result<Option<u64>, String>)
    ensures
        match spec_u64_flag(strings_view(args@), flag@) {
            Ok(v) => r == Ok::<Option<u64>, String>(v),
            Err(e) => r matches Err(m) && m@ == e,
        },
{
    match parse_flag_value(args, flag) {
        Err(e) => Err(e),
        Ok(None) => Ok(None),
        Ok(Some(raw)) => {
            let c = chars_of(raw.as_str());
            assert(c@.subrange(0, c@.len() as int) =~= c@);
            match parse_u64_chars(c.as_slice(), 0, c.len()) {
                Some(v) => Ok(Some(v)),
                None => Err(invalid_value(flag, raw.as_str())),
            }
        },
    }
}

/// Whether `arg` is one of `flags`.
fn is_listed_flag(arg: &str, flags: &[&str]) -> (r: bool)
    ensures
        r == strs_view(flags@).contains(arg@),
{
    let ghost fv = strs_view(flags@);
    let mut j: usize = 0;
    while j < flags.len()
        invariant
            j <= flags@.len(),
            fv == strs_view(flags@),
            forall|k: int| 0 <= k < j ==> #[trigger] fv[k] != arg@,
        decreases flags@.len() - j,
    {
        if str_eq(flags[j], arg) {
            assert(fv[j as int] == arg@);
            return true;
        }
        j = j + 1;
    }
    false
}

/// Whether `arg` is left out of the free words without being one of the flags.
fn is_skipped_word(arg: &str, flags: &[&str]) -> (r: bool)
    ensures
        r == skipped_word(arg@, strs_view(flags@)),
{
    let ghost fv = strs_view(flags@);
    let a = chars_of(arg);
    let mut j: usize = 0;
    while j < flags.len()
        invariant
            j <= flags@.len(),
            fv == strs_view(flags@),
            a@ == arg@,
            forall|k: int| 0 <= k < j ==> !is_prefix(#[trigger] fv[k].push('='), arg@),
        decreases flags@.len() - j,
    {
        let mut p = chars_of(flags[j]);
        p.push('=');
        assert(p@ == fv[j as int].push('='));
        if starts_with_chars(a.as_slice(), p.as_slice()) {
            return true;
        }
        j = j + 1;
    }
    starts_with_str(a.as_slice(), "--")
}

/// The positions of the free words among `args`, in order.
fn free_word_positions(args: &[String], flags: &[&str]) -> (out: Vec<usize>)
    ensures
        out@.len() == free_words(strings_view(args@), strs_view(flags@)).len(),
        forall|k: int|
            0 <= k < out@.len() ==> #[trigger] out@[k] < args@.len() && args@[out@[k] as int]@
                == free_words(strings_view(args@), strs_view(flags@))[k],
{
    let ghost av = strings_view(args@);
    let ghost fv = strs_view(flags@);
    let mut out: Vec<usize> = Vec::new();
    let mut i: usize = 0;
    let ghost mut done: Seq<Seq<char>> = seq![];
    assert(av.skip(0) =~= av);
    while i < args.len()
        invariant
            i <= args@.len(),
            av == strings_view(args@),
            fv == strs_view(flags@),
            free_words(av, fv) == done + free_words(av.skip(i as int), fv),
            out@.len() == done.len(),
            forall|k: int|
                0 <= k < out@.len() ==> #[trigger] out@[k] < args@.len() && args@[out@[k] as int]@
                    == done[k],
        decreases args@.len() - i,
    {
        let arg = args[i].as_str();
        let ghost rest = av.skip(i as int);
        assert(rest[0] == arg@);
        assert(rest.drop_first() =~= av.skip(i + 1));
        if is_listed_flag(arg, flags) {
            if flag_takes_value(arg) && i + 1 < args.len() {
                assert(rest.skip(2) =~= av.skip(i + 2));
                i = i + 2;
            } else {
                i = i + 1;
            }
        } else if is_skipped_word(arg, flags) {
            i = i + 1;
        } else {
            out.push(i);
            proof {
                assert(seq![rest[0]] + free_words(rest.drop_first(), fv) == free_words(rest, fv));
                assert(done.push(arg@) + free_words(av.skip(i + 1), fv) =~= done + free_words(
                    rest,
                    fv,
                ));
                done = done.push(arg@);
            }
            i = i + 1;
        }
    }
    assert(av.skip(i as int) =~= Seq::<Seq<char>>::empty());
    assert(done + Seq::<Seq<char>>::empty() =~= done);
    out
}

/// The first free word among the arguments, if any.
pub fn first_positional<'a>(args: &'a [String], flags: &[&str]) -> (r: Option<&'a str>)
    ensures
        ({
            let ws = free_words(strings_view(args@), strs_view(flags@));
            match r {
                Some(w) => ws.len() > 0 && w@ == ws[0],
                None => ws.len() == 0,
            }
        }),
{
    let pos = free_word_positions(args, flags);
    if pos.len() == 0 {
        None
    } else {
        Some(args[pos[0]].as_str())
    }
}

/// The free words among the arguments joined with single spaces, or `None` when there
/// are none.
pub fn free_text(args: &[String], flags: &[&str]) -> (r: Option<String>)
    ensures
        ({
            let ws = free_words(strings_view(args@), strs_view(flags@));
            match r {
                Some(t) => ws.len() > 0 && t@ == join_words(ws),
                None => ws.len() == 0,
            }
        }),
{
    let pos = free_word_positions(args, flags);
    let ghost ws = free_words(strings_view(args@), strs_view(flags@));
    if pos.len() == 0 {
        return None;
    }
    let mut out = String::new();
    string_push_str(&mut out, args[pos[0]].as_str());
    assert(ws.take(1).drop_last() =~= Seq::<Seq<char>>::empty());
    assert(out@ == join_words(ws.take(1)));
    let mut k: usize = 1;
    while k < pos.len()
        invariant
            1 <= k <= pos@.len(),
            pos@.len() == ws.len(),
            forall|m: int|
                0 <= m < pos@.len() ==> #[trigger] pos@[m] < args@.len() && args@[pos@[m] as int]@
                    == ws[m],
            out@ == join_words(ws.take(k as int)),
        decreases pos@.len() - k,
    {
        string_push(&mut out, ' ');
        string_push_str(&mut out, args[pos[k]].as_str());
        assert(ws.take(k + 1).drop_last() =~= ws.take(k as int));
        assert(out@ =~= join_words(ws.take(k + 1)));
        k = k + 1;
    }
    assert(ws.take(k as int) =~= ws);
    Some(out)
}

} // verus!
