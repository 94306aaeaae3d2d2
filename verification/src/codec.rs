use vstd::prelude::*;
use vstd::bytes::*;
use vstd::utf8::*;
use crate::text::{decimal, string_push_str, u64_to_decimal};

verus! {

broadcast use group_utf8_lib;

/// Why a stored byte sequence could not be read back.
#[derive(Clone, Copy, Debug, Eq, PartialEq, Structural)]
pub enum DecodeError {
    /// The data does not start with the expected file header.
    BadHeader(DataFile),
    /// Fewer than eight bytes were left where an integer was expected.
    MissingU64,
    /// No byte was left where a single byte was expected.
    MissingByte,
    /// Fewer bytes were left than the length prefix announced.
    MissingBytes(u64),
    /// A text field did not hold valid UTF-8.
    InvalidUtf8,
    /// A rich entry held a kind byte other than 1 (image) or 2 (file).
    UnknownRichKind(u8),
}

/// The three binary data files.
#[derive(Clone, Copy, Debug, Eq, PartialEq, Structural)]
pub enum DataFile {
    History,
    Snippets,
    RichHistory,
}

// ---------------------------------------------------------------------------
// The wire format of the primitive fields.
// ---------------------------------------------------------------------------

/// An integer as eight little-endian bytes.
pub open spec fn enc_u64(v: u64) -> Seq<u8> {
    spec_u64_to_le_bytes(v)
}

/// A flag as one byte, 1 for true and 0 for false.
pub open spec fn enc_bool(b: bool) -> Seq<u8> {
    seq![if b { 1u8 } else { 0u8 }]
}

/// Raw bytes, prefixed with their length.
pub open spec fn enc_bytes(b: Seq<u8>) -> Seq<u8> {
    enc_u64(b.len() as u64) + b
}

/// Text as its UTF-8 bytes, prefixed with their length.
pub open spec fn enc_text(s: Seq<char>) -> Seq<u8> {
    enc_bytes(encode_utf8(s))
}

/// Reads an integer from the front of `s`; the rest follows it.
pub open spec fn dec_u64(s: Seq<u8>) -> Result<(u64, Seq<u8>), DecodeError> {
    if s.len() < 8 {
        Err(DecodeError::MissingU64)
    } else {
        Ok((spec_u64_from_le_bytes(s.take(8)), s.skip(8)))
    }
}

/// Reads one byte from the front of `s`.
pub open spec fn dec_byte(s: Seq<u8>) -> Result<(u8, Seq<u8>), DecodeError> {
    if s.len() < 1 {
        Err(DecodeError::MissingByte)
    } else {
        Ok((s[0], s.skip(1)))
    }
}

/// Reads a flag: any byte other than 0 is true.
pub open spec fn dec_bool(s: Seq<u8>) -> Result<(bool, Seq<u8>), DecodeError> {
    match dec_byte(s) {
        Ok((b, r)) => Ok((b != 0, r)),
        Err(e) => Err(e),
    }
}

/// Reads length-prefixed raw bytes.
pub open spec fn dec_bytes(s: Seq<u8>) -> Result<(Seq<u8>, Seq<u8>), DecodeError> {
    match dec_u64(s) {
        Err(e) => Err(e),
        Ok((n, r)) => if r.len() < n {
            Err(DecodeError::MissingBytes(n))
        } else {
            Ok((r.take(n as int), r.skip(n as int)))
        },
    }
}

/// Reads length-prefixed text, which must be valid UTF-8.
pub open spec fn dec_text(s: Seq<u8>) -> Result<(Seq<char>, Seq<u8>), DecodeError> {
    match dec_bytes(s) {
        Err(e) => Err(e),
        Ok((b, r)) => if valid_utf8(b) {
            Ok((decode_utf8(b), r))
        } else {
            Err(DecodeError::InvalidUtf8)
        },
    }
}

// ---------------------------------------------------------------------------
// Each primitive reads back what it wrote, whatever follows.
// ---------------------------------------------------------------------------

pub proof fn lemma_dec_enc_u64(v: u64, rest: Seq<u8>)
    ensures
        dec_u64(enc_u64(v) + rest) == Ok::<(u64, Seq<u8>), DecodeError>((v, rest)),
{
    lemma_auto_spec_u64_to_from_le_bytes();
    let s = enc_u64(v) + rest;
    assert(s.take(8) =~= enc_u64(v));
    assert(s.skip(8) =~= rest);
}

pub proof fn lemma_dec_enc_bool(b: bool, rest: Seq<u8>)
    ensures
        dec_bool(enc_bool(b) + rest) == Ok::<(bool, Seq<u8>), DecodeError>((b, rest)),
{
    let s = enc_bool(b) + rest;
    assert(s.skip(1) =~= rest);
}

pub proof fn lemma_dec_enc_bytes(b: Seq<u8>, rest: Seq<u8>)
    requires
        b.len() <= u64::MAX,
    ensures
        dec_bytes(enc_bytes(b) + rest) == Ok::<(Seq<u8>, Seq<u8>), DecodeError>((b, rest)),
{
    let s = enc_bytes(b) + rest;
    assert(s =~= enc_u64(b.len() as u64) + (b + rest));
    lemma_dec_enc_u64(b.len() as u64, b + rest);
    assert((b + rest).take(b.len() as int) =~= b);
    assert((b + rest).skip(b.len() as int) =~= rest);
}

pub proof fn lemma_dec_enc_text(t: Seq<char>, rest: Seq<u8>)
    requires
        encode_utf8(t).len() <= u64::MAX,
    ensures
        dec_text(enc_text(t) + rest) == Ok::<(Seq<char>, Seq<u8>), DecodeError>((t, rest)),
{
    lemma_dec_enc_bytes(encode_utf8(t), rest);
}

// ---------------------------------------------------------------------------
// Executable writers and readers of the primitives.
// ---------------------------------------------------------------------------

/// Appends an integer as eight little-endian bytes.
pub fn write_u64(out: &mut Vec<u8>, v: u64)
    ensures
        final(out)@ == old(out)@ + enc_u64(v),
{
    let mut b = u64_to_le_bytes(v);
    out.append(&mut b);
}

/// Appends a flag byte.
pub fn write_bool(out: &mut Vec<u8>, b: bool)
    ensures
        final(out)@ == old(out)@ + enc_bool(b),
{
    out.push(if b { 1u8 } else { 0u8 });
    assert(final(out)@ =~= old(out)@ + enc_bool(b));
}

/// Appends raw bytes with their length in front.
pub fn write_bytes(out: &mut Vec<u8>, data: &[u8])
    ensures
        final(out)@ == old(out)@ + enc_bytes(data@),
{
    write_u64(out, data.len() as u64);
    let ghost start = out@;
    let mut i: usize = 0;
    while i < data.len()
        invariant
            i <= data@.len(),
            out@ == start + data@.take(i as int),
        decreases data@.len() - i,
    {
        out.push(data[i]);
        assert(data@.take(i + 1) == data@.take(i as int).push(data@[i as int]));
        i = i + 1;
    }
    assert(data@.take(data@.len() as int) == data@);
}

/// Appends text as length-prefixed UTF-8.
pub fn write_text(out: &mut Vec<u8>, s: &str)
    ensures
        final(out)@ == old(out)@ + enc_text(s@),
        encode_utf8(s@).len() <= usize::MAX,
{
    let b = s.as_bytes();
    assert(b@.len() == b.len());
    write_bytes(out, b);
}

/// Turns bytes into a `String` when they are valid UTF-8.
///
/// Calls `String::from_utf8`, which std documents as succeeding exactly when
/// the bytes are valid UTF-8 and then holding the text those bytes encode.
#[verifier::external_body]
fn string_from_utf8(bytes: Vec<u8>) -> (r: Option<String>)
    ensures
        r is Some <==> valid_utf8(bytes@),
        r matches Some(s) ==> s@ == decode_utf8(bytes@),
{
    String::from_utf8(bytes).ok()
}

/// Reads an integer at `pos`.
pub fn read_u64(bytes: &[u8], pos: usize) -> (res: Result<(u64, usize), DecodeError>)
    requires
        pos <= bytes@.len(),
    ensures
        match dec_u64(bytes@.skip(pos as int)) {
            Ok((v, rest)) => res matches Ok((w, p)) && w == v && pos <= p <= bytes@.len()
                && rest == bytes@.skip(p as int),
            Err(e) => res == Err::<(u64, usize), DecodeError>(e),
        },
{
    if bytes.len() - pos < 8 {
        return Err(DecodeError::MissingU64);
    }
    let mut b: Vec<u8> = Vec::new();
    let mut i: usize = 0;
    while i < 8
        invariant
            i <= 8,
            pos + 8 <= bytes@.len(),
            bytes@.len() == bytes.len(),
            b@ == bytes@.skip(pos as int).take(i as int),
        decreases 8 - i,
    {
        b.push(bytes[pos + i]);
        assert(bytes@.skip(pos as int).take(i + 1) =~= bytes@.skip(pos as int).take(i as int).push(
            bytes@[pos + i],
        ));
        i = i + 1;
    }
    let v = u64_from_le_bytes(b.as_slice());
    assert(bytes@.skip(pos as int).skip(8) =~= bytes@.skip(pos + 8));
    Ok((v, pos + 8))
}

/// Reads one byte at `pos`.
pub fn read_byte(bytes: &[u8], pos: usize) -> (res: Result<(u8, usize), DecodeError>)
    requires
        pos <= bytes@.len(),
    ensures
        match dec_byte(bytes@.skip(pos as int)) {
            Ok((v, rest)) => res matches Ok((w, p)) && w == v && pos <= p <= bytes@.len()
                && rest == bytes@.skip(p as int),
            Err(e) => res == Err::<(u8, usize), DecodeError>(e),
        },
{
    if pos >= bytes.len() {
        return Err(DecodeError::MissingByte);
    }
    assert(bytes@.skip(pos as int).skip(1) =~= bytes@.skip(pos + 1));
    Ok((bytes[pos], pos + 1))
}

/// Reads a flag at `pos`.
pub fn read_bool(bytes: &[u8], pos: usize) -> (res: Result<(bool, usize), DecodeError>)
    requires
        pos <= bytes@.len(),
    ensures
        match dec_bool(bytes@.skip(pos as int)) {
            Ok((v, rest)) => res matches Ok((w, p)) && w == v && pos <= p <= bytes@.len()
                && rest == bytes@.skip(p as int),
            Err(e) => res == Err::<(bool, usize), DecodeError>(e),
        },
{
    match read_byte(bytes, pos) {
        Ok((b, p)) => Ok((b != 0, p)),
        Err(e) => Err(e),
    }
}

/// Reads length-prefixed bytes at `pos`.
pub fn read_bytes(bytes: &[u8], pos: usize) -> (res: Result<(Vec<u8>, usize), DecodeError>)
    requires
        pos <= bytes@.len(),
    ensures
        match dec_bytes(bytes@.skip(pos as int)) {
            Ok((v, rest)) => res matches Ok((w, p)) && w@ == v && pos <= p <= bytes@.len()
                && rest == bytes@.skip(p as int),
            Err(e) => res == Err::<(Vec<u8>, usize), DecodeError>(e),
        },
{
    let (n, p) = match read_u64(bytes, pos) {
        Ok(x) => x,
        Err(e) => return Err(e),
    };
    let avail = bytes.len() - p;
    if (avail as u64) < n {
        return Err(DecodeError::MissingBytes(n));
    }
    let len = n as usize;
    let mut out: Vec<u8> = Vec::new();
    let mut i: usize = 0;
    while i < len
        invariant
            i <= len,
            p + len <= bytes@.len(),
            bytes@.len() == bytes.len(),
            out@ == bytes@.skip(p as int).take(i as int),
        decreases len - i,
    {
        out.push(bytes[p + i]);
        assert(bytes@.skip(p as int).take(i + 1) =~= bytes@.skip(p as int).take(i as int).push(
            bytes@[p + i],
        ));
        i = i + 1;
    }
    assert(bytes@.skip(p as int).skip(len as int) =~= bytes@.skip(p + len));
    Ok((out, p + len))
}

/// Reads length-prefixed UTF-8 text at `pos`.
pub fn read_text(bytes: &[u8], pos: usize) -> (res: Result<(String, usize), DecodeError>)
    requires
        pos <= bytes@.len(),
    ensures
        match dec_text(bytes@.skip(pos as int)) {
            Ok((v, rest)) => res matches Ok((w, p)) && w@ == v && pos <= p <= bytes@.len()
                && rest == bytes@.skip(p as int),
            Err(e) => res == Err::<(String, usize), DecodeError>(e),
        },
{
    let (raw, p) = match read_bytes(bytes, pos) {
        Ok(x) => x,
        Err(e) => return Err(e),
    };
    match string_from_utf8(raw) {
        Some(s) => Ok((s, p)),
        None => Err(DecodeError::InvalidUtf8),
    }
}

/// How a decoding problem is described to the user.
pub open spec fn decode_error_message(e: DecodeError) -> Seq<char> {
    match e {
        DecodeError::BadHeader(DataFile::History) => "bad history header"@,
        DecodeError::BadHeader(DataFile::Snippets) => "bad snippets header"@,
        DecodeError::BadHeader(DataFile::RichHistory) => "bad rich history header"@,
        DecodeError::MissingU64 => "expected u64: failed to fill whole buffer"@,
        DecodeError::MissingByte => "expected byte: failed to fill whole buffer"@,
        DecodeError::MissingBytes(n) => "expected "@ + decimal(n as nat)
            + " bytes: failed to fill whole buffer"@,
        DecodeError::InvalidUtf8 => "invalid utf8"@,
        DecodeError::UnknownRichKind(k) => "unknown rich clipboard kind "@ + decimal(k as nat),
    }
}

impl DecodeError {
    /// The description of this problem.
    pub fn message(&self) -> (m: String)
        ensures
            m@ == decode_error_message(*self),
    {
        let mut m = String::new();
        match self {
            DecodeError::BadHeader(DataFile::History) => string_push_str(&mut m, "bad history header"),
            DecodeError::BadHeader(DataFile::Snippets) => string_push_str(&mut m, "bad snippets header"),
            DecodeError::BadHeader(DataFile::RichHistory) => string_push_str(
                &mut m,
                "bad rich history header",
            ),
            DecodeError::MissingU64 => string_push_str(
                &mut m,
                "expected u64: failed to fill whole buffer",
            ),
            DecodeError::MissingByte => string_push_str(
                &mut m,
                "expected byte: failed to fill whole buffer",
            ),
            DecodeError::MissingBytes(n) => {
                string_push_str(&mut m, "expected ");
                let d = u64_to_decimal(*n);
                string_push_str(&mut m, d.as_str());
                string_push_str(&mut m, " bytes: failed to fill whole buffer");
            },
            DecodeError::InvalidUtf8 => string_push_str(&mut m, "invalid utf8"),
            DecodeError::UnknownRichKind(k) => {
                string_push_str(&mut m, "unknown rich clipboard kind ");
                let d = u64_to_decimal(*k as u64);
                string_push_str(&mut m, d.as_str());
            },
        }
        m
    }
}

} // verus!
