use vstd::prelude::*;
use vstd::bytes::*;
use vstd::utf8::*;
use crate::codec::{
    dec_bool, dec_byte, dec_bytes, dec_text, dec_u64, enc_bool, enc_bytes, enc_text, enc_u64,
    lemma_dec_enc_bool, lemma_dec_enc_bytes, lemma_dec_enc_text, lemma_dec_enc_u64, read_bool,
    read_byte, read_bytes, read_text, read_u64, write_bool, write_bytes, write_text, write_u64,
    DataFile, DecodeError,
};
use crate::model::{
    flavors_view, history_view, rich_history_view, snippets_view, FlavorView, HistoryEntry,
    HistoryEntryView, RichClipboardFlavor, RichClipboardKind, RichHistoryEntry,
    RichHistoryEntryView, SnippetEntry, SnippetEntryView,
};

verus! {

// ---------------------------------------------------------------------------
// Text history file: header, entry count, then each entry.
// ---------------------------------------------------------------------------

/// The header that opens the text history file.
pub open spec fn history_magic() -> Seq<u8> {
    encode_utf8("CLIPY_RS_HISTORY_V1\n"@)
}

/// One history entry on disk.
pub open spec fn enc_history_entry(e: HistoryEntryView) -> Seq<u8> {
    enc_u64(e.id) + enc_u64(e.created_at) + enc_u64(e.updated_at) + enc_u64(e.use_count)
        + enc_bool(e.pinned) + enc_text(e.content)
}

/// History entries one after another.
pub open spec fn enc_history_list(es: Seq<HistoryEntryView>) -> Seq<u8>
    decreases es.len(),
{
    if es.len() == 0 {
        seq![]
    } else {
        enc_history_list(es.drop_last()) + enc_history_entry(es.last())
    }
}

/// The whole text history file for `es`.
pub open spec fn spec_encode_history(es: Seq<HistoryEntryView>) -> Seq<u8> {
    history_magic() + enc_u64(es.len() as u64) + enc_history_list(es)
}

/// Reads one history entry.
#[verifier::opaque]
pub open spec fn dec_history_entry(s: Seq<u8>) -> Result<(HistoryEntryView, Seq<u8>), DecodeError> {
    match dec_u64(s) {
        Err(e) => Err(e),
        Ok((id, s1)) => match dec_u64(s1) {
            Err(e) => Err(e),
            Ok((created_at, s2)) => match dec_u64(s2) {
                Err(e) => Err(e),
                Ok((updated_at, s3)) => match dec_u64(s3) {
                    Err(e) => Err(e),
                    Ok((use_count, s4)) => match dec_bool(s4) {
                        Err(e) => Err(e),
                        Ok((pinned, s5)) => match dec_text(s5) {
                            Err(e) => Err(e),
                            Ok((content, s6)) => Ok(
                                (
                                    HistoryEntryView {
                                        id,
                                        content,
                                        created_at,
                                        updated_at,
                                        use_count,
                                        pinned,
                                    },
                                    s6,
                                ),
                            ),
                        },
                    },
                },
            },
        },
    }
}

/// Reads `n` history entries one after another.
pub open spec fn dec_history_list(s: Seq<u8>, n: nat) -> Result<
    (Seq<HistoryEntryView>, Seq<u8>),
    DecodeError,
>
    decreases n,
{
    if n == 0 {
        Ok((seq![], s))
    } else {
        match dec_history_list(s, (n - 1) as nat) {
            Err(e) => Err(e),
            Ok((es, r)) => match dec_history_entry(r) {
                Err(e) => Err(e),
                Ok((e, r2)) => Ok((es.push(e), r2)),
            },
        }
    }
}

/// What reading the text history file yields: its entries, or why it cannot be read.
/// Bytes after the last entry are ignored.
pub open spec fn spec_decode_history(bytes: Seq<u8>) -> Result<Seq<HistoryEntryView>, DecodeError> {
    let m = history_magic();
    if bytes.len() < m.len() || bytes.take(m.len() as int) != m {
        Err(DecodeError::BadHeader(DataFile::History))
    } else {
        match dec_u64(bytes.skip(m.len() as int)) {
            Err(e) => Err(e),
            Ok((n, r)) => match dec_history_list(r, n as nat) {
                Err(e) => Err(e),
                Ok((es, _)) => Ok(es),
            },
        }
    }
}

proof fn lemma_dec_enc_history_entry(e: HistoryEntryView, rest: Seq<u8>)
    requires
        encode_utf8(e.content).len() <= u64::MAX,
    ensures
        dec_history_entry(enc_history_entry(e) + rest) == Ok::<
            (HistoryEntryView, Seq<u8>),
            DecodeError,
        >((e, rest)),
{
    reveal(dec_history_entry);
    let r5 = enc_text(e.content) + rest;
    let r4 = enc_bool(e.pinned) + r5;
    let r3 = enc_u64(e.use_count) + r4;
    let r2 = enc_u64(e.updated_at) + r3;
    let r1 = enc_u64(e.created_at) + r2;
    assert(enc_history_entry(e) + rest =~= enc_u64(e.id) + r1);
    lemma_dec_enc_u64(e.id, r1);
    lemma_dec_enc_u64(e.created_at, r2);
    lemma_dec_enc_u64(e.updated_at, r3);
    lemma_dec_enc_u64(e.use_count, r4);
    lemma_dec_enc_bool(e.pinned, r5);
    lemma_dec_enc_text(e.content, rest);
}

proof fn lemma_dec_enc_history_list(es: Seq<HistoryEntryView>, rest: Seq<u8>)
    requires
        forall|i: int| 0 <= i < es.len() ==> encode_utf8(#[trigger] es[i].content).len() <= u64::MAX,
    ensures
        dec_history_list(enc_history_list(es) + rest, es.len()) == Ok::<
            (Seq<HistoryEntryView>, Seq<u8>),
            DecodeError,
        >((es, rest)),
    decreases es.len(),
{
    if es.len() == 0 {
        assert(enc_history_list(es) + rest =~= rest);
        assert(es =~= Seq::<HistoryEntryView>::empty());
    } else {
        let init = es.drop_last();
        let last = es.last();
        let tail = enc_history_entry(last) + rest;
        assert(enc_history_list(es) + rest =~= enc_history_list(init) + tail);
        assert forall|i: int| 0 <= i < init.len() implies encode_utf8(
            #[trigger] init[i].content,
        ).len() <= u64::MAX by {
            assert(init[i] == es[i]);
        }
        lemma_dec_enc_history_list(init, tail);
        assert(encode_utf8(es[es.len() - 1].content).len() <= u64::MAX);
        lemma_dec_enc_history_entry(last, rest);
        assert(init.push(last) =~= es);
        let s = enc_history_list(es) + rest;
        assert(dec_history_list(s, init.len()) == Ok::<(Seq<HistoryEntryView>, Seq<u8>), DecodeError>((init, tail)));
        assert(dec_history_entry(tail) == Ok::<(HistoryEntryView, Seq<u8>), DecodeError>((last, rest)));
        assert(dec_history_list(s, es.len()) == Ok::<(Seq<HistoryEntryView>, Seq<u8>), DecodeError>((init.push(last), rest)));
    }
}

/// Once reading `k` entries fails, reading more fails the same way.
proof fn lemma_dec_history_list_err(s: Seq<u8>, k: nat, m: nat)
    requires
        k <= m,
        dec_history_list(s, k) is Err,
    ensures
        dec_history_list(s, m) == dec_history_list(s, k),
    decreases m,
{
    if m > k {
        lemma_dec_history_list_err(s, k, (m - 1) as nat);
    }
}

/// The text history file's layout, byte by byte: the header line `CLIPY_RS_HISTORY_V1`,
/// the number of entries as eight little-endian bytes, then for each entry its
/// identifier, creation time, update time and use count as eight little-endian bytes
/// each, a byte 1 or 0 for pinned or not, and its content as its UTF-8 byte count (eight
/// little-endian bytes) followed by the bytes. Such a file reads back as that entry, and
/// it is exactly what saving that entry writes.
pub proof fn lemma_history_file_layout(
    id: u64,
    content: Seq<char>,
    created_at: u64,
    updated_at: u64,
    use_count: u64,
    pinned: bool,
)
    requires
        encode_utf8(content).len() <= u64::MAX,
    ensures
        ({
            let bytes = encode_utf8("CLIPY_RS_HISTORY_V1\n"@) + spec_u64_to_le_bytes(1)
                + spec_u64_to_le_bytes(id) + spec_u64_to_le_bytes(created_at)
                + spec_u64_to_le_bytes(updated_at) + spec_u64_to_le_bytes(use_count) + seq![
                if pinned {
                    1u8
                } else {
                    0u8
                },
            ] + spec_u64_to_le_bytes(encode_utf8(content).len() as u64) + encode_utf8(content);
            let e = HistoryEntryView { id, content, created_at, updated_at, use_count, pinned };
            &&& spec_decode_history(bytes) == Ok::<Seq<HistoryEntryView>, DecodeError>(seq![e])
            &&& spec_encode_history(seq![e]) == bytes
        }),
{
    let e = HistoryEntryView { id, content, created_at, updated_at, use_count, pinned };
    let es = seq![e];
    assert(es.drop_last() =~= Seq::<HistoryEntryView>::empty());
    assert(enc_history_list(es.drop_last()) =~= Seq::<u8>::empty());
    assert(enc_history_list(es) =~= enc_history_entry(e));
    let bytes = encode_utf8("CLIPY_RS_HISTORY_V1\n"@) + spec_u64_to_le_bytes(1)
        + spec_u64_to_le_bytes(id) + spec_u64_to_le_bytes(created_at) + spec_u64_to_le_bytes(
        updated_at,
    ) + spec_u64_to_le_bytes(use_count) + seq![
        if pinned {
            1u8
        } else {
            0u8
        },
    ] + spec_u64_to_le_bytes(encode_utf8(content).len() as u64) + encode_utf8(content);
    assert(spec_encode_history(es) =~= bytes);
    lemma_history_roundtrip(es);
}

/// Reading back the text history file gives exactly the entries that were written.
pub proof fn lemma_history_roundtrip(es: Seq<HistoryEntryView>)
    requires
        es.len() <= u64::MAX,
        forall|i: int| 0 <= i < es.len() ==> encode_utf8(#[trigger] es[i].content).len() <= u64::MAX,
    ensures
        spec_decode_history(spec_encode_history(es)) == Ok::<Seq<HistoryEntryView>, DecodeError>(es),
{
    let m = history_magic();
    let body = enc_history_list(es);
    let bytes = spec_encode_history(es);
    assert(bytes =~= m + (enc_u64(es.len() as u64) + body));
    assert(bytes.take(m.len() as int) =~= m);
    assert(bytes.skip(m.len() as int) =~= enc_u64(es.len() as u64) + body);
    lemma_dec_enc_u64(es.len() as u64, body);
    lemma_dec_enc_history_list(es, seq![]);
    assert(body + seq![] =~= body);
}

// ---------------------------------------------------------------------------
// Executable helpers shared by the three files.
// ---------------------------------------------------------------------------

/// Appends every byte of `data`.
fn push_all(out: &mut Vec<u8>, data: &[u8])
    ensures
        final(out)@ == old(out)@ + data@,
{
    let ghost start = out@;
    let mut i: usize = 0;
    while i < data.len()
        invariant
            i <= data@.len(),
            out@ == start + data@.take(i as int),
        decreases data@.len() - i,
    {
        out.push(data[i]);
        assert(data@.take(i + 1) == data@.take(i as int).push(data@[i as int]));
        i = i + 1;
    }
    assert(data@.take(data@.len() as int) == data@);
}

/// Whether `bytes` starts with `prefix`.
fn has_prefix(bytes: &[u8], prefix: &[u8]) -> (r: bool)
    ensures
        r == (bytes@.len() >= prefix@.len() && bytes@.take(prefix@.len() as int) == prefix@),
{
    if bytes.len() < prefix.len() {
        return false;
    }
    let mut i: usize = 0;
    while i < prefix.len()
        invariant
            i <= prefix@.len() <= bytes@.len(),
            forall|k: int| 0 <= k < i ==> bytes@[k] == prefix@[k],
        decreases prefix@.len() - i,
    {
        if bytes[i] != prefix[i] {
            assert(bytes@.take(prefix@.len() as int)[i as int] != prefix@[i as int]);
            return false;
        }
        i = i + 1;
    }
    assert(bytes@.take(prefix@.len() as int) =~= prefix@);
    true
}

// ---------------------------------------------------------------------------
// Executable encoding and decoding of the text history file.
// ---------------------------------------------------------------------------

fn write_history_entry(out: &mut Vec<u8>, e: &HistoryEntry)
    ensures
        final(out)@ == old(out)@ + enc_history_entry(e@),
        encode_utf8(e@.content).len() <= u64::MAX,
{
    write_u64(out, e.id);
    write_u64(out, e.created_at);
    write_u64(out, e.updated_at);
    write_u64(out, e.use_count);
    write_bool(out, e.pinned);
    write_text(out, e.content.as_str());
    assert(final(out)@ =~= old(out)@ + enc_history_entry(e@));
}

/// The bytes of the text history file holding `entries`, in order.
pub fn encode_history(entries: &[HistoryEntry]) -> (out: Vec<u8>)
    ensures
        out@ == spec_encode_history(history_view(entries@)),
        spec_decode_history(out@) == Ok::<Seq<HistoryEntryView>, DecodeError>(
            history_view(entries@),
        ),
{
    let ghost hv = history_view(entries@);
    let mut out: Vec<u8> = Vec::new();
    let magic = "CLIPY_RS_HISTORY_V1\n";
    push_all(&mut out, magic.as_bytes());
    write_u64(&mut out, entries.len() as u64);
    let ghost start = out@;
    let mut i: usize = 0;
    while i < entries.len()
        invariant
            i <= entries@.len(),
            hv == history_view(entries@),
            out@ == start + enc_history_list(hv.take(i as int)),
            forall|k: int| 0 <= k < i ==> encode_utf8(#[trigger] hv[k].content).len() <= u64::MAX,
        decreases entries@.len() - i,
    {
        write_history_entry(&mut out, &entries[i]);
        assert(hv.take(i + 1).drop_last() =~= hv.take(i as int));
        assert(hv.take(i + 1).last() == entries@[i as int]@);
        assert(out@ =~= start + enc_history_list(hv.take(i + 1)));
        i = i + 1;
    }
    assert(hv.take(entries@.len() as int) =~= hv);
    assert(out@ =~= spec_encode_history(hv));
    proof {
        lemma_history_roundtrip(hv);
    }
    out
}

fn read_history_entry(bytes: &[u8], pos: usize) -> (res: Result<(HistoryEntry, usize), DecodeError>)
    requires
        pos <= bytes@.len(),
    ensures
        match dec_history_entry(bytes@.skip(pos as int)) {
            Ok((v, rest)) => res matches Ok((w, p)) && w@ == v && pos <= p <= bytes@.len()
                && rest == bytes@.skip(p as int),
            Err(e) => res == Err::<(HistoryEntry, usize), DecodeError>(e),
        },
{
    reveal(dec_history_entry);
    let (id, p) = match read_u64(bytes, pos) {
        Ok(x) => x,
        Err(e) => return Err(e),
    };
    let (created_at, p) = match read_u64(bytes, p) {
        Ok(x) => x,
        Err(e) => return Err(e),
    };
    let (updated_at, p) = match read_u64(bytes, p) {
        Ok(x) => x,
        Err(e) => return Err(e),
    };
    let (use_count, p) = match read_u64(bytes, p) {
        Ok(x) => x,
        Err(e) => return Err(e),
    };
    let (pinned, p) = match read_bool(bytes, p) {
        Ok(x) => x,
        Err(e) => return Err(e),
    };
    let (content, p) = match read_text(bytes, p) {
        Ok(x) => x,
        Err(e) => return Err(e),
    };
    Ok((HistoryEntry { id, content, created_at, updated_at, use_count, pinned }, p))
}

/// Reads the text history file: its entries when the bytes hold a well-formed file,
/// else the first problem met.
pub fn decode_history(bytes: &[u8]) -> (res: Result<Vec<HistoryEntry>, DecodeError>)
    ensures
        match spec_decode_history(bytes@) {
            Ok(es) => res matches Ok(v) && history_view(v@) == es,
            Err(e) => res == Err::<Vec<HistoryEntry>, DecodeError>(e),
        },
{
    let magic = "CLIPY_RS_HISTORY_V1\n".as_bytes();
    assert(magic@ == history_magic());
    if !has_prefix(bytes, magic) {
        return Err(DecodeError::BadHeader(DataFile::History));
    }
    let (n, p0) = match read_u64(bytes, magic.len()) {
        Ok(x) => x,
        Err(e) => return Err(e),
    };
    let ghost s0 = bytes@.skip(p0 as int);
    let mut entries: Vec<HistoryEntry> = Vec::new();
    let mut p = p0;
    let mut i: u64 = 0;
    assert(history_view(entries@) =~= Seq::<HistoryEntryView>::empty());
    assert(spec_decode_history(bytes@) == match dec_history_list(s0, n as nat) {
        Err(e) => Err(e),
        Ok((es, _)) => Ok::<Seq<HistoryEntryView>, DecodeError>(es),
    });
    while i < n
        invariant
            i <= n,
            spec_decode_history(bytes@) == match dec_history_list(s0, n as nat) {
                Err(e) => Err(e),
                Ok((es, _)) => Ok::<Seq<HistoryEntryView>, DecodeError>(es),
            },
            p <= bytes@.len(),
            s0 == bytes@.skip(p0 as int),
            dec_history_list(s0, i as nat) == Ok::<(Seq<HistoryEntryView>, Seq<u8>), DecodeError>(
                (history_view(entries@), bytes@.skip(p as int)),
            ),
        decreases n - i,
    {
        match read_history_entry(bytes, p) {
            Ok((e, p2)) => {
                let ghost prev = entries@;
                entries.push(e);
                p = p2;
                assert(history_view(entries@) =~= history_view(prev).push(e@));
            },
            Err(err) => {
                proof {
                    assert(dec_history_list(s0, (i + 1) as nat) == Err::<
                        (Seq<HistoryEntryView>, Seq<u8>),
                        DecodeError,
                    >(err));
                    lemma_dec_history_list_err(s0, (i + 1) as nat, n as nat);
                }
                return Err(err);
            },
        }
        i = i + 1;
    }
    Ok(entries)
}

// ---------------------------------------------------------------------------
// Snippet file: header, snippet count, then each snippet.
// ---------------------------------------------------------------------------

/// The header that opens the snippet file.
pub open spec fn snippet_magic() -> Seq<u8> {
    encode_utf8("CLIPY_RS_SNIPPET_V1\n"@)
}

/// One snippet on disk.
pub open spec fn enc_snippet(e: SnippetEntryView) -> Seq<u8> {
    enc_text(e.name) + enc_text(e.content) + enc_u64(e.created_at) + enc_u64(e.updated_at)
        + enc_u64(e.use_count)
}

/// Snippets one after another.
pub open spec fn enc_snippet_list(es: Seq<SnippetEntryView>) -> Seq<u8>
    decreases es.len(),
{
    if es.len() == 0 {
        seq![]
    } else {
        enc_snippet_list(es.drop_last()) + enc_snippet(es.last())
    }
}

/// The whole snippet file for `es`.
pub open spec fn spec_encode_snippets(es: Seq<SnippetEntryView>) -> Seq<u8> {
    snippet_magic() + enc_u64(es.len() as u64) + enc_snippet_list(es)
}

/// Reads one snippet.
#[verifier::opaque]
pub open spec fn dec_snippet(s: Seq<u8>) -> Result<(SnippetEntryView, Seq<u8>), DecodeError> {
    match dec_text(s) {
        Err(e) => Err(e),
        Ok((name, s1)) => match dec_text(s1) {
            Err(e) => Err(e),
            Ok((content, s2)) => match dec_u64(s2) {
                Err(e) => Err(e),
                Ok((created_at, s3)) => match dec_u64(s3) {
                    Err(e) => Err(e),
                    Ok((updated_at, s4)) => match dec_u64(s4) {
                        Err(e) => Err(e),
                        Ok((use_count, s5)) => Ok(
                            (
                                SnippetEntryView {
                                    name,
                                    content,
                                    created_at,
                                    updated_at,
                                    use_count,
                                },
                                s5,
                            ),
                        ),
                    },
                },
            },
        },
    }
}

/// Reads `n` snippets one after another.
pub open spec fn dec_snippet_list(s: Seq<u8>, n: nat) -> Result<
    (Seq<SnippetEntryView>, Seq<u8>),
    DecodeError,
>
    decreases n,
{
    if n == 0 {
        Ok((seq![], s))
    } else {
        match dec_snippet_list(s, (n - 1) as nat) {
            Err(e) => Err(e),
            Ok((es, r)) => match dec_snippet(r) {
                Err(e) => Err(e),
                Ok((e, r2)) => Ok((es.push(e), r2)),
            },
        }
    }
}

/// What reading the snippet file yields: its snippets, or why it cannot be read.
pub open spec fn spec_decode_snippets(bytes: Seq<u8>) -> Result<Seq<SnippetEntryView>, DecodeError> {
    let m = snippet_magic();
    if bytes.len() < m.len() || bytes.take(m.len() as int) != m {
        Err(DecodeError::BadHeader(DataFile::Snippets))
    } else {
        match dec_u64(bytes.skip(m.len() as int)) {
            Err(e) => Err(e),
            Ok((n, r)) => match dec_snippet_list(r, n as nat) {
                Err(e) => Err(e),
                Ok((es, _)) => Ok(es),
            },
        }
    }
}

/// The snippet's texts fit the length prefix.
pub open spec fn snippet_fits(e: SnippetEntryView) -> bool {
    encode_utf8(e.name).len() <= u64::MAX && encode_utf8(e.content).len() <= u64::MAX
}

proof fn lemma_dec_enc_snippet(e: SnippetEntryView, rest: Seq<u8>)
    requires
        snippet_fits(e),
    ensures
        dec_snippet(enc_snippet(e) + rest) == Ok::<(SnippetEntryView, Seq<u8>), DecodeError>(
            (e, rest),
        ),
{
    reveal(dec_snippet);
    let r4 = enc_u64(e.use_count) + rest;
    let r3 = enc_u64(e.updated_at) + r4;
    let r2 = enc_u64(e.created_at) + r3;
    let r1 = enc_text(e.content) + r2;
    assert(enc_snippet(e) + rest =~= enc_text(e.name) + r1);
    lemma_dec_enc_text(e.name, r1);
    lemma_dec_enc_text(e.content, r2);
    lemma_dec_enc_u64(e.created_at, r3);
    lemma_dec_enc_u64(e.updated_at, r4);
    lemma_dec_enc_u64(e.use_count, rest);
}

proof fn lemma_dec_enc_snippet_list(es: Seq<SnippetEntryView>, rest: Seq<u8>)
    requires
        forall|i: int| 0 <= i < es.len() ==> snippet_fits(#[trigger] es[i]),
    ensures
        dec_snippet_list(enc_snippet_list(es) + rest, es.len()) == Ok::<
            (Seq<SnippetEntryView>, Seq<u8>),
            DecodeError,
        >((es, rest)),
    decreases es.len(),
{
    if es.len() == 0 {
        assert(enc_snippet_list(es) + rest =~= rest);
        assert(es =~= Seq::<SnippetEntryView>::empty());
    } else {
        let init = es.drop_last();
        let last = es.last();
        let tail = enc_snippet(last) + rest;
        assert(enc_snippet_list(es) + rest =~= enc_snippet_list(init) + tail);
        assert forall|i: int| 0 <= i < init.len() implies snippet_fits(#[trigger] init[i]) by {
            assert(init[i] == es[i]);
        }
        lemma_dec_enc_snippet_list(init, tail);
        assert(snippet_fits(es[es.len() - 1]));
        lemma_dec_enc_snippet(last, rest);
        assert(init.push(last) =~= es);
        let s = enc_snippet_list(es) + rest;
        assert(dec_snippet_list(s, init.len()) == Ok::<(Seq<SnippetEntryView>, Seq<u8>), DecodeError>((init, tail)));
        assert(dec_snippet_list(s, es.len()) == Ok::<(Seq<SnippetEntryView>, Seq<u8>), DecodeError>((init.push(last), rest)));
    }
}

proof fn lemma_dec_snippet_list_err(s: Seq<u8>, k: nat, m: nat)
    requires
        k <= m,
        dec_snippet_list(s, k) is Err,
    ensures
        dec_snippet_list(s, m) == dec_snippet_list(s, k),
    decreases m,
{
    if m > k {
        lemma_dec_snippet_list_err(s, k, (m - 1) as nat);
    }
}

/// The snippet file's layout, byte by byte: the header line `CLIPY_RS_SNIPPET_V1`, the
/// number of snippets as eight little-endian bytes, then for each snippet its name and
/// then its content, each as its UTF-8 byte count (eight little-endian bytes) followed by
/// the bytes, and then its creation time, update time and use count as eight
/// little-endian bytes each. Such a file, written field by field, reads back as that
/// snippet, and it is exactly what saving that snippet writes.
pub proof fn lemma_snippet_file_layout(
    name: Seq<char>,
    content: Seq<char>,
    created_at: u64,
    updated_at: u64,
    use_count: u64,
)
    requires
        encode_utf8(name).len() <= u64::MAX,
        encode_utf8(content).len() <= u64::MAX,
    ensures
        ({
            let bytes = encode_utf8("CLIPY_RS_SNIPPET_V1\n"@) + spec_u64_to_le_bytes(1)
                + spec_u64_to_le_bytes(encode_utf8(name).len() as u64) + encode_utf8(name)
                + spec_u64_to_le_bytes(encode_utf8(content).len() as u64) + encode_utf8(content)
                + spec_u64_to_le_bytes(created_at) + spec_u64_to_le_bytes(updated_at)
                + spec_u64_to_le_bytes(use_count);
            let e = SnippetEntryView { name, content, created_at, updated_at, use_count };
            &&& spec_decode_snippets(bytes) == Ok::<Seq<SnippetEntryView>, DecodeError>(seq![e])
            &&& spec_encode_snippets(seq![e]) == bytes
        }),
{
    let e = SnippetEntryView { name, content, created_at, updated_at, use_count };
    let es = seq![e];
    assert(es.drop_last() =~= Seq::<SnippetEntryView>::empty());
    assert(es.last() == e);
    assert(enc_snippet_list(es.drop_last()) =~= Seq::<u8>::empty());
    assert(enc_snippet_list(es) =~= enc_snippet(e));
    let bytes = encode_utf8("CLIPY_RS_SNIPPET_V1\n"@) + spec_u64_to_le_bytes(1)
        + spec_u64_to_le_bytes(encode_utf8(name).len() as u64) + encode_utf8(name)
        + spec_u64_to_le_bytes(encode_utf8(content).len() as u64) + encode_utf8(content)
        + spec_u64_to_le_bytes(created_at) + spec_u64_to_le_bytes(updated_at)
        + spec_u64_to_le_bytes(use_count);
    assert(spec_encode_snippets(es) =~= bytes);
    lemma_snippets_roundtrip(es);
}

/// Reading back the snippet file gives exactly the snippets that were written.
pub proof fn lemma_snippets_roundtrip(es: Seq<SnippetEntryView>)
    requires
        es.len() <= u64::MAX,
        forall|i: int| 0 <= i < es.len() ==> snippet_fits(#[trigger] es[i]),
    ensures
        spec_decode_snippets(spec_encode_snippets(es)) == Ok::<Seq<SnippetEntryView>, DecodeError>(es),
{
    let m = snippet_magic();
    let body = enc_snippet_list(es);
    let bytes = spec_encode_snippets(es);
    assert(bytes =~= m + (enc_u64(es.len() as u64) + body));
    assert(bytes.take(m.len() as int) =~= m);
    assert(bytes.skip(m.len() as int) =~= enc_u64(es.len() as u64) + body);
    lemma_dec_enc_u64(es.len() as u64, body);
    lemma_dec_enc_snippet_list(es, seq![]);
    assert(body + seq![] =~= body);
}

fn write_snippet(out: &mut Vec<u8>, e: &SnippetEntry)
    ensures
        final(out)@ == old(out)@ + enc_snippet(e@),
        snippet_fits(e@),
{
    write_text(out, e.name.as_str());
    write_text(out, e.content.as_str());
    write_u64(out, e.created_at);
    write_u64(out, e.updated_at);
    write_u64(out, e.use_count);
    assert(final(out)@ =~= old(out)@ + enc_snippet(e@));
}

/// The bytes of the snippet file holding `snippets`, in order.
pub fn encode_snippets(snippets: &[SnippetEntry]) -> (out: Vec<u8>)
    ensures
        out@ == spec_encode_snippets(snippets_view(snippets@)),
        spec_decode_snippets(out@) == Ok::<Seq<SnippetEntryView>, DecodeError>(
            snippets_view(snippets@),
        ),
{
    let ghost sv = snippets_view(snippets@);
    let mut out: Vec<u8> = Vec::new();
    let magic = "CLIPY_RS_SNIPPET_V1\n";
    push_all(&mut out, magic.as_bytes());
    write_u64(&mut out, snippets.len() as u64);
    let ghost start = out@;
    let mut i: usize = 0;
    while i < snippets.len()
        invariant
            i <= snippets@.len(),
            sv == snippets_view(snippets@),
            out@ == start + enc_snippet_list(sv.take(i as int)),
            forall|k: int| 0 <= k < i ==> snippet_fits(#[trigger] sv[k]),
        decreases snippets@.len() - i,
    {
        write_snippet(&mut out, &snippets[i]);
        assert(sv.take(i + 1).drop_last() =~= sv.take(i as int));
        assert(sv.take(i + 1).last() == snippets@[i as int]@);
        assert(out@ =~= start + enc_snippet_list(sv.take(i + 1)));
        i = i + 1;
    }
    assert(sv.take(snippets@.len() as int) =~= sv);
    assert(out@ =~= spec_encode_snippets(sv));
    proof {
        lemma_snippets_roundtrip(sv);
    }
    out
}

fn read_snippet(bytes: &[u8], pos: usize) -> (res: Result<(SnippetEntry, usize), DecodeError>)
    requires
        pos <= bytes@.len(),
    ensures
        match dec_snippet(bytes@.skip(pos as int)) {
            Ok((v, rest)) => res matches Ok((w, p)) && w@ == v && pos <= p <= bytes@.len()
                && rest == bytes@.skip(p as int),
            Err(e) => res == Err::<(SnippetEntry, usize), DecodeError>(e),
        },
{
    reveal(dec_snippet);
    let (name, p) = match read_text(bytes, pos) {
        Ok(x) => x,
        Err(e) => return Err(e),
    };
    let (content, p) = match read_text(bytes, p) {
        Ok(x) => x,
        Err(e) => return Err(e),
    };
    let (created_at, p) = match read_u64(bytes, p) {
        Ok(x) => x,
        Err(e) => return Err(e),
    };
    let (updated_at, p) = match read_u64(bytes, p) {
        Ok(x) => x,
        Err(e) => return Err(e),
    };
    let (use_count, p) = match read_u64(bytes, p) {
        Ok(x) => x,
        Err(e) => return Err(e),
    };
    Ok((SnippetEntry { name, content, created_at, updated_at, use_count }, p))
}

/// Reads the snippet file: its snippets when the bytes hold a well-formed file,
/// else the first problem met.
pub fn decode_snippets(bytes: &[u8]) -> (res: Result<Vec<SnippetEntry>, DecodeError>)
    ensures
        match spec_decode_snippets(bytes@) {
            Ok(es) => res matches Ok(v) && snippets_view(v@) == es,
            Err(e) => res == Err::<Vec<SnippetEntry>, DecodeError>(e),
        },
{
    let magic = "CLIPY_RS_SNIPPET_V1\n".as_bytes();
    assert(magic@ == snippet_magic());
    if !has_prefix(bytes, magic) {
        return Err(DecodeError::BadHeader(DataFile::Snippets));
    }
    let (n, p0) = match read_u64(bytes, magic.len()) {
        Ok(x) => x,
        Err(e) => return Err(e),
    };
    let ghost s0 = bytes@.skip(p0 as int);
    let mut snippets: Vec<SnippetEntry> = Vec::new();
    let mut p = p0;
    let mut i: u64 = 0;
    assert(snippets_view(snippets@) =~= Seq::<SnippetEntryView>::empty());
    assert(spec_decode_snippets(bytes@) == match dec_snippet_list(s0, n as nat) {
        Err(e) => Err(e),
        Ok((es, _)) => Ok::<Seq<SnippetEntryView>, DecodeError>(es),
    });
    while i < n
        invariant
            i <= n,
            spec_decode_snippets(bytes@) == match dec_snippet_list(s0, n as nat) {
                Err(e) => Err(e),
                Ok((es, _)) => Ok::<Seq<SnippetEntryView>, DecodeError>(es),
            },
            p <= bytes@.len(),
            s0 == bytes@.skip(p0 as int),
            dec_snippet_list(s0, i as nat) == Ok::<(Seq<SnippetEntryView>, Seq<u8>), DecodeError>(
                (snippets_view(snippets@), bytes@.skip(p as int)),
            ),
        decreases n - i,
    {
        match read_snippet(bytes, p) {
            Ok((e, p2)) => {
                let ghost prev = snippets@;
                snippets.push(e);
                p = p2;
                assert(snippets_view(snippets@) =~= snippets_view(prev).push(e@));
            },
            Err(err) => {
                proof {
                    assert(dec_snippet_list(s0, (i + 1) as nat) == Err::<
                        (Seq<SnippetEntryView>, Seq<u8>),
                        DecodeError,
                    >(err));
                    lemma_dec_snippet_list_err(s0, (i + 1) as nat, n as nat);
                }
                return Err(err);
            },
        }
        i = i + 1;
    }
    Ok(snippets)
}

// ---------------------------------------------------------------------------
// Rich history file: header, entry count, then each entry with its flavors.
// ---------------------------------------------------------------------------

/// The header that opens the rich history file.
pub open spec fn rich_magic() -> Seq<u8> {
    encode_utf8("CLIPY_RS_RICH_HISTORY_V1\n"@)
}

/// The kind byte: 1 for an image, 2 for a file.
pub open spec fn kind_byte(k: RichClipboardKind) -> u8 {
    match k {
        RichClipboardKind::Image => 1u8,
        RichClipboardKind::File => 2u8,
    }
}

/// One flavor on disk: its type name, then its data.
pub open spec fn enc_flavor(f: FlavorView) -> Seq<u8> {
    enc_text(f.flavor_type) + enc_bytes(f.data)
}

/// Flavors one after another.
pub open spec fn enc_flavor_list(fs: Seq<FlavorView>) -> Seq<u8>
    decreases fs.len(),
{
    if fs.len() == 0 {
        seq![]
    } else {
        enc_flavor_list(fs.drop_last()) + enc_flavor(fs.last())
    }
}

/// One rich history entry on disk.
pub open spec fn enc_rich_entry(e: RichHistoryEntryView) -> Seq<u8> {
    enc_u64(e.id) + seq![kind_byte(e.kind)] + enc_text(e.label) + enc_u64(e.created_at) + enc_u64(
        e.updated_at,
    ) + enc_u64(e.use_count) + enc_bool(e.pinned) + enc_u64(e.flavors.len() as u64)
        + enc_flavor_list(e.flavors)
}

/// Rich history entries one after another.
pub open spec fn enc_rich_list(es: Seq<RichHistoryEntryView>) -> Seq<u8>
    decreases es.len(),
{
    if es.len() == 0 {
        seq![]
    } else {
        enc_rich_list(es.drop_last()) + enc_rich_entry(es.last())
    }
}

/// The whole rich history file for `es`.
pub open spec fn spec_encode_rich_history(es: Seq<RichHistoryEntryView>) -> Seq<u8> {
    rich_magic() + enc_u64(es.len() as u64) + enc_rich_list(es)
}

/// Reads a kind byte.
pub open spec fn dec_kind(s: Seq<u8>) -> Result<(RichClipboardKind, Seq<u8>), DecodeError> {
    match dec_byte(s) {
        Err(e) => Err(e),
        Ok((b, r)) => if b == 1 {
            Ok((RichClipboardKind::Image, r))
        } else if b == 2 {
            Ok((RichClipboardKind::File, r))
        } else {
            Err(DecodeError::UnknownRichKind(b))
        },
    }
}

/// Reads one flavor.
pub open spec fn dec_flavor(s: Seq<u8>) -> Result<(FlavorView, Seq<u8>), DecodeError> {
    match dec_text(s) {
        Err(e) => Err(e),
        Ok((t, s1)) => match dec_bytes(s1) {
            Err(e) => Err(e),
            Ok((d, s2)) => Ok((FlavorView { flavor_type: t, data: d }, s2)),
        },
    }
}

/// Reads `n` flavors one after another.
pub open spec fn dec_flavor_list(s: Seq<u8>, n: nat) -> Result<(Seq<FlavorView>, Seq<u8>), DecodeError>
    decreases n,
{
    if n == 0 {
        Ok((seq![], s))
    } else {
        match dec_flavor_list(s, (n - 1) as nat) {
            Err(e) => Err(e),
            Ok((fs, r)) => match dec_flavor(r) {
                Err(e) => Err(e),
                Ok((f, r2)) => Ok((fs.push(f), r2)),
            },
        }
    }
}

/// The fixed fields that open a rich history entry on disk.
pub struct RichHead {
    pub id: u64,
    pub kind: RichClipboardKind,
    pub label: Seq<char>,
    pub created_at: u64,
    pub updated_at: u64,
    pub use_count: u64,
    pub pinned: bool,
}

/// Reads the fixed fields of a rich history entry.
#[verifier::opaque]
pub open spec fn dec_rich_head(s: Seq<u8>) -> Result<(RichHead, Seq<u8>), DecodeError> {
    match dec_u64(s) {
        Err(e) => Err(e),
        Ok((id, s1)) => match dec_kind(s1) {
            Err(e) => Err(e),
            Ok((kind, s2)) => match dec_text(s2) {
                Err(e) => Err(e),
                Ok((label, s3)) => match dec_u64(s3) {
                    Err(e) => Err(e),
                    Ok((created_at, s4)) => match dec_u64(s4) {
                        Err(e) => Err(e),
                        Ok((updated_at, s5)) => match dec_u64(s5) {
                            Err(e) => Err(e),
                            Ok((use_count, s6)) => match dec_bool(s6) {
                                Err(e) => Err(e),
                                Ok((pinned, s7)) => Ok(
                                    (
                                        RichHead {
                                            id,
                                            kind,
                                            label,
                                            created_at,
                                            updated_at,
                                            use_count,
                                            pinned,
                                        },
                                        s7,
                                    ),
                                ),
                            },
                        },
                    },
                },
            },
        },
    }
}

/// Reads one rich history entry: its fixed fields, a flavor count, then the flavors.
pub open spec fn dec_rich_entry(s: Seq<u8>) -> Result<(RichHistoryEntryView, Seq<u8>), DecodeError> {
    match dec_rich_head(s) {
        Err(e) => Err(e),
        Ok((h, s7)) => match dec_u64(s7) {
            Err(e) => Err(e),
            Ok((n, s8)) => match dec_flavor_list(s8, n as nat) {
                Err(e) => Err(e),
                Ok((flavors, s9)) => Ok(
                    (
                        RichHistoryEntryView {
                            id: h.id,
                            kind: h.kind,
                            label: h.label,
                            flavors,
                            created_at: h.created_at,
                            updated_at: h.updated_at,
                            use_count: h.use_count,
                            pinned: h.pinned,
                        },
                        s9,
                    ),
                ),
            },
        },
    }
}

/// Reads `n` rich history entries one after another.
pub open spec fn dec_rich_list(s: Seq<u8>, n: nat) -> Result<
    (Seq<RichHistoryEntryView>, Seq<u8>),
    DecodeError,
>
    decreases n,
{
    if n == 0 {
        Ok((seq![], s))
    } else {
        match dec_rich_list(s, (n - 1) as nat) {
            Err(e) => Err(e),
            Ok((es, r)) => match dec_rich_entry(r) {
                Err(e) => Err(e),
                Ok((e, r2)) => Ok((es.push(e), r2)),
            },
        }
    }
}

/// What reading the rich history file yields: its entries, or why it cannot be read.
pub open spec fn spec_decode_rich_history(bytes: Seq<u8>) -> Result<
    Seq<RichHistoryEntryView>,
    DecodeError,
> {
    let m = rich_magic();
    if bytes.len() < m.len() || bytes.take(m.len() as int) != m {
        Err(DecodeError::BadHeader(DataFile::RichHistory))
    } else {
        match dec_u64(bytes.skip(m.len() as int)) {
            Err(e) => Err(e),
            Ok((n, r)) => match dec_rich_list(r, n as nat) {
                Err(e) => Err(e),
                Ok((es, _)) => Ok(es),
            },
        }
    }
}

/// The flavor's type name and data fit their length prefixes.
pub open spec fn flavor_fits(f: FlavorView) -> bool {
    encode_utf8(f.flavor_type).len() <= u64::MAX && f.data.len() <= u64::MAX
}

/// Every length in the entry fits its length prefix.
pub open spec fn rich_entry_fits(e: RichHistoryEntryView) -> bool {
    &&& encode_utf8(e.label).len() <= u64::MAX
    &&& e.flavors.len() <= u64::MAX
    &&& forall|i: int| 0 <= i < e.flavors.len() ==> flavor_fits(#[trigger] e.flavors[i])
}

proof fn lemma_dec_enc_flavor_list(fs: Seq<FlavorView>, rest: Seq<u8>)
    requires
        forall|i: int| 0 <= i < fs.len() ==> flavor_fits(#[trigger] fs[i]),
    ensures
        dec_flavor_list(enc_flavor_list(fs) + rest, fs.len()) == Ok::<
            (Seq<FlavorView>, Seq<u8>),
            DecodeError,
        >((fs, rest)),
    decreases fs.len(),
{
    if fs.len() == 0 {
        assert(enc_flavor_list(fs) + rest =~= rest);
        assert(fs =~= Seq::<FlavorView>::empty());
    } else {
        let init = fs.drop_last();
        let last = fs.last();
        let tail = enc_flavor(last) + rest;
        assert(enc_flavor_list(fs) + rest =~= enc_flavor_list(init) + tail);
        assert forall|i: int| 0 <= i < init.len() implies flavor_fits(#[trigger] init[i]) by {
            assert(init[i] == fs[i]);
        }
        lemma_dec_enc_flavor_list(init, tail);
        assert(flavor_fits(fs[fs.len() - 1]));
        let r1 = enc_bytes(last.data) + rest;
        assert(tail =~= enc_text(last.flavor_type) + r1);
        lemma_dec_enc_text(last.flavor_type, r1);
        lemma_dec_enc_bytes(last.data, rest);
        assert(init.push(last) =~= fs);
        let s = enc_flavor_list(fs) + rest;
        assert(dec_flavor_list(s, init.len()) == Ok::<(Seq<FlavorView>, Seq<u8>), DecodeError>((init, tail)));
        assert(dec_flavor(tail) == Ok::<(FlavorView, Seq<u8>), DecodeError>((last, rest)));
        assert(dec_flavor_list(s, fs.len()) == Ok::<(Seq<FlavorView>, Seq<u8>), DecodeError>((init.push(last), rest)));
    }
}

#[verifier::spinoff_prover]
#[verifier::rlimit(50)]
proof fn lemma_dec_enc_rich_head(e: RichHistoryEntryView, rest: Seq<u8>)
    requires
        encode_utf8(e.label).len() <= u64::MAX,
    ensures
        dec_rich_head(
            enc_u64(e.id) + seq![kind_byte(e.kind)] + enc_text(e.label) + enc_u64(e.created_at)
                + enc_u64(e.updated_at) + enc_u64(e.use_count) + enc_bool(e.pinned) + rest,
        ) == Ok::<(RichHead, Seq<u8>), DecodeError>(
            (
                RichHead {
                    id: e.id,
                    kind: e.kind,
                    label: e.label,
                    created_at: e.created_at,
                    updated_at: e.updated_at,
                    use_count: e.use_count,
                    pinned: e.pinned,
                },
                rest,
            ),
        ),
{
    reveal(dec_rich_head);
    let r6 = enc_bool(e.pinned) + rest;
    let r5 = enc_u64(e.use_count) + r6;
    let r4 = enc_u64(e.updated_at) + r5;
    let r3 = enc_u64(e.created_at) + r4;
    let r2 = enc_text(e.label) + r3;
    let r1 = seq![kind_byte(e.kind)] + r2;
    assert(enc_u64(e.id) + seq![kind_byte(e.kind)] + enc_text(e.label) + enc_u64(e.created_at)
        + enc_u64(e.updated_at) + enc_u64(e.use_count) + enc_bool(e.pinned) + rest =~= enc_u64(
        e.id,
    ) + r1);
    lemma_dec_enc_u64(e.id, r1);
    assert(r1.skip(1) =~= r2);
    assert(dec_kind(r1) == Ok::<(RichClipboardKind, Seq<u8>), DecodeError>((e.kind, r2)));
    lemma_dec_enc_text(e.label, r3);
    lemma_dec_enc_u64(e.created_at, r4);
    lemma_dec_enc_u64(e.updated_at, r5);
    lemma_dec_enc_u64(e.use_count, r6);
    lemma_dec_enc_bool(e.pinned, rest);
}

proof fn lemma_dec_enc_rich_entry(e: RichHistoryEntryView, rest: Seq<u8>)
    requires
        rich_entry_fits(e),
    ensures
        dec_rich_entry(enc_rich_entry(e) + rest) == Ok::<(RichHistoryEntryView, Seq<u8>), DecodeError>(
            (e, rest),
        ),
{
    let r8 = enc_flavor_list(e.flavors) + rest;
    let r7 = enc_u64(e.flavors.len() as u64) + r8;
    let head = enc_u64(e.id) + seq![kind_byte(e.kind)] + enc_text(e.label) + enc_u64(e.created_at)
        + enc_u64(e.updated_at) + enc_u64(e.use_count) + enc_bool(e.pinned);
    assert(enc_rich_entry(e) + rest =~= head + r7);
    lemma_dec_enc_rich_head(e, r7);
    lemma_dec_enc_u64(e.flavors.len() as u64, r8);
    lemma_dec_enc_flavor_list(e.flavors, rest);
}

proof fn lemma_dec_enc_rich_list(es: Seq<RichHistoryEntryView>, rest: Seq<u8>)
    requires
        forall|i: int| 0 <= i < es.len() ==> rich_entry_fits(#[trigger] es[i]),
    ensures
        dec_rich_list(enc_rich_list(es) + rest, es.len()) == Ok::<
            (Seq<RichHistoryEntryView>, Seq<u8>),
            DecodeError,
        >((es, rest)),
    decreases es.len(),
{
    if es.len() == 0 {
        assert(enc_rich_list(es) + rest =~= rest);
        assert(es =~= Seq::<RichHistoryEntryView>::empty());
    } else {
        let init = es.drop_last();
        let last = es.last();
        let tail = enc_rich_entry(last) + rest;
        assert(enc_rich_list(es) + rest =~= enc_rich_list(init) + tail);
        assert forall|i: int| 0 <= i < init.len() implies rich_entry_fits(#[trigger] init[i]) by {
            assert(init[i] == es[i]);
        }
        lemma_dec_enc_rich_list(init, tail);
        assert(rich_entry_fits(es[es.len() - 1]));
        lemma_dec_enc_rich_entry(last, rest);
        assert(init.push(last) =~= es);
        let s = enc_rich_list(es) + rest;
        assert(dec_rich_list(s, init.len()) == Ok::<(Seq<RichHistoryEntryView>, Seq<u8>), DecodeError>((init, tail)));
        assert(dec_rich_list(s, es.len()) == Ok::<(Seq<RichHistoryEntryView>, Seq<u8>), DecodeError>((init.push(last), rest)));
    }
}

proof fn lemma_dec_rich_list_err(s: Seq<u8>, k: nat, m: nat)
    requires
        k <= m,
        dec_rich_list(s, k) is Err,
    ensures
        dec_rich_list(s, m) == dec_rich_list(s, k),
    decreases m,
{
    if m > k {
        lemma_dec_rich_list_err(s, k, (m - 1) as nat);
    }
}

proof fn lemma_dec_flavor_list_err(s: Seq<u8>, k: nat, m: nat)
    requires
        k <= m,
        dec_flavor_list(s, k) is Err,
    ensures
        dec_flavor_list(s, m) == dec_flavor_list(s, k),
    decreases m,
{
    if m > k {
        lemma_dec_flavor_list_err(s, k, (m - 1) as nat);
    }
}

/// The image and file history file's layout, byte by byte, for an entry with one
/// format: the header line `CLIPY_RS_RICH_HISTORY_V1`, the number of entries as eight
/// little-endian bytes, then the entry's identifier (eight little-endian bytes), a kind
/// byte (1 for an image, 2 for a file), its label as a UTF-8 byte count (eight
/// little-endian bytes) and the bytes, its creation time, update time and use count
/// (eight little-endian bytes each), a byte 1 or 0 for pinned or not, the number of
/// formats (eight little-endian bytes), and each format's type name as a UTF-8 byte count
/// and the bytes, then its data as a byte count and the bytes. Such a file reads back as
/// that entry, and it is exactly what saving that entry writes.
pub proof fn lemma_rich_history_file_layout(
    id: u64,
    kind: RichClipboardKind,
    label: Seq<char>,
    flavor_type: Seq<char>,
    data: Seq<u8>,
    created_at: u64,
    updated_at: u64,
    use_count: u64,
    pinned: bool,
)
    requires
        encode_utf8(label).len() <= u64::MAX,
        encode_utf8(flavor_type).len() <= u64::MAX,
        data.len() <= u64::MAX,
    ensures
        ({
            let bytes = encode_utf8("CLIPY_RS_RICH_HISTORY_V1\n"@) + spec_u64_to_le_bytes(1)
                + spec_u64_to_le_bytes(id) + seq![
                match kind {
                    RichClipboardKind::Image => 1u8,
                    RichClipboardKind::File => 2u8,
                },
            ] + spec_u64_to_le_bytes(encode_utf8(label).len() as u64) + encode_utf8(label)
                + spec_u64_to_le_bytes(created_at) + spec_u64_to_le_bytes(updated_at)
                + spec_u64_to_le_bytes(use_count) + seq![
                if pinned {
                    1u8
                } else {
                    0u8
                },
            ] + spec_u64_to_le_bytes(1) + spec_u64_to_le_bytes(
                encode_utf8(flavor_type).len() as u64,
            ) + encode_utf8(flavor_type) + spec_u64_to_le_bytes(data.len() as u64) + data;
            let e = RichHistoryEntryView {
                id,
                kind,
                label,
                flavors: seq![FlavorView { flavor_type, data }],
                created_at,
                updated_at,
                use_count,
                pinned,
            };
            &&& spec_decode_rich_history(bytes) == Ok::<Seq<RichHistoryEntryView>, DecodeError>(
                seq![e],
            )
            &&& spec_encode_rich_history(seq![e]) == bytes
        }),
{
    let f = FlavorView { flavor_type, data };
    let fs = seq![f];
    let e = RichHistoryEntryView {
        id,
        kind,
        label,
        flavors: fs,
        created_at,
        updated_at,
        use_count,
        pinned,
    };
    let es = seq![e];
    assert(fs.drop_last() =~= Seq::<FlavorView>::empty());
    assert(enc_flavor_list(fs.drop_last()) =~= Seq::<u8>::empty());
    assert(enc_flavor_list(fs) =~= enc_flavor(f));
    assert(es.drop_last() =~= Seq::<RichHistoryEntryView>::empty());
    assert(enc_rich_list(es.drop_last()) =~= Seq::<u8>::empty());
    assert(enc_rich_list(es) =~= enc_rich_entry(e));
    let bytes = encode_utf8("CLIPY_RS_RICH_HISTORY_V1\n"@) + spec_u64_to_le_bytes(1)
        + spec_u64_to_le_bytes(id) + seq![
        match kind {
            RichClipboardKind::Image => 1u8,
            RichClipboardKind::File => 2u8,
        },
    ] + spec_u64_to_le_bytes(encode_utf8(label).len() as u64) + encode_utf8(label)
        + spec_u64_to_le_bytes(created_at) + spec_u64_to_le_bytes(updated_at)
        + spec_u64_to_le_bytes(use_count) + seq![
        if pinned {
            1u8
        } else {
            0u8
        },
    ] + spec_u64_to_le_bytes(1) + spec_u64_to_le_bytes(encode_utf8(flavor_type).len() as u64)
        + encode_utf8(flavor_type) + spec_u64_to_le_bytes(data.len() as u64) + data;
    assert(spec_encode_rich_history(es) =~= bytes);
    assert(rich_entry_fits(e)) by {
        assert forall|i: int| 0 <= i < e.flavors.len() implies flavor_fits(#[trigger] e.flavors[i]) by {
            assert(e.flavors[i] == f);
        }
    }
    lemma_rich_history_roundtrip(es);
}

/// Reading back the rich history file gives exactly the entries that were written.
pub proof fn lemma_rich_history_roundtrip(es: Seq<RichHistoryEntryView>)
    requires
        es.len() <= u64::MAX,
        forall|i: int| 0 <= i < es.len() ==> rich_entry_fits(#[trigger] es[i]),
    ensures
        spec_decode_rich_history(spec_encode_rich_history(es)) == Ok::<
            Seq<RichHistoryEntryView>,
            DecodeError,
        >(es),
{
    let m = rich_magic();
    let body = enc_rich_list(es);
    let bytes = spec_encode_rich_history(es);
    assert(bytes =~= m + (enc_u64(es.len() as u64) + body));
    assert(bytes.take(m.len() as int) =~= m);
    assert(bytes.skip(m.len() as int) =~= enc_u64(es.len() as u64) + body);
    lemma_dec_enc_u64(es.len() as u64, body);
    lemma_dec_enc_rich_list(es, seq![]);
    assert(body + seq![] =~= body);
}

fn write_flavor(out: &mut Vec<u8>, f: &RichClipboardFlavor)
    ensures
        final(out)@ == old(out)@ + enc_flavor(f@),
        flavor_fits(f@),
{
    write_text(out, f.flavor_type.as_str());
    write_bytes(out, f.data.as_slice());
    assert(f@.data == f.data@ && f.data@.len() == f.data.len());
    assert(final(out)@ =~= old(out)@ + enc_flavor(f@));
}

fn write_rich_entry(out: &mut Vec<u8>, e: &RichHistoryEntry)
    ensures
        final(out)@ == old(out)@ + enc_rich_entry(e@),
        rich_entry_fits(e@),
{
    let ghost fv = flavors_view(e.flavors@);
    write_u64(out, e.id);
    out.push(
        match e.kind {
            RichClipboardKind::Image => 1u8,
            RichClipboardKind::File => 2u8,
        },
    );
    write_text(out, e.label.as_str());
    write_u64(out, e.created_at);
    write_u64(out, e.updated_at);
    write_u64(out, e.use_count);
    write_bool(out, e.pinned);
    write_u64(out, e.flavors.len() as u64);
    let ghost start = out@;
    let mut i: usize = 0;
    while i < e.flavors.len()
        invariant
            i <= e.flavors@.len(),
            fv == flavors_view(e.flavors@),
            out@ == start + enc_flavor_list(fv.take(i as int)),
            encode_utf8(e@.label).len() <= u64::MAX,
            forall|k: int| 0 <= k < i ==> flavor_fits(#[trigger] fv[k]),
        decreases e.flavors@.len() - i,
    {
        write_flavor(out, &e.flavors[i]);
        assert(fv.take(i + 1).drop_last() =~= fv.take(i as int));
        assert(fv.take(i + 1).last() == e.flavors@[i as int]@);
        assert(out@ =~= start + enc_flavor_list(fv.take(i + 1)));
        i = i + 1;
    }
    assert(fv.take(e.flavors@.len() as int) =~= fv);
    assert(final(out)@ =~= old(out)@ + enc_rich_entry(e@));
}

/// The bytes of the rich history file holding `entries`, in order.
pub fn encode_rich_history(entries: &[RichHistoryEntry]) -> (out: Vec<u8>)
    ensures
        out@ == spec_encode_rich_history(rich_history_view(entries@)),
        spec_decode_rich_history(out@) == Ok::<Seq<RichHistoryEntryView>, DecodeError>(
            rich_history_view(entries@),
        ),
{
    let ghost rv = rich_history_view(entries@);
    let mut out: Vec<u8> = Vec::new();
    let magic = "CLIPY_RS_RICH_HISTORY_V1\n";
    push_all(&mut out, magic.as_bytes());
    write_u64(&mut out, entries.len() as u64);
    let ghost start = out@;
    let mut i: usize = 0;
    while i < entries.len()
        invariant
            i <= entries@.len(),
            rv == rich_history_view(entries@),
            out@ == start + enc_rich_list(rv.take(i as int)),
            forall|k: int| 0 <= k < i ==> rich_entry_fits(#[trigger] rv[k]),
        decreases entries@.len() - i,
    {
        write_rich_entry(&mut out, &entries[i]);
        assert(rv.take(i + 1).drop_last() =~= rv.take(i as int));
        assert(rv.take(i + 1).last() == entries@[i as int]@);
        assert(out@ =~= start + enc_rich_list(rv.take(i + 1)));
        i = i + 1;
    }
    assert(rv.take(entries@.len() as int) =~= rv);
    assert(out@ =~= spec_encode_rich_history(rv));
    proof {
        lemma_rich_history_roundtrip(rv);
    }
    out
}

fn read_flavor(bytes: &[u8], pos: usize) -> (res: Result<(RichClipboardFlavor, usize), DecodeError>)
    requires
        pos <= bytes@.len(),
    ensures
        match dec_flavor(bytes@.skip(pos as int)) {
            Ok((v, rest)) => res matches Ok((w, p)) && w@ == v && pos <= p <= bytes@.len()
                && rest == bytes@.skip(p as int),
            Err(e) => res == Err::<(RichClipboardFlavor, usize), DecodeError>(e),
        },
{
    let (flavor_type, p) = match read_text(bytes, pos) {
        Ok(x) => x,
        Err(e) => return Err(e),
    };
    let (data, p) = match read_bytes(bytes, p) {
        Ok(x) => x,
        Err(e) => return Err(e),
    };
    Ok((RichClipboardFlavor { flavor_type, data }, p))
}

fn read_flavors(bytes: &[u8], pos: usize, n: u64) -> (res: Result<
    (Vec<RichClipboardFlavor>, usize),
    DecodeError,
>)
    requires
        pos <= bytes@.len(),
    ensures
        match dec_flavor_list(bytes@.skip(pos as int), n as nat) {
            Ok((v, rest)) => res matches Ok((w, p)) && flavors_view(w@) == v && pos <= p
                <= bytes@.len() && rest == bytes@.skip(p as int),
            Err(e) => res == Err::<(Vec<RichClipboardFlavor>, usize), DecodeError>(e),
        },
{
    let ghost s0 = bytes@.skip(pos as int);
    let mut flavors: Vec<RichClipboardFlavor> = Vec::new();
    let mut p = pos;
    let mut i: u64 = 0;
    assert(flavors_view(flavors@) =~= Seq::<FlavorView>::empty());
    while i < n
        invariant
            i <= n,
            pos <= p <= bytes@.len(),
            s0 == bytes@.skip(pos as int),
            dec_flavor_list(s0, i as nat) == Ok::<(Seq<FlavorView>, Seq<u8>), DecodeError>(
                (flavors_view(flavors@), bytes@.skip(p as int)),
            ),
        decreases n - i,
    {
        match read_flavor(bytes, p) {
            Ok((f, p2)) => {
                let ghost prev = flavors@;
                flavors.push(f);
                p = p2;
                assert(flavors_view(flavors@) =~= flavors_view(prev).push(f@));
            },
            Err(err) => {
                proof {
                    assert(dec_flavor_list(s0, (i + 1) as nat) == Err::<
                        (Seq<FlavorView>, Seq<u8>),
                        DecodeError,
                    >(err));
                    lemma_dec_flavor_list_err(s0, (i + 1) as nat, n as nat);
                }
                return Err(err);
            },
        }
        i = i + 1;
    }
    Ok((flavors, p))
}

fn read_rich_entry(bytes: &[u8], pos: usize) -> (res: Result<(RichHistoryEntry, usize), DecodeError>)
    requires
        pos <= bytes@.len(),
    ensures
        match dec_rich_entry(bytes@.skip(pos as int)) {
            Ok((v, rest)) => res matches Ok((w, p)) && w@ == v && pos <= p <= bytes@.len()
                && rest == bytes@.skip(p as int),
            Err(e) => res == Err::<(RichHistoryEntry, usize), DecodeError>(e),
        },
{
    reveal(dec_rich_head);
    let (id, p) = match read_u64(bytes, pos) {
        Ok(x) => x,
        Err(e) => return Err(e),
    };
    let (raw_kind, p) = match read_byte(bytes, p) {
        Ok(x) => x,
        Err(e) => return Err(e),
    };
    let kind = if raw_kind == 1 {
        RichClipboardKind::Image
    } else if raw_kind == 2 {
        RichClipboardKind::File
    } else {
        return Err(DecodeError::UnknownRichKind(raw_kind));
    };
    let (label, p) = match read_text(bytes, p) {
        Ok(x) => x,
        Err(e) => return Err(e),
    };
    let (created_at, p) = match read_u64(bytes, p) {
        Ok(x) => x,
        Err(e) => return Err(e),
    };
    let (updated_at, p) = match read_u64(bytes, p) {
        Ok(x) => x,
        Err(e) => return Err(e),
    };
    let (use_count, p) = match read_u64(bytes, p) {
        Ok(x) => x,
        Err(e) => return Err(e),
    };
    let (pinned, p) = match read_bool(bytes, p) {
        Ok(x) => x,
        Err(e) => return Err(e),
    };
    let (n, p) = match read_u64(bytes, p) {
        Ok(x) => x,
        Err(e) => return Err(e),
    };
    let (flavors, p) = match read_flavors(bytes, p, n) {
        Ok(x) => x,
        Err(e) => return Err(e),
    };
    Ok(
        (
            RichHistoryEntry {
                id,
                kind,
                label,
                flavors,
                created_at,
                updated_at,
                use_count,
                pinned,
            },
            p,
        ),
    )
}

/// Reads the rich history file: its entries when the bytes hold a well-formed file,
/// else the first problem met.
pub fn decode_rich_history(bytes: &[u8]) -> (res: Result<Vec<RichHistoryEntry>, DecodeError>)
    ensures
        match spec_decode_rich_history(bytes@) {
            Ok(es) => res matches Ok(v) && rich_history_view(v@) == es,
            Err(e) => res == Err::<Vec<RichHistoryEntry>, DecodeError>(e),
        },
{
    let magic = "CLIPY_RS_RICH_HISTORY_V1\n".as_bytes();
    assert(magic@ == rich_magic());
    if !has_prefix(bytes, magic) {
        return Err(DecodeError::BadHeader(DataFile::RichHistory));
    }
    let (n, p0) = match read_u64(bytes, magic.len()) {
        Ok(x) => x,
        Err(e) => return Err(e),
    };
    let ghost s0 = bytes@.skip(p0 as int);
    let mut entries: Vec<RichHistoryEntry> = Vec::new();
    let mut p = p0;
    let mut i: u64 = 0;
    assert(rich_history_view(entries@) =~= Seq::<RichHistoryEntryView>::empty());
    assert(spec_decode_rich_history(bytes@) == match dec_rich_list(s0, n as nat) {
        Err(e) => Err(e),
        Ok((es, _)) => Ok::<Seq<RichHistoryEntryView>, DecodeError>(es),
    });
    while i < n
        invariant
            i <= n,
            spec_decode_rich_history(bytes@) == match dec_rich_list(s0, n as nat) {
                Err(e) => Err(e),
                Ok((es, _)) => Ok::<Seq<RichHistoryEntryView>, DecodeError>(es),
            },
            p <= bytes@.len(),
            s0 == bytes@.skip(p0 as int),
            dec_rich_list(s0, i as nat) == Ok::<(Seq<RichHistoryEntryView>, Seq<u8>), DecodeError>(
                (rich_history_view(entries@), bytes@.skip(p as int)),
            ),
        decreases n - i,
    {
        match read_rich_entry(bytes, p) {
            Ok((e, p2)) => {
                let ghost prev = entries@;
                entries.push(e);
                p = p2;
                assert(rich_history_view(entries@) =~= rich_history_view(prev).push(e@));
            },
            Err(err) => {
                proof {
                    assert(dec_rich_list(s0, (i + 1) as nat) == Err::<
                        (Seq<RichHistoryEntryView>, Seq<u8>),
                        DecodeError,
                    >(err));
                    lemma_dec_rich_list_err(s0, (i + 1) as nat, n as nat);
                }
                return Err(err);
            },
        }
        i = i + 1;
    }
    Ok(entries)
}

} // verus!
