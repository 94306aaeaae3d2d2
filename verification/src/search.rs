use vstd::prelude::*;
use crate::model::{history_view, HistoryEntry, HistoryEntryView};
use crate::preview::{normalize_search_text, spec_normalize_search_text};
use crate::seqs::{
    first_index, lemma_first_index, lemma_stable_sort, precedes, sorted_by, stable_sort,
    strict_order,
};
use crate::text::{
    chars_eq, chars_of, contains_chars, contains_sub, find_from, find_sub, is_prefix,
    char_utf8_len, is_white_space, is_whitespace_char, lemma_encode_utf8_push, lemma_find_sub,
    lemma_utf8_len_prefix, occurs_at, starts_with_chars, utf8_len,
};
use vstd::utf8::encode_scalar;

verus! {

// ---------------------------------------------------------------------------
// Scoring one entry against a search.
// ---------------------------------------------------------------------------

/// The words of `s`: its maximal runs of characters that are not white space, as
/// `str::split_whitespace` gives them.
pub open spec fn split_words(s: Seq<char>) -> Seq<Seq<char>>
    decreases s.len(),
{
    if s.len() == 0 {
        seq![]
    } else {
        let w = split_words(s.drop_last());
        let c = s.last();
        if is_white_space(c) {
            w
        } else if s.len() >= 2 && !is_white_space(s[s.len() - 2]) {
            w.update(w.len() - 1, w.last().push(c))
        } else {
            w.push(seq![c])
        }
    }
}

/// The byte offset at which the character at position `k` of `s` starts.
pub open spec fn byte_offset(s: Seq<char>, k: int) -> int {
    utf8_len(s.take(k)) as int
}

/// The smallest byte offset at which one of `ws` first occurs in `c`.
pub open spec fn first_word_offset(c: Seq<char>, ws: Seq<Seq<char>>) -> int
    decreases ws.len(),
{
    if ws.len() == 0 {
        0
    } else if ws.len() == 1 {
        byte_offset(c, find_sub(c, ws[0]))
    } else {
        let m = first_word_offset(c, ws.drop_last());
        let f = byte_offset(c, find_sub(c, ws.last()));
        if f < m {
            f
        } else {
            m
        }
    }
}

/// The score of matching the characters of `q` one after another in `c`, each at its
/// first occurrence after the previous match: 100 per character, less 12 per byte before
/// the first match and 8 per byte skipped between matches, plus 25 for each match right
/// after the previous one. `None` when some character cannot be matched.
pub open spec fn fuzzy_from(q: Seq<char>, c: Seq<char>, pos: int, last: Option<int>, score: int) -> Option<
    int,
>
    decreases q.len(),
{
    if q.len() == 0 {
        Some(score)
    } else {
        let k = pos + first_index(c.skip(pos), |x: char| x == q[0]);
        if k >= c.len() {
            None
        } else {
            let abs = byte_offset(c, k);
            let s1 = match last {
                Some(prev) => {
                    let gap = if abs > prev + 1 {
                        abs - prev - 1
                    } else {
                        0
                    };
                    score - gap * 8 + if gap == 0 {
                        25int
                    } else {
                        0
                    }
                },
                None => score - abs * 12,
            } + 100;
            fuzzy_from(q.drop_first(), c, k + 1, Some(abs), s1)
        }
    }
}

/// The fuzzy score of `q` in `c`, as [`fuzzy_from`] computes it from the start.
pub open spec fn spec_fuzzy_score(q: Seq<char>, c: Seq<char>) -> Option<int> {
    fuzzy_from(q, c, 0, None, 0)
}

/// How well a normalized text `c` matches a normalized query: 1,000,000 for the same
/// text; 900,000 less the extra bytes when the text starts with the query; 800,000 less
/// 20 per byte before the query where the text contains it; 700,000 plus 1,000 per word
/// less 10 per byte before the earliest word when the text contains every word of the
/// query; else 500,000 plus the fuzzy score, if the query's characters occur in order.
/// An empty text never matches.
pub open spec fn spec_score_normalized(query: Seq<char>, c: Seq<char>) -> Option<int> {
    let ws = split_words(query);
    if c.len() == 0 {
        None
    } else if c == query {
        Some(1_000_000)
    } else if is_prefix(query, c) {
        Some(900_000 - (utf8_len(c) - utf8_len(query)))
    } else if find_sub(c, query) >= 0 {
        Some(800_000 - byte_offset(c, find_sub(c, query)) * 20)
    } else if ws.len() > 0 && (forall|i: int| 0 <= i < ws.len() ==> contains_sub(c, #[trigger] ws[i])) {
        Some(700_000 + ws.len() * 1000 - first_word_offset(c, ws) * 10)
    } else {
        match spec_fuzzy_score(query, c) {
            Some(s) => Some(500_000 + s),
            None => None,
        }
    }
}

/// How well an entry's text matches a normalized query: the text is compared in its
/// normalized form, as [`spec_score_normalized`] scores it.
pub open spec fn spec_history_match_score(query: Seq<char>, content: Seq<char>) -> Option<int> {
    spec_score_normalized(query, spec_normalize_search_text(content))
}

// ---------------------------------------------------------------------------
// Executable scoring.
// ---------------------------------------------------------------------------

/// The characters of `s` and the byte offset at which each of them starts, with the
/// total length at the end.
fn byte_offsets(s: &str) -> (r: (Vec<char>, Vec<usize>))
    ensures
        r.0@ == s@,
        r.1@.len() == s@.len() + 1,
        forall|k: int| 0 <= k <= s@.len() ==> #[trigger] r.1@[k] == byte_offset(s@, k),
        forall|i: int, j: int| 0 <= i <= j <= s@.len() ==> #[trigger] r.1@[i] <= #[trigger] r.1@[j],
{
    let total = s.as_bytes().len();
    let c = chars_of(s);
    let mut offs: Vec<usize> = Vec::new();
    offs.push(0);
    assert(s@.take(0) =~= Seq::<char>::empty());
    let mut acc: usize = 0;
    let mut i: usize = 0;
    while i < c.len()
        invariant
            i <= c@.len(),
            c@ == s@,
            total == utf8_len(s@),
            acc == utf8_len(s@.take(i as int)),
            offs@.len() == i + 1,
            forall|k: int| 0 <= k <= i ==> #[trigger] offs@[k] == byte_offset(s@, k),
        decreases c@.len() - i,
    {
        proof {
            assert(s@.take(i + 1) =~= s@.take(i as int).push(s@[i as int]));
            lemma_encode_utf8_push(s@.take(i as int), s@[i as int]);
            lemma_utf8_len_prefix(s@, i + 1);
        }
        acc = acc + char_utf8_len(c[i]);
        offs.push(acc);
        i = i + 1;
    }
    assert forall|a: int, b: int| 0 <= a <= b <= s@.len() implies #[trigger] offs@[a] <= #[trigger] offs@[b] by {
        lemma_utf8_len_prefix(s@.take(b), a);
        assert(s@.take(b).take(a) =~= s@.take(a));
    }
    (c, offs)
}

/// The words of `q`, as [`split_words`] describes.
fn split_words_exec(q: &[char]) -> (out: Vec<Vec<char>>)
    ensures
        out@.map_values(|w: Vec<char>| w@) == split_words(q@),
{
    let mut out: Vec<Vec<char>> = Vec::new();
    let mut i: usize = 0;
    assert(q@.take(0) =~= Seq::<char>::empty());
    assert(out@.map_values(|w: Vec<char>| w@) =~= split_words(q@.take(0)));
    while i < q.len()
        invariant
            i <= q@.len(),
            out@.map_values(|w: Vec<char>| w@) == split_words(q@.take(i as int)),
            i > 0 && !is_white_space(q@[i - 1]) ==> out@.len() > 0,
        decreases q@.len() - i,
    {
        let c = q[i];
        let ghost before = out@.map_values(|w: Vec<char>| w@);
        let ghost t = q@.take(i + 1);
        assert(t.drop_last() =~= q@.take(i as int));
        assert(t.last() == c);
        if is_whitespace_char(c) {
        } else if i > 0 && !is_whitespace_char(q[i - 1]) {
            assert(t[t.len() - 2] == q@[i - 1]);
            let last = out.len() - 1;
            let mut w = out.remove(last);
            let ghost old_w = w@;
            w.push(c);
            out.push(w);
            assert(out@.map_values(|w: Vec<char>| w@) =~= before.update(
                before.len() - 1,
                before.last().push(c),
            ));
        } else {
            proof {
                if i > 0 {
                    assert(t[t.len() - 2] == q@[i - 1]);
                }
            }
            let mut w: Vec<char> = Vec::new();
            w.push(c);
            out.push(w);
            assert(out@.map_values(|w: Vec<char>| w@) =~= before.push(seq![c]));
        }
        i = i + 1;
    }
    assert(q@.take(q@.len() as int) =~= q@);
    out
}

/// The fuzzy score of `q` in `c`, given the byte offsets of `c`.
fn fuzzy_score(q: &[char], c: &[char], offs: &[usize]) -> (r: Option<i128>)
    requires
        offs@.len() == c@.len() + 1,
        forall|k: int| 0 <= k <= c@.len() ==> #[trigger] offs@[k] == byte_offset(c@, k),
        forall|i: int, j: int| 0 <= i <= j <= c@.len() ==> #[trigger] offs@[i] <= #[trigger] offs@[j],
    ensures
        match spec_fuzzy_score(q@, c@) {
            Some(s) => r matches Some(x) && x == s,
            None => r is None,
        },
        r matches Some(x) ==> -12 * (usize::MAX as int) <= x <= 125 * q@.len(),
{
    let mut pos: usize = 0;
    let mut last: Option<usize> = None;
    let mut score: i128 = 0;
    let mut j: usize = 0;
    assert(q@.skip(0) =~= q@);
    while j < q.len()
        invariant
            j <= q@.len(),
            pos <= c@.len(),
            offs@.len() == c@.len() + 1,
            forall|k: int| 0 <= k <= c@.len() ==> #[trigger] offs@[k] == byte_offset(c@, k),
            forall|a: int, b: int| 0 <= a <= b <= c@.len() ==> #[trigger] offs@[a] <= #[trigger] offs@[b],
            spec_fuzzy_score(q@, c@) == fuzzy_from(
                q@.skip(j as int),
                c@,
                pos as int,
                match last {
                    Some(p) => Some(p as int),
                    None => None,
                },
                score as int,
            ),
            score <= 125 * j,
            match last {
                Some(p) => pos > 0 && p == offs@[pos - 1] && -12 * p <= score,
                None => pos == 0 && score == 0,
            },
        decreases q@.len() - j,
    {
        let ch = q[j];
        let ghost rest = q@.skip(j as int);
        assert(rest[0] == ch);
        assert(rest.drop_first() =~= q@.skip(j + 1));
        let ghost p = |x: char| x == rest[0];
        let mut k = pos;
        while k < c.len() && c[k] != ch
            invariant
                pos <= k <= c@.len(),
                rest[0] == ch,
                p == (|x: char| x == rest[0]),
                forall|m: int| 0 <= m < k - pos ==> !p(#[trigger] c@.skip(pos as int)[m]),
            decreases c@.len() - k,
        {
            assert(c@.skip(pos as int)[k - pos] == c@[k as int]);
            k = k + 1;
        }
        proof {
            if k < c@.len() {
                assert(c@.skip(pos as int)[k - pos] == c@[k as int]);
            }
            lemma_first_index(c@.skip(pos as int), p, k - pos);
        }
        if k == c.len() {
            return None;
        }
        let abs = offs[k];
        let mut next: i128 = score;
        match last {
            Some(prev) => {
                assert(prev <= abs);
                let gap: usize = if abs - prev > 1 {
                    abs - prev - 1
                } else {
                    0
                };
                next = next - (gap as i128) * 8;
                if gap == 0 {
                    next = next + 25;
                }
            },
            None => {
                next = next - (abs as i128) * 12;
            },
        }
        next = next + 100;
        score = next;
        last = Some(abs);
        pos = k + 1;
        j = j + 1;
    }
    Some(score)
}

/// How well a normalized text matches a normalized query, as [`spec_score_normalized`]
/// describes; the score is kept as an `i64`.
pub fn score_normalized(query: &str, content: &str) -> (r: Option<i64>)
    ensures
        match spec_score_normalized(query@, content@) {
            Some(s) => r == Some(s as i64),
            None => r is None,
        },
{
    let (c, offs) = byte_offsets(content);
    let ghost cv = c@;
    if c.len() == 0 {
        return None;
    }
    let q = chars_of(query);
    if chars_eq(c.as_slice(), q.as_slice()) {
        return Some(1_000_000);
    }
    if starts_with_chars(c.as_slice(), q.as_slice()) {
        let qbytes = query.as_bytes().len();
        let total = offs[c.len()];
        proof {
            assert(c@.take(c@.len() as int) =~= c@);
            assert(c@.take(q@.len() as int) == q@);
        }
        let v: i128 = 900_000 - ((total as i128) - (qbytes as i128));
        return Some(v as i64);
    }
    match find_from(c.as_slice(), q.as_slice(), 0) {
        Some(i) => {
            assert(c@.skip(0) =~= c@);
            proof {
                lemma_find_sub(c@, q@);
            }
            let v: i128 = 800_000 - (offs[i] as i128) * 20;
            return Some(v as i64);
        },
        None => {
            assert(c@.skip(0) =~= c@);
        },
    }
    let words = split_words_exec(q.as_slice());
    let ghost ws = split_words(q@);
    assert(words@.len() == ws.len());
    let mut all = words.len() > 0;
    let mut best: usize = 0;
    let mut w: usize = 0;
    while all && w < words.len()
        invariant
            w <= words@.len(),
            words@.map_values(|x: Vec<char>| x@) == ws,
            words@.len() == ws.len(),
            offs@.len() == c@.len() + 1,
            forall|k: int| 0 <= k <= c@.len() ==> #[trigger] offs@[k] == byte_offset(c@, k),
            all ==> ws.len() > 0,
            all ==> forall|m: int| 0 <= m < w ==> contains_sub(c@, #[trigger] ws[m]),
            all && w > 0 ==> best == first_word_offset(c@, ws.take(w as int)),
            !all ==> !(ws.len() > 0 && (forall|m: int| 0 <= m < ws.len() ==> contains_sub(c@, #[trigger] ws[m]))),
        decreases words@.len() - w,
    {
        let word = words[w].as_slice();
        assert(ws[w as int] == words@[w as int]@);
        assert(c@.skip(0) =~= c@);
        match find_from(c.as_slice(), word, 0) {
            Some(i) => {
                proof {
                    lemma_find_sub(c@, ws[w as int]);
                }
                let off = offs[i];
                assert(ws.take(w + 1).drop_last() =~= ws.take(w as int));
                assert(ws.take(w + 1).last() == ws[w as int]);
                if w == 0 || off < best {
                    best = off;
                }
                assert(contains_sub(c@, ws[w as int]));
            },
            None => {
                proof {
                    lemma_find_sub(c@, ws[w as int]);
                    if contains_sub(c@, ws[w as int]) {
                        let k = choose|k: int| #[trigger] occurs_at(c@, ws[w as int], k);
                        assert(occurs_at(c@, ws[w as int], k));
                    }
                }
                all = false;
            },
        }
        w = w + 1;
    }
    if all {
        assert(ws.take(ws.len() as int) =~= ws);
        let v: i128 = 700_000 + (words.len() as i128) * 1000 - (best as i128) * 10;
        return Some(v as i64);
    }
    let qn = q.len();
    assert(q@.len() == qn);
    match fuzzy_score(q.as_slice(), c.as_slice(), offs.as_slice()) {
        Some(s) => {
            let v: i128 = 500_000 + s;
            Some(v as i64)
        },
        None => None,
    }
}

/// How well an entry's text matches a normalized query, as
/// [`spec_history_match_score`] describes; the score is kept as an `i64`.
pub fn history_match_score(query: &str, content: &str) -> (r: Option<i64>)
    ensures
        match spec_history_match_score(query@, content@) {
            Some(s) => r == Some(s as i64),
            None => r is None,
        },
{
    let normalized = normalize_search_text(content);
    score_normalized(query, normalized.as_str())
}

// ---------------------------------------------------------------------------
// Ranking the history.
// ---------------------------------------------------------------------------

/// The order of search results: higher score first, then more uses, then more recently
/// updated, then higher identifier.
pub open spec fn ranked_before() -> spec_fn((HistoryEntryView, i64), (HistoryEntryView, i64)) -> bool {
    |a: (HistoryEntryView, i64), b: (HistoryEntryView, i64)|
        a.1 > b.1 || (a.1 == b.1 && (a.0.use_count > b.0.use_count || (a.0.use_count
            == b.0.use_count && (a.0.updated_at > b.0.updated_at || (a.0.updated_at
            == b.0.updated_at && a.0.id > b.0.id)))))
}

/// The entries that match the normalized query `q`, in their order, each with its score.
pub open spec fn scored_entries(es: Seq<HistoryEntryView>, q: Seq<char>) -> Seq<(HistoryEntryView, i64)>
    decreases es.len(),
{
    if es.len() == 0 {
        seq![]
    } else {
        let r = scored_entries(es.drop_last(), q);
        match spec_history_match_score(q, es.last().content) {
            Some(sc) => r.push((es.last(), sc as i64)),
            None => r,
        }
    }
}

/// The search results for `query`: nothing for a query that normalizes to empty text;
/// otherwise the matching entries, best first, ties keeping their order.
pub open spec fn spec_ranked_history(es: Seq<HistoryEntryView>, query: Seq<char>) -> Seq<HistoryEntryView> {
    let q = spec_normalize_search_text(query);
    if q.len() == 0 {
        seq![]
    } else {
        stable_sort(scored_entries(es, q), ranked_before()).map_values(
            |p: (HistoryEntryView, i64)| p.0,
        )
    }
}

/// The values of scored entries.
pub open spec fn pairs_view(v: Seq<(HistoryEntry, i64)>) -> Seq<(HistoryEntryView, i64)> {
    v.map_values(|p: (HistoryEntry, i64)| (p.0@, p.1))
}

fn ranked_precedes(a: &(HistoryEntry, i64), b: &(HistoryEntry, i64)) -> (r: bool)
    ensures
        r == ranked_before()((a.0@, a.1), (b.0@, b.1)),
{
    a.1 > b.1 || (a.1 == b.1 && (a.0.use_count > b.0.use_count || (a.0.use_count == b.0.use_count
        && (a.0.updated_at > b.0.updated_at || (a.0.updated_at == b.0.updated_at && a.0.id
        > b.0.id)))))
}

/// The history entries that match `query`, best first, as [`spec_ranked_history`]
/// describes.
pub fn ranked_history_matches(entries: Vec<HistoryEntry>, query: &str) -> (out: Vec<HistoryEntry>)
    ensures
        history_view(out@) == spec_ranked_history(history_view(entries@), query@),
{
    let q = normalize_search_text(query);
    if q.as_str().is_empty() {
        return Vec::new();
    }
    let ghost v = history_view(entries@);
    let ghost qv = q@;
    let mut rest = entries;
    let mut scored: Vec<(HistoryEntry, i64)> = Vec::new();
    let ghost mut k: int = 0;
    assert(v.skip(0) =~= v);
    while rest.len() > 0
        invariant
            0 <= k <= v.len(),
            qv == q@,
            history_view(rest@) == v.skip(k),
            pairs_view(scored@) == scored_entries(v.take(k), qv),
        decreases rest@.len(),
    {
        assert(history_view(rest@).len() == rest@.len());
        assert(history_view(rest@)[0] == rest@[0]@);
        assert(v.skip(k)[0] == v[k]);
        let ghost r0 = history_view(rest@);
        let x = rest.remove(0);
        assert(history_view(rest@) =~= r0.drop_first());
        assert(r0.drop_first() =~= v.skip(k + 1));
        assert(v.take(k + 1).drop_last() =~= v.take(k));
        assert(v.take(k + 1).last() == x@);
        match history_match_score(q.as_str(), x.content.as_str()) {
            Some(sc) => {
                let ghost o = scored@;
                scored.push((x, sc));
                assert(pairs_view(scored@) =~= pairs_view(o).push((v[k], sc)));
            },
            None => {},
        }
        proof {
            k = k + 1;
        }
    }
    assert(v.take(k) =~= v);
    let ghost sv = pairs_view(scored@);
    let mut pending = scored;
    let mut sorted: Vec<(HistoryEntry, i64)> = Vec::new();
    let ghost mut m: int = 0;
    assert(sv.skip(0) =~= sv);
    while pending.len() > 0
        invariant
            0 <= m <= sv.len(),
            pairs_view(pending@) == sv.skip(m),
            pairs_view(sorted@) == stable_sort(sv.take(m), ranked_before()),
        decreases pending@.len(),
    {
        assert(pairs_view(pending@).len() == pending@.len());
        assert(pairs_view(pending@)[0] == (pending@[0].0@, pending@[0].1));
        assert(sv.skip(m)[0] == sv[m]);
        let ghost r0 = pairs_view(pending@);
        let x = pending.remove(0);
        assert(pairs_view(pending@) =~= r0.drop_first());
        assert(r0.drop_first() =~= sv.skip(m + 1));
        let ghost xv = (x.0@, x.1);
        assert(xv == sv[m]);
        let ghost o = pairs_view(sorted@);
        let mut p: usize = 0;
        while p < sorted.len() && !ranked_precedes(&x, &sorted[p])
            invariant
                p <= sorted@.len(),
                o == pairs_view(sorted@),
                xv == (x.0@, x.1),
                forall|i: int| 0 <= i < p ==> !precedes(xv, ranked_before())(#[trigger] o[i]),
            decreases sorted@.len() - p,
        {
            assert(o[p as int] == (sorted@[p as int].0@, sorted@[p as int].1));
            p = p + 1;
        }
        proof {
            if p < sorted@.len() {
                assert(o[p as int] == (sorted@[p as int].0@, sorted@[p as int].1));
            }
            lemma_first_index(o, precedes(xv, ranked_before()), p as int);
        }
        sorted.insert(p, x);
        assert(pairs_view(sorted@) =~= o.insert(p as int, xv));
        proof {
            assert(sv.take(m + 1).drop_last() =~= sv.take(m));
            assert(sv.take(m + 1).last() == xv);
            m = m + 1;
        }
    }
    assert(sv.take(m) =~= sv);
    let ghost st = pairs_view(sorted@);
    let mut out: Vec<HistoryEntry> = Vec::new();
    let ghost mut j: int = 0;
    assert(st.skip(0) =~= st);
    while sorted.len() > 0
        invariant
            0 <= j <= st.len(),
            pairs_view(sorted@) == st.skip(j),
            history_view(out@) == st.take(j).map_values(|p: (HistoryEntryView, i64)| p.0),
        decreases sorted@.len(),
    {
        assert(pairs_view(sorted@).len() == sorted@.len());
        assert(pairs_view(sorted@)[0] == (sorted@[0].0@, sorted@[0].1));
        assert(st.skip(j)[0] == st[j]);
        let ghost r0 = pairs_view(sorted@);
        let (e, _score) = sorted.remove(0);
        assert(pairs_view(sorted@) =~= r0.drop_first());
        assert(r0.drop_first() =~= st.skip(j + 1));
        let ghost o = out@;
        out.push(e);
        assert(history_view(out@) =~= history_view(o).push(st[j].0));
        assert(st.take(j + 1).map_values(|p: (HistoryEntryView, i64)| p.0) =~= st.take(j).map_values(
            |p: (HistoryEntryView, i64)| p.0,
        ).push(st[j].0));
        proof {
            j = j + 1;
        }
    }
    assert(st.take(j) =~= st);
    out
}

/// The search order is a strict order.
pub proof fn lemma_ranked_order()
    ensures
        strict_order(ranked_before()),
{
}

/// Every scored entry is an entry of the history that the query matches.
pub proof fn lemma_scored_entries(es: Seq<HistoryEntryView>, q: Seq<char>)
    ensures
        forall|k: int|
            0 <= k < scored_entries(es, q).len() ==> (#[trigger] scored_entries(es, q)[k]).1
                == (spec_history_match_score(q, scored_entries(es, q)[k].0.content)->0 as i64)
                && spec_history_match_score(q, scored_entries(es, q)[k].0.content) is Some
                && es.contains(scored_entries(es, q)[k].0),
    decreases es.len(),
{
    if es.len() > 0 {
        lemma_scored_entries(es.drop_last(), q);
        let r = scored_entries(es.drop_last(), q);
        assert forall|k: int| 0 <= k < scored_entries(es, q).len() implies (
        #[trigger] scored_entries(es, q)[k]).1 == (spec_history_match_score(
            q,
            scored_entries(es, q)[k].0.content,
        )->0 as i64) && spec_history_match_score(q, scored_entries(es, q)[k].0.content) is Some
            && es.contains(scored_entries(es, q)[k].0) by {
            if k < r.len() {
                assert(scored_entries(es, q)[k] == r[k]);
                let j = choose|j: int| 0 <= j < es.drop_last().len() && es.drop_last()[j] == r[k].0;
                assert(es[j] == r[k].0);
            } else {
                assert(es[es.len() - 1] == es.last());
            }
        }
    }
}

/// Search results come best first, and they are exactly the entries that the query
/// matches, each once for each time it occurs in the history.
pub proof fn lemma_ranked_history(es: Seq<HistoryEntryView>, query: Seq<char>)
    ensures
        ({
            let q = spec_normalize_search_text(query);
            let scored = scored_entries(es, q);
            let ranked = stable_sort(scored, ranked_before());
            &&& sorted_by(ranked, ranked_before())
            &&& ranked.to_multiset() == scored.to_multiset()
            &&& spec_ranked_history(es, query).len() == if q.len() == 0 {
                0
            } else {
                scored.len()
            }
        }),
{
    let q = spec_normalize_search_text(query);
    lemma_ranked_order();
    lemma_stable_sort(scored_entries(es, q), ranked_before());
    lemma_scored_entries(es, q);
}

/// Search results come best first: of two results, the earlier one has the higher
/// score; on equal scores, it has been used more often; on equal use, it was updated
/// more recently; on equal times, it has the higher identifier. Every result matches the
/// query.
pub proof fn lemma_ranked_best_first(es: Seq<HistoryEntryView>, query: Seq<char>, i: int, j: int)
    requires
        0 <= i < j < spec_ranked_history(es, query).len(),
    ensures
        ({
            let r = spec_ranked_history(es, query);
            let q = spec_normalize_search_text(query);
            let si = spec_history_match_score(q, r[i].content);
            let sj = spec_history_match_score(q, r[j].content);
            &&& si is Some && sj is Some
            &&& {
                let a = si->0 as i64;
                let b = sj->0 as i64;
                ||| a > b
                ||| a == b && r[i].use_count > r[j].use_count
                ||| a == b && r[i].use_count == r[j].use_count && r[i].updated_at > r[j].updated_at
                ||| a == b && r[i].use_count == r[j].use_count && r[i].updated_at
                    == r[j].updated_at && r[i].id >= r[j].id
            }
        }),
{
    let q = spec_normalize_search_text(query);
    let scored = scored_entries(es, q);
    let ranked = stable_sort(scored, ranked_before());
    lemma_ranked_history(es, query);
    lemma_scored_entries(es, q);
    lemma_ranked_order();
    lemma_stable_sort(scored, ranked_before());
    let r = spec_ranked_history(es, query);
    assert(q.len() > 0);
    assert(r == ranked.map_values(|p: (HistoryEntryView, i64)| p.0));
    assert(r[i] == ranked[i].0 && r[j] == ranked[j].0);
    assert(!ranked_before()(ranked[j], ranked[i]));
    ranked.to_multiset_ensures();
    scored.to_multiset_ensures();
    assert(ranked.contains(ranked[i]));
    assert(ranked.contains(ranked[j]));
    assert(scored.to_multiset().count(ranked[i]) > 0);
    assert(scored.to_multiset().count(ranked[j]) > 0);
    let ki = choose|k: int| 0 <= k < scored.len() && scored[k] == ranked[i];
    let kj = choose|k: int| 0 <= k < scored.len() && scored[k] == ranked[j];
    assert(scored[ki] == ranked[i]);
    assert(scored[kj] == ranked[j]);
}

} // verus!
