use vstd::prelude::*;
use crate::model::{
    history_view, rich_history_view, snippets_view, HistoryEntry, HistoryEntryView,
    RichHistoryEntry, RichHistoryEntryView, SnippetEntry, SnippetEntryView,
};
use crate::seqs::{
    first_index, lemma_first_index, lemma_stable_sort, precedes, sorted_by, stable_sort,
    strict_order,
};
use crate::text::{chars_of, contains_chars, contains_sub, lowercase, to_lowercase};

verus! {

// ---------------------------------------------------------------------------
// The display orders.
// ---------------------------------------------------------------------------

/// The order of the history lists: pinned entries first, then the most recently
/// updated, then the highest identifier.
pub open spec fn history_before() -> spec_fn(HistoryEntryView, HistoryEntryView) -> bool {
    |a: HistoryEntryView, b: HistoryEntryView|
        (a.pinned && !b.pinned) || (a.pinned == b.pinned && (a.updated_at > b.updated_at || (
        a.updated_at == b.updated_at && a.id > b.id)))
}

/// The order of the image and file lists, the same as for text.
pub open spec fn rich_before() -> spec_fn(RichHistoryEntryView, RichHistoryEntryView) -> bool {
    |a: RichHistoryEntryView, b: RichHistoryEntryView|
        (a.pinned && !b.pinned) || (a.pinned == b.pinned && (a.updated_at > b.updated_at || (
        a.updated_at == b.updated_at && a.id > b.id)))
}

/// The order of the snippet list: the most recently updated first.
pub open spec fn snippet_before() -> spec_fn(SnippetEntryView, SnippetEntryView) -> bool {
    |a: SnippetEntryView, b: SnippetEntryView| a.updated_at > b.updated_at
}

/// The history order is a strict order.
pub proof fn lemma_history_order()
    ensures
        strict_order(history_before()),
{
}

/// The image and file order is a strict order.
pub proof fn lemma_rich_order()
    ensures
        strict_order(rich_before()),
{
}

/// The snippet order is a strict order.
pub proof fn lemma_snippet_order()
    ensures
        strict_order(snippet_before()),
{
}

/// The sorted history is in display order and holds exactly the given entries.
pub proof fn lemma_sorted_history(es: Seq<HistoryEntryView>)
    ensures
        sorted_by(stable_sort(es, history_before()), history_before()),
        stable_sort(es, history_before()).to_multiset() == es.to_multiset(),
{
    lemma_history_order();
    lemma_stable_sort(es, history_before());
}

/// The sorted image and file history is in display order and holds exactly the given
/// entries.
pub proof fn lemma_sorted_rich_history(es: Seq<RichHistoryEntryView>)
    ensures
        sorted_by(stable_sort(es, rich_before()), rich_before()),
        stable_sort(es, rich_before()).to_multiset() == es.to_multiset(),
{
    lemma_rich_order();
    lemma_stable_sort(es, rich_before());
}

/// The sorted snippets are newest first and are exactly the given snippets.
pub proof fn lemma_sorted_snippets(es: Seq<SnippetEntryView>)
    ensures
        sorted_by(stable_sort(es, snippet_before()), snippet_before()),
        stable_sort(es, snippet_before()).to_multiset() == es.to_multiset(),
{
    lemma_snippet_order();
    lemma_stable_sort(es, snippet_before());
}

/// In the sorted history, pinned entries come first; among entries pinned alike, a more
/// recently updated one comes first, and on equal times the higher identifier.
pub proof fn lemma_history_display_order(es: Seq<HistoryEntryView>, i: int, j: int)
    requires
        0 <= i < j < stable_sort(es, history_before()).len(),
    ensures
        ({
            let r = stable_sort(es, history_before());
            &&& r[i].pinned || !r[j].pinned
            &&& r[i].pinned == r[j].pinned ==> r[i].updated_at > r[j].updated_at || (
            r[i].updated_at == r[j].updated_at && r[i].id >= r[j].id)
        }),
{
    lemma_sorted_history(es);
    let r = stable_sort(es, history_before());
    assert(!history_before()(r[j], r[i]));
}

/// In the sorted image and file history, pinned entries come first; among entries pinned
/// alike, a more recently updated one comes first, and on equal times the higher
/// identifier.
pub proof fn lemma_rich_display_order(es: Seq<RichHistoryEntryView>, i: int, j: int)
    requires
        0 <= i < j < stable_sort(es, rich_before()).len(),
    ensures
        ({
            let r = stable_sort(es, rich_before());
            &&& r[i].pinned || !r[j].pinned
            &&& r[i].pinned == r[j].pinned ==> r[i].updated_at > r[j].updated_at || (
            r[i].updated_at == r[j].updated_at && r[i].id >= r[j].id)
        }),
{
    lemma_sorted_rich_history(es);
    let r = stable_sort(es, rich_before());
    assert(!rich_before()(r[j], r[i]));
}

/// In the sorted snippets, a more recently updated snippet never follows an older one.
pub proof fn lemma_snippet_display_order(es: Seq<SnippetEntryView>, i: int, j: int)
    requires
        0 <= i < j < stable_sort(es, snippet_before()).len(),
    ensures
        stable_sort(es, snippet_before())[i].updated_at >= stable_sort(es, snippet_before())[j].updated_at,
{
    lemma_sorted_snippets(es);
    let r = stable_sort(es, snippet_before());
    assert(!snippet_before()(r[j], r[i]));
}

/// Listing the history with a query keeps exactly the entries whose lower-cased content
/// contains the lower-cased query, so matching ignores letter case.
pub proof fn lemma_filter_ignores_case(es: Seq<HistoryEntryView>, query: Seq<char>, e: HistoryEntryView)
    requires
        es.contains(e),
    ensures
        stable_sort(es, history_before()).filter(content_matches(lowercase(query))).contains(e)
            <==> contains_sub(lowercase(e.content), lowercase(query)),
{
    lemma_sorted_history(es);
    let r = stable_sort(es, history_before());
    r.to_multiset_ensures();
    es.to_multiset_ensures();
    assert(es.to_multiset().count(e) > 0);
    assert(r.to_multiset().count(e) > 0);
    assert(r.contains(e));
    r.filter_lemma(content_matches(lowercase(query)));
    if contains_sub(lowercase(e.content), lowercase(query)) {
        let k = choose|k: int| 0 <= k < r.len() && r[k] == e;
        assert(content_matches(lowercase(query))(r[k]));
    }
}

// ---------------------------------------------------------------------------
// Executable sorts.
// ---------------------------------------------------------------------------

fn history_precedes(a: &HistoryEntry, b: &HistoryEntry) -> (r: bool)
    ensures
        r == history_before()(a@, b@),
{
    (a.pinned && !b.pinned) || (a.pinned == b.pinned && (a.updated_at > b.updated_at || (
    a.updated_at == b.updated_at && a.id > b.id)))
}

fn rich_precedes(a: &RichHistoryEntry, b: &RichHistoryEntry) -> (r: bool)
    ensures
        r == rich_before()(a@, b@),
{
    (a.pinned && !b.pinned) || (a.pinned == b.pinned && (a.updated_at > b.updated_at || (
    a.updated_at == b.updated_at && a.id > b.id)))
}

/// The history in display order: pinned first, then newest, then highest identifier;
/// entries that tie keep their order.
pub fn sorted_history(entries: Vec<HistoryEntry>) -> (out: Vec<HistoryEntry>)
    ensures
        history_view(out@) == stable_sort(history_view(entries@), history_before()),
{
    let ghost v = history_view(entries@);
    let mut rest = entries;
    let mut out: Vec<HistoryEntry> = Vec::new();
    let ghost mut k: int = 0;
    assert(v.skip(0) =~= v);
    while rest.len() > 0
        invariant
            0 <= k <= v.len(),
            history_view(rest@) == v.skip(k),
            history_view(out@) == stable_sort(v.take(k), history_before()),
        decreases rest@.len(),
    {
        assert(history_view(rest@).len() == rest@.len());
        assert(history_view(rest@)[0] == rest@[0]@);
        assert(v.skip(k)[0] == v[k]);
        let ghost r0 = history_view(rest@);
        let x = rest.remove(0);
        assert(history_view(rest@) =~= r0.drop_first());
        assert(r0.drop_first() =~= v.skip(k + 1));
        assert(x@ == v[k]);
        let ghost o = history_view(out@);
        let mut p: usize = 0;
        while p < out.len() && !history_precedes(&x, &out[p])
            invariant
                p <= out@.len(),
                o == history_view(out@),
                forall|m: int| 0 <= m < p ==> !precedes(x@, history_before())(#[trigger] o[m]),
            decreases out@.len() - p,
        {
            p = p + 1;
        }
        proof {
            lemma_first_index(o, precedes(x@, history_before()), p as int);
        }
        out.insert(p, x);
        assert(history_view(out@) =~= o.insert(p as int, x@));
        proof {
            assert(v.take(k + 1).drop_last() =~= v.take(k));
            assert(v.take(k + 1).last() == x@);
            assert(history_view(rest@) =~= v.skip(k + 1));
            k = k + 1;
        }
    }
    assert(v.take(k) =~= v);
    out
}

/// The image and file history in display order, as for text.
pub fn sorted_rich_history(entries: Vec<RichHistoryEntry>) -> (out: Vec<RichHistoryEntry>)
    ensures
        rich_history_view(out@) == stable_sort(rich_history_view(entries@), rich_before()),
{
    let ghost v = rich_history_view(entries@);
    let mut rest = entries;
    let mut out: Vec<RichHistoryEntry> = Vec::new();
    let ghost mut k: int = 0;
    assert(v.skip(0) =~= v);
    while rest.len() > 0
        invariant
            0 <= k <= v.len(),
            rich_history_view(rest@) == v.skip(k),
            rich_history_view(out@) == stable_sort(v.take(k), rich_before()),
        decreases rest@.len(),
    {
        assert(rich_history_view(rest@).len() == rest@.len());
        assert(rich_history_view(rest@)[0] == rest@[0]@);
        assert(v.skip(k)[0] == v[k]);
        let ghost r0 = rich_history_view(rest@);
        let x = rest.remove(0);
        assert(rich_history_view(rest@) =~= r0.drop_first());
        assert(r0.drop_first() =~= v.skip(k + 1));
        assert(x@ == v[k]);
        let ghost o = rich_history_view(out@);
        let mut p: usize = 0;
        while p < out.len() && !rich_precedes(&x, &out[p])
            invariant
                p <= out@.len(),
                o == rich_history_view(out@),
                forall|m: int| 0 <= m < p ==> !precedes(x@, rich_before())(#[trigger] o[m]),
            decreases out@.len() - p,
        {
            p = p + 1;
        }
        proof {
            lemma_first_index(o, precedes(x@, rich_before()), p as int);
        }
        out.insert(p, x);
        assert(rich_history_view(out@) =~= o.insert(p as int, x@));
        proof {
            assert(v.take(k + 1).drop_last() =~= v.take(k));
            assert(v.take(k + 1).last() == x@);
            assert(rich_history_view(rest@) =~= v.skip(k + 1));
            k = k + 1;
        }
    }
    assert(v.take(k) =~= v);
    out
}

/// The snippets, most recently updated first; snippets updated at the same time keep
/// their order.
pub fn sorted_snippets(snippets: Vec<SnippetEntry>) -> (out: Vec<SnippetEntry>)
    ensures
        snippets_view(out@) == stable_sort(snippets_view(snippets@), snippet_before()),
{
    let ghost v = snippets_view(snippets@);
    let mut rest = snippets;
    let mut out: Vec<SnippetEntry> = Vec::new();
    let ghost mut k: int = 0;
    assert(v.skip(0) =~= v);
    while rest.len() > 0
        invariant
            0 <= k <= v.len(),
            snippets_view(rest@) == v.skip(k),
            snippets_view(out@) == stable_sort(v.take(k), snippet_before()),
        decreases rest@.len(),
    {
        assert(snippets_view(rest@).len() == rest@.len());
        assert(snippets_view(rest@)[0] == rest@[0]@);
        assert(v.skip(k)[0] == v[k]);
        let ghost r0 = snippets_view(rest@);
        let x = rest.remove(0);
        assert(snippets_view(rest@) =~= r0.drop_first());
        assert(r0.drop_first() =~= v.skip(k + 1));
        assert(x@ == v[k]);
        let ghost o = snippets_view(out@);
        let mut p: usize = 0;
        while p < out.len() && !(x.updated_at > out[p].updated_at)
            invariant
                p <= out@.len(),
                o == snippets_view(out@),
                forall|m: int| 0 <= m < p ==> !precedes(x@, snippet_before())(#[trigger] o[m]),
            decreases out@.len() - p,
        {
            assert(o[p as int] == out@[p as int]@);
            p = p + 1;
        }
        proof {
            if p < out@.len() {
                assert(o[p as int] == out@[p as int]@);
            }
            lemma_first_index(o, precedes(x@, snippet_before()), p as int);
        }
        out.insert(p, x);
        assert(snippets_view(out@) =~= o.insert(p as int, x@));
        proof {
            assert(v.take(k + 1).drop_last() =~= v.take(k));
            assert(v.take(k + 1).last() == x@);
            assert(snippets_view(rest@) =~= v.skip(k + 1));
            k = k + 1;
        }
    }
    assert(v.take(k) =~= v);
    out
}

// ---------------------------------------------------------------------------
// Searching the history.
// ---------------------------------------------------------------------------

/// Whether an entry's text, lower-cased, contains `needle`.
pub open spec fn content_matches(needle: Seq<char>) -> spec_fn(HistoryEntryView) -> bool {
    |e: HistoryEntryView| contains_sub(lowercase(e.content), needle)
}

/// Whether an entry's text, lower-cased, contains `needle`.
fn entry_matches(e: &HistoryEntry, needle: &[char]) -> (r: bool)
    ensures
        r == content_matches(needle@)(e@),
{
    let lower = to_lowercase(e.content.as_str());
    let c = chars_of(lower.as_str());
    contains_chars(c.as_slice(), needle)
}

/// The history in display order, keeping the entries whose lower-cased text contains the
/// lower-cased query when a query is given.
pub fn filter_history(entries: Vec<HistoryEntry>, query: Option<&str>) -> (out: Vec<HistoryEntry>)
    ensures
        history_view(out@) == match query {
            Some(q) => stable_sort(history_view(entries@), history_before()).filter(
                content_matches(lowercase(q@)),
            ),
            None => stable_sort(history_view(entries@), history_before()),
        },
{
    let sorted = sorted_history(entries);
    match query {
        None => sorted,
        Some(q) => {
            let lower = to_lowercase(q);
            let needle = chars_of(lower.as_str());
            let ghost v = history_view(sorted@);
            let ghost p = content_matches(lowercase(q@));
            let mut rest = sorted;
            let mut out: Vec<HistoryEntry> = Vec::new();
            let ghost mut k: int = 0;
            assert(v.skip(0) =~= v);
            while rest.len() > 0
                invariant
                    0 <= k <= v.len(),
                    needle@ == lowercase(q@),
                    p == content_matches(lowercase(q@)),
                    history_view(rest@) == v.skip(k),
                    history_view(out@) == v.take(k).filter(p),
                decreases rest@.len(),
            {
                assert(history_view(rest@).len() == rest@.len());
                assert(history_view(rest@)[0] == rest@[0]@);
                assert(v.skip(k)[0] == v[k]);
                let ghost r0 = history_view(rest@);
                let x = rest.remove(0);
                assert(history_view(rest@) =~= r0.drop_first());
                assert(r0.drop_first() =~= v.skip(k + 1));
                assert(v.take(k + 1) =~= v.take(k).push(v[k]));
                proof {
                    v.take(k).lemma_filter_push(v[k], p);
                }
                if entry_matches(&x, needle.as_slice()) {
                    let ghost o = out@;
                    out.push(x);
                    assert(history_view(out@) =~= history_view(o).push(v[k]));
                }
                proof {
                    k = k + 1;
                }
            }
            assert(v.take(k) =~= v);
            out
        },
    }
}

} // verus!
