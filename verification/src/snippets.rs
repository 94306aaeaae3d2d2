use vstd::prelude::*;
use crate::args::strs_view;
use crate::history::now_millis;
use crate::model::{snippets_view, SnippetEntry, SnippetEntryView};
use crate::order::{snippet_before, sorted_snippets};
use crate::seqs::{
    first_index, indices_where, last_index, lemma_first_index, lemma_first_index_props,
    lemma_indices_where, lemma_last_index, stable_sort,
};
use crate::text::{
    chars_of, contains_str, occurs_at, contains_sub, decimal, find_from, find_sub, lowercase,
    parse_usize_chars, parse_usize_spec, replace_all, replace_chars, str_eq, string_from_chars,
    string_from_range, string_push_str, strip_char, strip_char_bounds, to_lowercase,
    usize_to_decimal,
};

verus! {

// ---------------------------------------------------------------------------
// Saving snippets.
// ---------------------------------------------------------------------------

/// Whether a snippet is named exactly `name`.
pub open spec fn has_name(name: Seq<char>) -> spec_fn(SnippetEntryView) -> bool {
    |e: SnippetEntryView| e.name == name
}

/// Saving `content` under `name` at time `now`. A snippet with that name takes the new
/// content and `updated_at = now` in place (result `false`); otherwise a new, unused
/// snippet is added at the end (result `true`).
pub open spec fn spec_upsert_snippet(
    es: Seq<SnippetEntryView>,
    name: Seq<char>,
    content: Seq<char>,
    now: u64,
) -> (Seq<SnippetEntryView>, bool) {
    let i = first_index(es, has_name(name));
    if i < es.len() {
        (es.update(i, SnippetEntryView { content, updated_at: now, ..es[i] }), false)
    } else {
        (
            es.push(
                SnippetEntryView { name, content, created_at: now, updated_at: now, use_count: 0 },
            ),
            true,
        )
    }
}

/// No two snippets share a name.
pub open spec fn names_unique(es: Seq<SnippetEntryView>) -> bool {
    forall|i: int, j: int| 0 <= i < j < es.len() ==> es[i].name != es[j].name
}

/// After saving, some snippet has the name and holds the new content; a snippet is
/// added exactly when none had the name; and names stay unique.
pub proof fn lemma_upsert_snippet(
    es: Seq<SnippetEntryView>,
    name: Seq<char>,
    content: Seq<char>,
    now: u64,
)
    ensures
        ({
            let (r, inserted) = spec_upsert_snippet(es, name, content, now);
            &&& exists|k: int| 0 <= k < r.len() && #[trigger] r[k].name == name && r[k].content == content
            &&& inserted == !(exists|k: int| 0 <= k < es.len() && #[trigger] es[k].name == name)
            &&& r.len() == if inserted {
                es.len() + 1
            } else {
                es.len()
            }
            &&& names_unique(es) ==> names_unique(r)
        }),
{
    let i = first_index(es, has_name(name));
    lemma_first_index_props(es, has_name(name));
    let (r, inserted) = spec_upsert_snippet(es, name, content, now);
    if i < es.len() {
        assert(r[i].name == name && r[i].content == content);
    } else {
        assert(r[es.len() as int].name == name);
        assert forall|k: int| 0 <= k < es.len() implies #[trigger] es[k].name != name by {
            assert(!has_name(name)(es[k]));
        }
    }
}

/// Saves `content` under `name` at time `now`, as [`spec_upsert_snippet`] describes.
pub fn upsert_snippet_at(snippets: &mut Vec<SnippetEntry>, name: String, content: String, now: u64) -> (inserted:
    bool)
    ensures
        (snippets_view(final(snippets)@), inserted) == spec_upsert_snippet(
            snippets_view(old(snippets)@),
            name@,
            content@,
            now,
        ),
{
    let ghost v = snippets_view(snippets@);
    let mut i: usize = 0;
    while i < snippets.len() && !(snippets[i].name == name)
        invariant
            i <= snippets@.len(),
            v == snippets_view(snippets@),
            forall|k: int| 0 <= k < i ==> !has_name(name@)(#[trigger] v[k]),
        decreases snippets@.len() - i,
    {
        i = i + 1;
    }
    proof {
        lemma_first_index(v, has_name(name@), i as int);
    }
    if i < snippets.len() {
        let mut s = snippets.remove(i);
        s.content = content;
        s.updated_at = now;
        snippets.insert(i, s);
        assert(snippets_view(snippets@) =~= v.update(
            i as int,
            SnippetEntryView { content: content@, updated_at: now, ..v[i as int] },
        ));
        false
    } else {
        let s = SnippetEntry { name, content, created_at: now, updated_at: now, use_count: 0 };
        snippets.push(s);
        assert(snippets_view(snippets@) =~= v.push(s@));
        true
    }
}

/// Saves `content` under `name` at the current time, as [`upsert_snippet_at`] does.
pub fn upsert_snippet(snippets: &mut Vec<SnippetEntry>, name: String, content: String) -> (inserted:
    bool)
    ensures
        exists|now: u64|
            (snippets_view(final(snippets)@), inserted) == spec_upsert_snippet(
                snippets_view(old(snippets)@),
                name@,
                content@,
                now,
            ),
{
    let now = now_millis();
    upsert_snippet_at(snippets, name, content, now)
}

/// The position of the first snippet named `name`.
pub fn find_snippet(snippets: &[SnippetEntry], name: &str) -> (r: Option<usize>)
    ensures
        ({
            let i = first_index(snippets_view(snippets@), has_name(name@));
            match r {
                Some(k) => k == i && i < snippets@.len(),
                None => i == snippets@.len(),
            }
        }),
{
    let ghost v = snippets_view(snippets@);
    let mut i: usize = 0;
    while i < snippets.len()
        invariant
            i <= snippets@.len(),
            v == snippets_view(snippets@),
            forall|k: int| 0 <= k < i ==> !has_name(name@)(#[trigger] v[k]),
        decreases snippets@.len() - i,
    {
        if str_eq(snippets[i].name.as_str(), name) {
            proof {
                lemma_first_index(v, has_name(name@), i as int);
            }
            return Some(i);
        }
        i = i + 1;
    }
    proof {
        lemma_first_index(v, has_name(name@), i as int);
    }
    None
}

/// Counts a use of the snippet at `index` at time `now`: its use count goes up by one
/// (staying at `u64::MAX` there) and `updated_at` becomes `now`.
pub fn record_snippet_use(snippets: &mut Vec<SnippetEntry>, index: usize, now: u64)
    requires
        index < old(snippets)@.len(),
    ensures
        snippets_view(final(snippets)@) == snippets_view(old(snippets)@).update(
            index as int,
            SnippetEntryView {
                use_count: if old(snippets)@[index as int].use_count == u64::MAX {
                    u64::MAX
                } else {
                    (old(snippets)@[index as int].use_count + 1) as u64
                },
                updated_at: now,
                ..snippets_view(old(snippets)@)[index as int]
            },
        ),
{
    let ghost v = snippets_view(snippets@);
    let mut s = snippets.remove(index);
    s.use_count = s.use_count.saturating_add(1);
    s.updated_at = now;
    snippets.insert(index, s);
    assert(snippets_view(snippets@) =~= v.update(index as int, s@));
}

/// Removes every snippet named `name` and says how many there were.
pub fn remove_snippets_named(snippets: &mut Vec<SnippetEntry>, name: &str) -> (removed: usize)
    ensures
        snippets_view(final(snippets)@) == snippets_view(old(snippets)@).filter(
            |e: SnippetEntryView| e.name != name@,
        ),
        removed == old(snippets)@.len() - final(snippets)@.len(),
{
    let ghost v = snippets_view(snippets@);
    let ghost keep = |e: SnippetEntryView| e.name != name@;
    let before = snippets.len();
    let mut i: usize = 0;
    let ghost mut j: int = 0;
    while i < snippets.len()
        invariant
            0 <= j <= v.len(),
            before == v.len(),
            i == v.take(j).filter(keep).len(),
            snippets_view(snippets@) == v.take(j).filter(keep) + v.skip(j),
            keep == (|e: SnippetEntryView| e.name != name@),
        decreases snippets@.len() - i,
    {
        let ghost f = v.take(j).filter(keep);
        assert(snippets_view(snippets@).len() == snippets@.len());
        assert(snippets_view(snippets@)[i as int] == v[j]);
        assert(v.take(j + 1) =~= v.take(j).push(v[j]));
        proof {
            v.take(j).lemma_filter_push(v[j], keep);
        }
        if !str_eq(snippets[i].name.as_str(), name) {
            assert(f.push(v[j]) + v.skip(j + 1) =~= f + v.skip(j));
            i = i + 1;
        } else {
            let ghost b = snippets@;
            snippets.remove(i);
            assert(snippets_view(snippets@) =~= snippets_view(b).remove(i as int));
            assert(f + v.skip(j + 1) =~= (f + v.skip(j)).remove(i as int));
        }
        proof {
            j = j + 1;
        }
    }
    assert(snippets_view(snippets@).len() == snippets@.len());
    assert(v.skip(j).len() == 0);
    assert(v.take(j) =~= v);
    assert(snippets_view(snippets@) =~= v.filter(keep));
    proof {
        v.lemma_filter_len(keep);
    }
    before - snippets.len()
}

// ---------------------------------------------------------------------------
// Names, search and lookup.
// ---------------------------------------------------------------------------

/// Whether a character is `/`.
pub open spec fn is_slash() -> spec_fn(char) -> bool {
    |c: char| c == '/'
}

/// The last part of a snippet name: the name without slashes at either end, from its
/// last `/` on (`work/signature` shows as `signature`).
pub open spec fn spec_snippet_display_name(name: Seq<char>) -> Seq<char> {
    let t = strip_char(name, '/');
    t.skip(last_index(t, is_slash()) + 1)
}

/// The last part of a snippet name, under which menus show it.
pub fn snippet_display_name(name: &str) -> (out: String)
    ensures
        out@ == spec_snippet_display_name(name@),
{
    let chars = chars_of(name);
    let (lo, hi) = strip_char_bounds(chars.as_slice(), '/');
    let ghost t = chars@.subrange(lo as int, hi as int);
    let mut k = hi;
    while k > lo && chars[k - 1] != '/'
        invariant
            lo <= k <= hi <= chars@.len(),
            t == chars@.subrange(lo as int, hi as int),
            forall|m: int| k - lo <= m < t.len() ==> !is_slash()(#[trigger] t[m]),
        decreases k,
    {
        assert(t[k - 1 - lo] == chars@[k - 1]);
        k = k - 1;
    }
    proof {
        if k > lo {
            assert(t[k - 1 - lo] == chars@[k - 1]);
        }
        lemma_last_index(t, is_slash(), k - lo - 1);
        assert(t.skip(k - lo) =~= chars@.subrange(k as int, hi as int));
    }
    string_from_range(chars.as_slice(), k, hi)
}

/// Whether a snippet matches a lower-case search needle: its name, the last part of its
/// name or its content contains the needle once lower-cased.
pub open spec fn spec_snippet_matches(e: SnippetEntryView, needle: Seq<char>) -> bool {
    contains_sub(lowercase(e.name), needle) || contains_sub(
        lowercase(spec_snippet_display_name(e.name)),
        needle,
    ) || contains_sub(lowercase(e.content), needle)
}

/// Whether a snippet matches a lower-case search needle.
pub fn snippet_matches_query(snippet: &SnippetEntry, needle: &str) -> (r: bool)
    ensures
        r == spec_snippet_matches(snippet@, needle@),
{
    let n = chars_of(needle);
    let name = to_lowercase(snippet.name.as_str());
    if crate::text::contains_chars(chars_of(name.as_str()).as_slice(), n.as_slice()) {
        return true;
    }
    let display = snippet_display_name(snippet.name.as_str());
    let display = to_lowercase(display.as_str());
    if crate::text::contains_chars(chars_of(display.as_str()).as_slice(), n.as_slice()) {
        return true;
    }
    let content = to_lowercase(snippet.content.as_str());
    crate::text::contains_chars(chars_of(content.as_str()).as_slice(), n.as_slice())
}

/// Whether a snippet's display name is exactly `key`.
pub open spec fn has_leaf_name(key: Seq<char>) -> spec_fn(SnippetEntryView) -> bool {
    |e: SnippetEntryView| spec_snippet_display_name(e.name) == key
}

/// Whether a snippet matches the lower-case needle.
pub open spec fn matches_needle(needle: Seq<char>) -> spec_fn(SnippetEntryView) -> bool {
    |e: SnippetEntryView| spec_snippet_matches(e, needle)
}

/// The message for a key whose last name part several snippets share.
pub open spec fn folders_message(key: Seq<char>, n: nat) -> Seq<char> {
    "snippet `"@ + key + "` matched "@ + decimal(n) + " folders; use the full name or copy by index"@
}

/// The message for a key that matches nothing.
pub open spec fn not_found_message(key: Seq<char>) -> Seq<char> {
    "snippet `"@ + key + "` was not found"@
}

/// The message for a search that matches several snippets.
pub open spec fn many_matches_message(key: Seq<char>, n: nat) -> Seq<char> {
    "snippet `"@ + key + "` matched "@ + decimal(n) + " items; use `snip list "@ + key
        + "` and copy by index"@
}

/// Which snippet `key` picks: a 1-based position in the list; else the first snippet of
/// that exact name; else the only snippet whose last name part is `key`; else the only
/// snippet that the lower-cased key matches. When several share the last name part, or
/// several or none match, the result is the error message.
pub open spec fn spec_resolve_snippet(es: Seq<SnippetEntryView>, key: Seq<char>) -> Result<
    int,
    Seq<char>,
> {
    let by_index = match parse_usize_spec(key) {
        Some(n) => n > 0 && n - 1 < es.len(),
        None => false,
    };
    let named = first_index(es, has_name(key));
    let leaf = indices_where(es, has_leaf_name(key));
    let found = indices_where(es, matches_needle(lowercase(key)));
    if by_index {
        Ok(parse_usize_spec(key).unwrap() - 1)
    } else if named < es.len() {
        Ok(named)
    } else if leaf.len() == 1 {
        Ok(leaf[0])
    } else if leaf.len() > 1 {
        Err(folders_message(key, leaf.len()))
    } else if found.len() == 1 {
        Ok(found[0])
    } else if found.len() == 0 {
        Err(not_found_message(key))
    } else {
        Err(many_matches_message(key, found.len()))
    }
}

proof fn lemma_indices_where_none(es: Seq<SnippetEntryView>, p: spec_fn(SnippetEntryView) -> bool)
    requires
        forall|m: int| 0 <= m < es.len() ==> !p(#[trigger] es[m]),
    ensures
        indices_where(es, p) == Seq::<int>::empty(),
    decreases es.len(),
{
    if es.len() > 0 {
        assert(!p(es[es.len() - 1]));
        assert forall|m: int| 0 <= m < es.drop_last().len() implies !p(#[trigger] es.drop_last()[m]) by {
            assert(es.drop_last()[m] == es[m]);
        }
        lemma_indices_where_none(es.drop_last(), p);
    }
}

proof fn lemma_indices_where_one(es: Seq<SnippetEntryView>, p: spec_fn(SnippetEntryView) -> bool, k: int)
    requires
        0 <= k < es.len(),
        p(es[k]),
        forall|m: int| 0 <= m < es.len() && m != k ==> !p(#[trigger] es[m]),
    ensures
        indices_where(es, p) == seq![k],
    decreases es.len(),
{
    let init = es.drop_last();
    if k == es.len() - 1 {
        assert forall|m: int| 0 <= m < init.len() implies !p(#[trigger] init[m]) by {
            assert(init[m] == es[m]);
        }
        lemma_indices_where_none(init, p);
        assert(indices_where(es, p) =~= seq![k]);
    } else {
        assert(!p(es[es.len() - 1]));
        assert(init[k] == es[k]);
        assert forall|m: int| 0 <= m < init.len() && m != k implies !p(#[trigger] init[m]) by {
            assert(init[m] == es[m]);
        }
        lemma_indices_where_one(init, p, k);
    }
}

/// A key that names no snippet exactly and is no list position, but is the last name part
/// of exactly one snippet, picks that snippet, whatever a search for the key would find.
pub proof fn lemma_resolve_unique_leaf(es: Seq<SnippetEntryView>, key: Seq<char>, k: int)
    requires
        0 <= k < es.len(),
        spec_snippet_display_name(es[k].name) == key,
        forall|m: int|
            0 <= m < es.len() && m != k ==> spec_snippet_display_name(#[trigger] es[m].name) != key,
        forall|m: int| 0 <= m < es.len() ==> #[trigger] es[m].name != key,
        !(parse_usize_spec(key) matches Some(n) && n > 0 && n - 1 < es.len()),
    ensures
        spec_resolve_snippet(es, key) == Ok::<int, Seq<char>>(k),
{
    lemma_first_index_props(es, has_name(key));
    let named = first_index(es, has_name(key));
    if named < es.len() {
        assert(es[named].name == key);
    }
    assert forall|m: int| 0 <= m < es.len() && m != k implies !has_leaf_name(key)(#[trigger] es[m]) by {
        assert(spec_snippet_display_name(es[m].name) != key);
    }
    lemma_indices_where_one(es, has_leaf_name(key), k);
}

/// The number of snippets that satisfy `p`, and the first of them.
fn count_matches_leaf(snippets: &[SnippetEntry], key: &str) -> (r: (usize, usize))
    ensures
        ({
            let m = indices_where(snippets_view(snippets@), has_leaf_name(key@));
            &&& r.0 == m.len()
            &&& r.0 > 0 ==> r.1 == m[0]
        }),
{
    let ghost v = snippets_view(snippets@);
    let mut count: usize = 0;
    let mut first: usize = 0;
    let mut i: usize = 0;
    while i < snippets.len()
        invariant
            i <= snippets@.len(),
            v == snippets_view(snippets@),
            count <= i,
            count == indices_where(v.take(i as int), has_leaf_name(key@)).len(),
            count > 0 ==> first == indices_where(v.take(i as int), has_leaf_name(key@))[0],
        decreases snippets@.len() - i,
    {
        let d = snippet_display_name(snippets[i].name.as_str());
        assert(v.take(i + 1).drop_last() =~= v.take(i as int));
        assert(v.take(i + 1).last() == snippets@[i as int]@);
        if str_eq(d.as_str(), key) {
            if count == 0 {
                first = i;
            }
            count = count + 1;
        }
        i = i + 1;
    }
    assert(v.take(snippets@.len() as int) =~= v);
    (count, first)
}

fn count_matches_needle(snippets: &[SnippetEntry], needle: &str) -> (r: (usize, usize))
    ensures
        ({
            let m = indices_where(snippets_view(snippets@), matches_needle(needle@));
            &&& r.0 == m.len()
            &&& r.0 > 0 ==> r.1 == m[0]
        }),
{
    let ghost v = snippets_view(snippets@);
    let mut count: usize = 0;
    let mut first: usize = 0;
    let mut i: usize = 0;
    while i < snippets.len()
        invariant
            i <= snippets@.len(),
            v == snippets_view(snippets@),
            count <= i,
            count == indices_where(v.take(i as int), matches_needle(needle@)).len(),
            count > 0 ==> first == indices_where(v.take(i as int), matches_needle(needle@))[0],
        decreases snippets@.len() - i,
    {
        assert(v.take(i + 1).drop_last() =~= v.take(i as int));
        assert(v.take(i + 1).last() == snippets@[i as int]@);
        if snippet_matches_query(&snippets[i], needle) {
            if count == 0 {
                first = i;
            }
            count = count + 1;
        }
        i = i + 1;
    }
    assert(v.take(snippets@.len() as int) =~= v);
    (count, first)
}

fn message_with_count(head: &str, key: &str, middle: &str, n: usize, tail: &str) -> (m: String)
    ensures
        m@ == head@ + key@ + middle@ + decimal(n as nat) + tail@,
{
    let mut m = String::new();
    string_push_str(&mut m, head);
    string_push_str(&mut m, key);
    string_push_str(&mut m, middle);
    let d = usize_to_decimal(n);
    string_push_str(&mut m, d.as_str());
    string_push_str(&mut m, tail);
    m
}

/// Picks a snippet by position, name, last name part or search, as
/// [`spec_resolve_snippet`] describes.
pub fn resolve_snippet<'a>(snippets: &'a [SnippetEntry], key: &str) -> (r: Result<
    &'a SnippetEntry,
    String,
>)
    ensures
        match spec_resolve_snippet(snippets_view(snippets@), key@) {
            Ok(i) => r matches Ok(s) && 0 <= i < snippets@.len() && s@ == snippets@[i]@,
            Err(e) => r matches Err(m) && m@ == e,
        },
{
    let ghost v = snippets_view(snippets@);
    let kc = chars_of(key);
    assert(kc@.subrange(0, kc@.len() as int) =~= key@);
    if let Some(index) = parse_usize_chars(kc.as_slice(), 0, kc.len()) {
        if index > 0 && index - 1 < snippets.len() {
            return Ok(&snippets[index - 1]);
        }
    }
    match find_snippet(snippets, key) {
        Some(i) => {
            return Ok(&snippets[i]);
        },
        None => {},
    }
    let (leaf_count, leaf_first) = count_matches_leaf(snippets, key);
    proof {
        lemma_indices_where(v, has_leaf_name(key@));
        lemma_indices_where(v, matches_needle(lowercase(key@)));
    }
    if leaf_count == 1 {
        return Ok(&snippets[leaf_first]);
    }
    if leaf_count > 1 {
        return Err(
            message_with_count(
                "snippet `",
                key,
                "` matched ",
                leaf_count,
                " folders; use the full name or copy by index",
            ),
        );
    }
    let needle = to_lowercase(key);
    let (count, first) = count_matches_needle(snippets, needle.as_str());
    if count == 1 {
        return Ok(&snippets[first]);
    }
    if count == 0 {
        let mut m = String::new();
        string_push_str(&mut m, "snippet `");
        string_push_str(&mut m, key);
        string_push_str(&mut m, "` was not found");
        return Err(m);
    }
    let mut m = message_with_count("snippet `", key, "` matched ", count, " items; use `snip list ");
    string_push_str(&mut m, key);
    string_push_str(&mut m, "` and copy by index");
    Err(m)
}

/// The snippets newest first, keeping those that the lower-cased query matches when a
/// query is given.
pub fn filter_snippets(snippets: Vec<SnippetEntry>, query: Option<&str>) -> (out: Vec<SnippetEntry>)
    ensures
        snippets_view(out@) == match query {
            Some(q) => stable_sort(snippets_view(snippets@), snippet_before()).filter(
                matches_needle(lowercase(q@)),
            ),
            None => stable_sort(snippets_view(snippets@), snippet_before()),
        },
{
    let sorted = sorted_snippets(snippets);
    match query {
        None => sorted,
        Some(q) => {
            let needle = to_lowercase(q);
            let ghost v = snippets_view(sorted@);
            let ghost p = matches_needle(lowercase(q@));
            let mut rest = sorted;
            let mut out: Vec<SnippetEntry> = Vec::new();
            let ghost mut k: int = 0;
            assert(v.skip(0) =~= v);
            while rest.len() > 0
                invariant
                    0 <= k <= v.len(),
                    needle@ == lowercase(q@),
                    p == matches_needle(lowercase(q@)),
                    snippets_view(rest@) == v.skip(k),
                    snippets_view(out@) == v.take(k).filter(p),
                decreases rest@.len(),
            {
                assert(snippets_view(rest@).len() == rest@.len());
                assert(snippets_view(rest@)[0] == rest@[0]@);
                assert(v.skip(k)[0] == v[k]);
                let ghost r0 = snippets_view(rest@);
                let x = rest.remove(0);
                assert(snippets_view(rest@) =~= r0.drop_first());
                assert(r0.drop_first() =~= v.skip(k + 1));
                assert(v.take(k + 1) =~= v.take(k).push(v[k]));
                proof {
                    v.take(k).lemma_filter_push(v[k], p);
                }
                if snippet_matches_query(&x, needle.as_str()) {
                    let ghost o = out@;
                    out.push(x);
                    assert(snippets_view(out@) =~= snippets_view(o).push(v[k]));
                }
                proof {
                    k = k + 1;
                }
            }
            assert(v.take(k) =~= v);
            out
        },
    }
}

// ---------------------------------------------------------------------------
// Rendering snippet content.
// ---------------------------------------------------------------------------

/// Snippet content ready to paste, and how many characters the cursor should move back
/// after pasting it.
#[derive(Clone, Debug, PartialEq, Eq)]
pub struct RenderedSnippet {
    pub content: String,
    pub cursor_left: usize,
}

/// The earliest occurrence of any of `ms` in `text`: its position and which marker it
/// is. When two markers start at the same place, the one listed first wins.
pub open spec fn spec_earliest_marker(text: Seq<char>, ms: Seq<Seq<char>>) -> Option<(int, int)>
    decreases ms.len(),
{
    if ms.len() == 0 {
        None
    } else {
        let prev = spec_earliest_marker(text, ms.drop_last());
        let f = find_sub(text, ms.last());
        if f < 0 {
            prev
        } else {
            match prev {
                None => Some((f, ms.len() - 1)),
                Some((p, j)) => if f < p {
                    Some((f, ms.len() - 1))
                } else {
                    prev
                },
            }
        }
    }
}

/// The earliest marker is one of the markers, found where it first occurs.
pub proof fn lemma_earliest_marker(text: Seq<char>, ms: Seq<Seq<char>>)
    ensures
        match spec_earliest_marker(text, ms) {
            Some((i, j)) => 0 <= j < ms.len() && i == find_sub(text, ms[j]) && i >= 0,
            None => true,
        },
    decreases ms.len(),
{
    if ms.len() > 0 {
        lemma_earliest_marker(text, ms.drop_last());
    }
}

/// The earliest occurrence of any of the markers in `text`.
pub fn earliest_marker(text: &[char], markers: &[&str]) -> (r: Option<(usize, usize)>)
    ensures
        match spec_earliest_marker(text@, strs_view(markers@)) {
            None => r is None,
            Some((i, j)) => r matches Some((a, b)) && a == i && b == j,
        },
{
    let ghost ms = strs_view(markers@);
    let mut best: Option<(usize, usize)> = None;
    let mut j: usize = 0;
    assert(text@.skip(0) =~= text@);
    while j < markers.len()
        invariant
            j <= markers@.len(),
            ms == strs_view(markers@),
            text@.skip(0) == text@,
            match spec_earliest_marker(text@, ms.take(j as int)) {
                None => best is None,
                Some((i, k)) => best matches Some((a, b)) && a == i && b == k,
            },
        decreases markers@.len() - j,
    {
        let m = chars_of(markers[j]);
        assert(ms.take(j + 1).drop_last() =~= ms.take(j as int));
        assert(ms.take(j + 1).last() == markers@[j as int]@);
        match find_from(text, m.as_slice(), 0) {
            Some(f) => {
                match best {
                    None => {
                        best = Some((f, j));
                    },
                    Some((p, _)) => {
                        if f < p {
                            best = Some((f, j));
                        }
                    },
                }
            },
            None => {},
        }
        j = j + 1;
    }
    assert(ms.take(markers@.len() as int) =~= ms);
    best
}

/// The text of `{{clipboard}}` markers replaced by the clipboard text.
pub open spec fn with_clipboard(content: Seq<char>, clipboard: Seq<char>) -> Seq<char> {
    replace_all(content, "{{clipboard}}"@, clipboard)
}

/// The cursor markers, in the order in which they are looked for.
pub open spec fn cursor_markers() -> Seq<Seq<char>> {
    seq!["{{cursor}}"@, "$|$"@]
}

/// The rendered snippet: `{{clipboard}}` replaced by the clipboard text (or nothing),
/// then every `{{cursor}}` and `$|$` removed. The cursor goes back to where the earliest
/// cursor marker stood: it moves back over the characters of the final content that
/// follow the text before that marker, so later markers count for nothing.
pub open spec fn spec_render(content: Seq<char>, clipboard: Option<Seq<char>>) -> (Seq<char>, nat) {
    let c = with_clipboard(
        content,
        match clipboard {
            Some(t) => t,
            None => seq![],
        },
    );
    let out = replace_all(replace_all(c, "{{cursor}}"@, seq![]), "$|$"@, seq![]);
    let left: nat = match spec_earliest_marker(c, cursor_markers()) {
        Some((i, j)) => if out.len() >= i {
            (out.len() - i) as nat
        } else {
            0
        },
        None => 0,
    };
    (out, left)
}

/// Whether rendering the content needs the clipboard text.
pub fn snippet_uses_clipboard(content: &str) -> (r: bool)
    ensures
        r == contains_sub(content@, "{{clipboard}}"@),
{
    let c = chars_of(content);
    contains_str(c.as_slice(), "{{clipboard}}")
}

/// Renders snippet content with the clipboard text, as [`spec_render`] describes.
pub fn render_snippet_content_with_clipboard(content: &str, clipboard_text: Option<&str>) -> (r:
    RenderedSnippet)
    ensures
        (r.content@, r.cursor_left as nat) == spec_render(
            content@,
            match clipboard_text {
                Some(t) => Some(t@),
                None => None,
            },
        ),
{
    proof {
        reveal_strlit("{{clipboard}}");
        reveal_strlit("{{cursor}}");
        reveal_strlit("$|$");
    }
    let chars = chars_of(content);
    let clip = match clipboard_text {
        Some(t) => chars_of(t),
        None => Vec::new(),
    };
    let marker = chars_of("{{clipboard}}");
    let c = replace_chars(chars.as_slice(), marker.as_slice(), clip.as_slice());
    let mut markers: Vec<&str> = Vec::new();
    markers.push("{{cursor}}");
    markers.push("$|$");
    assert(strs_view(markers@) =~= cursor_markers());
    let cursor = chars_of("{{cursor}}");
    let empty: Vec<char> = Vec::new();
    let c2 = replace_chars(c.as_slice(), cursor.as_slice(), empty.as_slice());
    let dollar = chars_of("$|$");
    let c3 = replace_chars(c2.as_slice(), dollar.as_slice(), empty.as_slice());
    let cursor_left = match earliest_marker(c.as_slice(), markers.as_slice()) {
        Some((i, _)) => if c3.len() >= i {
            c3.len() - i
        } else {
            0
        },
        None => 0,
    };
    RenderedSnippet { content: string_from_chars(c3.as_slice()), cursor_left }
}

} // verus!
