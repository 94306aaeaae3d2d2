use vstd::prelude::*;

verus! {

broadcast use vstd::seq_lib::group_filter_ensures;

// ---------------------------------------------------------------------------
// Finding elements.
// ---------------------------------------------------------------------------

/// The position of the first element of `s` that satisfies `p`, or `s.len()` when none does.
pub open spec fn first_index<T>(s: Seq<T>, p: spec_fn(T) -> bool) -> int
    decreases s.len(),
{
    if s.len() == 0 {
        0
    } else if p(s[0]) {
        0
    } else {
        1 + first_index(s.drop_first(), p)
    }
}

/// The position of the last element of `s` that satisfies `p`, or `-1` when none does.
pub open spec fn last_index<T>(s: Seq<T>, p: spec_fn(T) -> bool) -> int
    decreases s.len(),
{
    if s.len() == 0 {
        -1
    } else if p(s.last()) {
        s.len() - 1
    } else {
        last_index(s.drop_last(), p)
    }
}

/// `first_index` is the position of the first match.
pub proof fn lemma_first_index<T>(s: Seq<T>, p: spec_fn(T) -> bool, i: int)
    requires
        0 <= i <= s.len(),
        forall|k: int| 0 <= k < i ==> !p(#[trigger] s[k]),
        i == s.len() || p(s[i]),
    ensures
        first_index(s, p) == i,
    decreases i,
{
    if i > 0 {
        assert forall|k: int| 0 <= k < i - 1 implies !p(#[trigger] s.drop_first()[k]) by {
            assert(s.drop_first()[k] == s[k + 1]);
        }
        lemma_first_index(s.drop_first(), p, i - 1);
    }
}

/// What `first_index` promises.
pub proof fn lemma_first_index_props<T>(s: Seq<T>, p: spec_fn(T) -> bool)
    ensures
        0 <= first_index(s, p) <= s.len(),
        first_index(s, p) < s.len() ==> p(s[first_index(s, p)]),
        forall|k: int| 0 <= k < first_index(s, p) ==> !p(#[trigger] s[k]),
    decreases s.len(),
{
    if s.len() > 0 && !p(s[0]) {
        lemma_first_index_props(s.drop_first(), p);
        assert forall|k: int| 0 <= k < first_index(s, p) implies !p(#[trigger] s[k]) by {
            if k > 0 {
                assert(s[k] == s.drop_first()[k - 1]);
            }
        }
    }
}

/// `last_index` is the position of the last match.
pub proof fn lemma_last_index<T>(s: Seq<T>, p: spec_fn(T) -> bool, i: int)
    requires
        -1 <= i < s.len(),
        forall|k: int| i < k < s.len() ==> !p(#[trigger] s[k]),
        i == -1 || p(s[i]),
    ensures
        last_index(s, p) == i,
    decreases s.len(),
{
    if s.len() > 0 && i < s.len() - 1 {
        assert forall|k: int| i < k < s.len() - 1 implies !p(#[trigger] s.drop_last()[k]) by {
            assert(s.drop_last()[k] == s[k]);
        }
        lemma_last_index(s.drop_last(), p, i);
    }
}

/// What `last_index` promises.
pub proof fn lemma_last_index_props<T>(s: Seq<T>, p: spec_fn(T) -> bool)
    ensures
        -1 <= last_index(s, p) < s.len(),
        last_index(s, p) >= 0 ==> p(s[last_index(s, p)]),
        forall|k: int| last_index(s, p) < k < s.len() ==> !p(#[trigger] s[k]),
    decreases s.len(),
{
    if s.len() > 0 && !p(s.last()) {
        lemma_last_index_props(s.drop_last(), p);
        assert forall|k: int| last_index(s, p) < k < s.len() implies !p(#[trigger] s[k]) by {
            if k < s.len() - 1 {
                assert(s[k] == s.drop_last()[k]);
            }
        }
    }
}

// ---------------------------------------------------------------------------
// Pruning a list down to a size limit.
// ---------------------------------------------------------------------------

/// The negation of `p`.
pub open spec fn not_pred<T>(p: spec_fn(T) -> bool) -> spec_fn(T) -> bool {
    |x: T| !p(x)
}

/// A list cut down to at most `max` elements. A limit of zero keeps only the pinned
/// elements. Otherwise, while the list is too long, the last unpinned element is
/// dropped, or the last element when every element is pinned.
pub open spec fn spec_prune<T>(es: Seq<T>, max: nat, pinned: spec_fn(T) -> bool) -> Seq<T>
    decreases es.len(),
{
    if max == 0 {
        es.filter(pinned)
    } else if es.len() <= max {
        es
    } else {
        let i = last_index(es, not_pred(pinned));
        if 0 <= i < es.len() {
            spec_prune(es.remove(i), max, pinned)
        } else {
            spec_prune(es.drop_last(), max, pinned)
        }
    }
}

proof fn lemma_filter_remove_unpinned<T>(es: Seq<T>, i: int, pinned: spec_fn(T) -> bool)
    requires
        0 <= i < es.len(),
        !pinned(es[i]),
    ensures
        es.remove(i).filter(pinned) == es.filter(pinned),
    decreases es.len(),
{
    reveal(Seq::filter);
    if i == es.len() - 1 {
        assert(es.remove(i) =~= es.drop_last());
    } else {
        lemma_filter_remove_unpinned(es.drop_last(), i, pinned);
        assert(es.remove(i).drop_last() =~= es.drop_last().remove(i));
        assert(es.remove(i).last() == es.last());
    }
}

/// A pruned list is as long as the limit allows: with a limit above zero it keeps
/// `min(len, max)` elements, and every element it keeps was in the list.
pub proof fn lemma_prune_len<T>(es: Seq<T>, max: nat, pinned: spec_fn(T) -> bool)
    ensures
        max > 0 ==> spec_prune(es, max, pinned).len() == if es.len() <= max {
            es.len()
        } else {
            max
        },
        max == 0 ==> spec_prune(es, max, pinned) == es.filter(pinned),
        forall|x: T| #[trigger] spec_prune(es, max, pinned).contains(x) ==> es.contains(x),
    decreases es.len(),
{
    if max == 0 {
        assert forall|x: T| #[trigger] es.filter(pinned).contains(x) implies es.contains(x) by {
            lemma_filter_subset(es, pinned, x);
        }
    } else if es.len() > max {
        let i = last_index(es, not_pred(pinned));
        lemma_last_index_props(es, not_pred(pinned));
        let next = if 0 <= i < es.len() {
            es.remove(i)
        } else {
            es.drop_last()
        };
        lemma_prune_len(next, max, pinned);
        assert forall|x: T| #[trigger] spec_prune(es, max, pinned).contains(x) implies es.contains(
            x,
        ) by {
            assert(next.contains(x));
            let k = choose|k: int| 0 <= k < next.len() && next[k] == x;
            if 0 <= i < es.len() {
                if k < i {
                    assert(es[k] == x);
                } else {
                    assert(es[k + 1] == x);
                }
            } else {
                assert(es[k] == x);
            }
        }
    }
}

proof fn lemma_filter_subset<T>(es: Seq<T>, pinned: spec_fn(T) -> bool, x: T)
    requires
        es.filter(pinned).contains(x),
    ensures
        es.contains(x),
    decreases es.len(),
{
    reveal(Seq::filter);
    if es.len() > 0 {
        if x == es.last() {
            assert(es[es.len() - 1] == x);
        } else {
            let f = es.drop_last().filter(pinned);
            if pinned(es.last()) {
                let k = choose|k: int| 0 <= k < es.filter(pinned).len() && es.filter(pinned)[k] == x;
                assert(k < f.len());
                assert(f[k] == x);
            }
            lemma_filter_subset(es.drop_last(), pinned, x);
            let j = choose|j: int| 0 <= j < es.drop_last().len() && es.drop_last()[j] == x;
            assert(es[j] == x);
        }
    }
}

/// Pruning never drops a pinned element while the pinned elements alone fit the limit.
pub proof fn lemma_prune_keeps_pinned<T>(es: Seq<T>, max: nat, pinned: spec_fn(T) -> bool)
    requires
        max > 0,
        es.filter(pinned).len() <= max,
    ensures
        spec_prune(es, max, pinned).filter(pinned) == es.filter(pinned),
    decreases es.len(),
{
    if es.len() > max {
        let i = last_index(es, not_pred(pinned));
        lemma_last_index_props(es, not_pred(pinned));
        if 0 <= i < es.len() {
            lemma_filter_remove_unpinned(es, i, pinned);
            lemma_prune_keeps_pinned(es.remove(i), max, pinned);
        } else {
            assert forall|k: int| 0 <= k < es.len() implies #[trigger] pinned(es[k]) by {
                assert(!not_pred(pinned)(es[k]));
            }
            lemma_filter_all(es, pinned);
        }
    }
}

/// Every element is either kept by a filter or by the opposite filter.
proof fn lemma_filter_complement<T>(es: Seq<T>, pinned: spec_fn(T) -> bool)
    ensures
        es.filter(pinned).len() + es.filter(not_pred(pinned)).len() == es.len(),
    decreases es.len(),
{
    reveal(Seq::filter);
    if es.len() > 0 {
        lemma_filter_complement(es.drop_last(), pinned);
    }
}

/// Removing the last element that `p` keeps drops the last element of the filter.
proof fn lemma_filter_remove_last_match<T>(es: Seq<T>, p: spec_fn(T) -> bool)
    requires
        0 <= last_index(es, p),
    ensures
        es.remove(last_index(es, p)).filter(p) == es.filter(p).drop_last(),
    decreases es.len(),
{
    reveal(Seq::filter);
    let i = last_index(es, p);
    lemma_last_index_props(es, p);
    if p(es.last()) {
        assert(es.remove(i) =~= es.drop_last());
    } else {
        assert(last_index(es.drop_last(), p) == i);
        lemma_filter_remove_last_match(es.drop_last(), p);
        let r = es.remove(i);
        assert(r.drop_last() =~= es.drop_last().remove(i));
        assert(r.last() == es.last());
    }
}

/// Pruning keeps the first unpinned elements: when the pinned elements fit the limit,
/// the unpinned elements left are the first `max` minus the number of pinned ones, in
/// order. With [`lemma_prune_keeps_pinned`], this says what a pruned list holds without
/// following the removals one by one.
pub proof fn lemma_prune_keeps_first_unpinned<T>(es: Seq<T>, max: nat, pinned: spec_fn(T) -> bool)
    requires
        max > 0,
        es.filter(pinned).len() <= max,
    ensures
        ({
            let unpinned = es.filter(not_pred(pinned));
            let room = max - es.filter(pinned).len();
            spec_prune(es, max, pinned).filter(not_pred(pinned)) == if room < unpinned.len() {
                unpinned.take(room)
            } else {
                unpinned
            }
        }),
    decreases es.len(),
{
    let np = not_pred(pinned);
    lemma_filter_complement(es, pinned);
    if es.len() <= max {
    } else {
        let i = last_index(es, np);
        lemma_last_index_props(es, np);
        if 0 <= i < es.len() {
            lemma_filter_remove_unpinned(es, i, pinned);
            lemma_filter_remove_last_match(es, np);
            lemma_prune_keeps_first_unpinned(es.remove(i), max, pinned);
            let k = max - es.filter(pinned).len();
            if k < es.filter(np).len() - 1 {
                assert(es.filter(np).drop_last().take(k) =~= es.filter(np).take(k));
            } else {
                assert(es.filter(np).drop_last() =~= es.filter(np).take(k));
            }
        } else {
            assert forall|k: int| 0 <= k < es.len() implies #[trigger] pinned(es[k]) by {
                assert(!np(es[k]));
            }
            lemma_filter_all(es, pinned);
        }
    }
}

proof fn lemma_filter_all<T>(es: Seq<T>, pinned: spec_fn(T) -> bool)
    requires
        forall|k: int| 0 <= k < es.len() ==> #[trigger] pinned(es[k]),
    ensures
        es.filter(pinned) == es,
    decreases es.len(),
{
    reveal(Seq::filter);
    if es.len() > 0 {
        lemma_filter_all(es.drop_last(), pinned);
        assert(es.drop_last().push(es.last()) =~= es);
    }
}

// ---------------------------------------------------------------------------
// Fresh identifiers.
// ---------------------------------------------------------------------------

/// The largest `key` of the elements of `s`, or 0 for an empty list.
pub open spec fn max_key<T>(s: Seq<T>, key: spec_fn(T) -> u64) -> u64
    decreases s.len(),
{
    if s.len() == 0 {
        0
    } else {
        let m = max_key(s.drop_last(), key);
        if key(s.last()) > m {
            key(s.last())
        } else {
            m
        }
    }
}

/// `m + 1`, or `u64::MAX` when that does not fit.
pub open spec fn saturating_succ(m: u64) -> u64 {
    if m == u64::MAX {
        u64::MAX
    } else {
        (m + 1) as u64
    }
}

/// The largest key is at least every key, and is the key of some element or 0.
pub proof fn lemma_max_key<T>(s: Seq<T>, key: spec_fn(T) -> u64)
    ensures
        forall|k: int| 0 <= k < s.len() ==> key(#[trigger] s[k]) <= max_key(s, key),
        max_key(s, key) == 0 || exists|k: int| 0 <= k < s.len() && key(#[trigger] s[k]) == max_key(s, key),
    decreases s.len(),
{
    if s.len() > 0 {
        lemma_max_key(s.drop_last(), key);
        assert forall|k: int| 0 <= k < s.len() implies key(#[trigger] s[k]) <= max_key(s, key) by {
            if k < s.len() - 1 {
                assert(s[k] == s.drop_last()[k]);
            }
        }
        if max_key(s, key) != 0 {
            if key(s.last()) > max_key(s.drop_last(), key) {
                assert(key(s[s.len() - 1]) == max_key(s, key));
            } else {
                let k = choose|k: int| 0 <= k < s.drop_last().len() && key(#[trigger] s.drop_last()[k]) == max_key(s.drop_last(), key);
                assert(s[k] == s.drop_last()[k]);
            }
        }
    }
}

/// The identifier after the largest one is larger than every identifier in use,
/// unless the largest one is already `u64::MAX`.
pub proof fn lemma_next_key_fresh<T>(s: Seq<T>, key: spec_fn(T) -> u64)
    requires
        max_key(s, key) < u64::MAX,
    ensures
        forall|k: int| 0 <= k < s.len() ==> key(#[trigger] s[k]) < saturating_succ(max_key(s, key)),
{
    lemma_max_key(s, key);
}

// ---------------------------------------------------------------------------
// Stable sorting.
// ---------------------------------------------------------------------------

/// Whether `x` must come before `y` under `before`, as a closure over `y`.
pub open spec fn precedes<T>(x: T, before: spec_fn(T, T) -> bool) -> spec_fn(T) -> bool {
    |y: T| before(x, y)
}

/// `x` inserted into `s` just before the first element that `x` must precede, so after
/// every element it need not precede.
pub open spec fn insert_sorted<T>(s: Seq<T>, x: T, before: spec_fn(T, T) -> bool) -> Seq<T> {
    s.insert(first_index(s, precedes(x, before)), x)
}

/// `s` sorted by `before`, which says when one element must come before another;
/// elements that need not be reordered keep the order they had in `s`.
pub open spec fn stable_sort<T>(s: Seq<T>, before: spec_fn(T, T) -> bool) -> Seq<T>
    decreases s.len(),
{
    if s.len() == 0 {
        s
    } else {
        insert_sorted(stable_sort(s.drop_last(), before), s.last(), before)
    }
}

/// No element must come before an element that stands ahead of it.
pub open spec fn sorted_by<T>(s: Seq<T>, before: spec_fn(T, T) -> bool) -> bool {
    forall|i: int, j: int| 0 <= i < j < s.len() ==> !before(#[trigger] s[j], #[trigger] s[i])
}

/// `before` is a strict order: nothing comes before itself, and it is transitive.
pub open spec fn strict_order<T>(before: spec_fn(T, T) -> bool) -> bool {
    &&& forall|a: T| !#[trigger] before(a, a)
    &&& forall|a: T, b: T, c: T| #[trigger] before(a, b) && #[trigger] before(b, c) ==> before(a, c)
}

/// The result of a stable sort is sorted and holds exactly the elements it was given.
pub proof fn lemma_stable_sort<T>(s: Seq<T>, before: spec_fn(T, T) -> bool)
    requires
        strict_order(before),
    ensures
        sorted_by(stable_sort(s, before), before),
        stable_sort(s, before).to_multiset() == s.to_multiset(),
        stable_sort(s, before).len() == s.len(),
    decreases s.len(),
{
    broadcast use vstd::seq_lib::group_to_multiset_ensures;

    if s.len() > 0 {
        let r = stable_sort(s.drop_last(), before);
        lemma_stable_sort(s.drop_last(), before);
        let x = s.last();
        let p = first_index(r, precedes(x, before));
        lemma_first_index_props(r, precedes(x, before));
        let out = r.insert(p, x);
        assert(out.len() == r.len() + 1);
        assert(s.drop_last().push(x) =~= s);
        assert forall|i: int, j: int| 0 <= i < j < out.len() implies !before(
            #[trigger] out[j],
            #[trigger] out[i],
        ) by {
            if j < p {
                assert(out[i] == r[i] && out[j] == r[j]);
            } else if j == p {
                assert(out[i] == r[i]);
                assert(!precedes(x, before)(r[i]));
            } else if i == p {
                assert(out[j] == r[j - 1]);
                assert(precedes(x, before)(r[p]));
                assert(before(x, r[p]));
                if before(r[j - 1], x) {
                    assert(before(r[j - 1], r[p]));
                    if j - 1 > p {
                        assert(!before(r[j - 1], r[p]));
                    } else {
                        assert(!before(r[p], r[p]));
                    }
                }
            } else if i < p {
                assert(out[i] == r[i] && out[j] == r[j - 1]);
            } else {
                assert(out[i] == r[i - 1] && out[j] == r[j - 1]);
            }
        }
    }
}

// ---------------------------------------------------------------------------
// Positions of the matching elements.
// ---------------------------------------------------------------------------

/// The positions of the elements of `s` that satisfy `p`, in increasing order.
pub open spec fn indices_where<T>(s: Seq<T>, p: spec_fn(T) -> bool) -> Seq<int>
    decreases s.len(),
{
    if s.len() == 0 {
        seq![]
    } else {
        let r = indices_where(s.drop_last(), p);
        if p(s.last()) {
            r.push(s.len() - 1)
        } else {
            r
        }
    }
}

/// Every position `indices_where` lists holds a matching element.
pub proof fn lemma_indices_where<T>(s: Seq<T>, p: spec_fn(T) -> bool)
    ensures
        indices_where(s, p).len() <= s.len(),
        forall|k: int|
            0 <= k < indices_where(s, p).len() ==> 0 <= #[trigger] indices_where(s, p)[k] < s.len()
                && p(s[indices_where(s, p)[k]]),
    decreases s.len(),
{
    if s.len() > 0 {
        lemma_indices_where(s.drop_last(), p);
        let r = indices_where(s.drop_last(), p);
        assert forall|k: int| 0 <= k < indices_where(s, p).len() implies 0 <= #[trigger] indices_where(
            s,
            p,
        )[k] < s.len() && p(s[indices_where(s, p)[k]]) by {
            if k < r.len() {
                assert(indices_where(s, p)[k] == r[k]);
                assert(s[r[k]] == s.drop_last()[r[k]]);
            }
        }
    }
}

} // verus!
