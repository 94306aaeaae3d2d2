use vstd::prelude::*;
use crate::model::{
    history_view, HistoryEntry, HistoryEntryView, RichHistoryEntry, RichHistoryEntryView,
    rich_history_view,
};
use crate::text::{
    chars_of, parse_u64_chars, parse_u64_spec, parse_usize_chars, parse_usize_spec,
    string_push_str,
};
use crate::seqs::{
    first_index, lemma_first_index, lemma_first_index_props, lemma_last_index, lemma_max_key,
    lemma_next_key_fresh, max_key, not_pred, saturating_succ, spec_prune,
};

verus! {

broadcast use vstd::seq_lib::group_filter_ensures;

/// Milliseconds since the Unix epoch by the system clock, or 0 when the clock reads
/// a time before the epoch.
///
/// Calls `SystemTime::elapsed` on `UNIX_EPOCH`. Nothing is stated of the result: it is
/// the time at the call.
#[verifier::external_body]
pub fn now_millis() -> u64 {
    match std::time::UNIX_EPOCH.elapsed() {
        Ok(d) => d.as_millis() as u64,
        Err(_) => 0,
    }
}

// ---------------------------------------------------------------------------
// The model of the text history.
// ---------------------------------------------------------------------------

/// Whether an entry holds exactly the text `c`.
pub open spec fn has_content(c: Seq<char>) -> spec_fn(HistoryEntryView) -> bool {
    |e: HistoryEntryView| e.content == c
}

/// Whether an entry is pinned.
pub open spec fn history_pinned() -> spec_fn(HistoryEntryView) -> bool {
    |e: HistoryEntryView| e.pinned
}

/// The identifier of an entry.
pub open spec fn history_id() -> spec_fn(HistoryEntryView) -> u64 {
    |e: HistoryEntryView| e.id
}

/// The identifier a new entry gets: one more than the largest in use (0 when empty),
/// saturating at `u64::MAX`.
pub open spec fn next_history_id(es: Seq<HistoryEntryView>) -> u64 {
    saturating_succ(max_key(es, history_id()))
}

/// Whether any entry holds exactly the text `c`.
pub open spec fn contains_content(es: Seq<HistoryEntryView>, c: Seq<char>) -> bool {
    exists|i: int| 0 <= i < es.len() && #[trigger] es[i].content == c
}

/// No text occurs twice in the history.
pub open spec fn contents_unique(es: Seq<HistoryEntryView>) -> bool {
    forall|i: int, j: int| 0 <= i < j < es.len() ==> es[i].content != es[j].content
}

/// Recording the clipboard text `c` at time `now`. When an entry already holds `c`, it
/// moves to the front with `updated_at = now` and the result is `false`. Otherwise a
/// new unpinned, unused entry with a fresh identifier goes to the front and the result
/// is `true`.
pub open spec fn spec_upsert_history(es: Seq<HistoryEntryView>, c: Seq<char>, now: u64) -> (
    Seq<HistoryEntryView>,
    bool,
) {
    let i = first_index(es, has_content(c));
    if i < es.len() {
        (seq![HistoryEntryView { updated_at: now, ..es[i] }] + es.remove(i), false)
    } else {
        (
            seq![
                HistoryEntryView {
                    id: next_history_id(es),
                    content: c,
                    created_at: now,
                    updated_at: now,
                    use_count: 0,
                    pinned: false,
                },
            ] + es,
            true,
        )
    }
}

// ---------------------------------------------------------------------------
// Laws of recording text.
// ---------------------------------------------------------------------------

/// After recording `c`, the newest entry holds `c`; a new entry is made exactly when
/// no entry held `c` before; the list grows by one entry then and keeps its length
/// otherwise; and the other entries keep their relative order.
pub proof fn lemma_upsert_history_front(es: Seq<HistoryEntryView>, c: Seq<char>, now: u64)
    ensures
        ({
            let (r, inserted) = spec_upsert_history(es, c, now);
            &&& r.len() > 0
            &&& r[0].content == c
            &&& r[0].updated_at == now
            &&& inserted == !contains_content(es, c)
            &&& r.len() == if inserted {
                es.len() + 1
            } else {
                es.len()
            }
            &&& inserted ==> r.drop_first() == es
            &&& !inserted ==> r.drop_first() == es.remove(first_index(es, has_content(c)))
        }),
{
    let i = first_index(es, has_content(c));
    lemma_first_index_props(es, has_content(c));
    let (r, inserted) = spec_upsert_history(es, c, now);
    if i < es.len() {
        assert(es[i].content == c);
        assert(r.drop_first() =~= es.remove(i));
    } else {
        assert(!contains_content(es, c)) by {
            if contains_content(es, c) {
                let k = choose|k: int| 0 <= k < es.len() && #[trigger] es[k].content == c;
                assert(!has_content(c)(es[k]));
            }
        }
        assert(r.drop_first() =~= es);
    }
}

/// Recording text never makes a text occur twice.
pub proof fn lemma_upsert_history_unique(es: Seq<HistoryEntryView>, c: Seq<char>, now: u64)
    requires
        contents_unique(es),
    ensures
        contents_unique(spec_upsert_history(es, c, now).0),
{
    let i = first_index(es, has_content(c));
    lemma_first_index_props(es, has_content(c));
    let r = spec_upsert_history(es, c, now).0;
    if i < es.len() {
        assert forall|a: int, b: int| 0 <= a < b < r.len() implies r[a].content != r[b].content by {
            let rb = if b - 1 < i {
                b - 1
            } else {
                b
            };
            assert(r[b] == es[rb]);
            if a == 0 {
                assert(rb != i);
            } else {
                let ra = if a - 1 < i {
                    a - 1
                } else {
                    a
                };
                assert(r[a] == es[ra]);
            }
        }
    } else {
        assert forall|a: int, b: int| 0 <= a < b < r.len() implies r[a].content != r[b].content by {
            assert(r[b] == es[b - 1]);
            if a == 0 {
                assert(!has_content(c)(es[b - 1]));
            } else {
                assert(r[a] == es[a - 1]);
            }
        }
    }
}

/// A newly recorded entry gets an identifier that no other entry has, as long as the
/// identifiers in use are below `u64::MAX`.
pub proof fn lemma_upsert_history_fresh_id(es: Seq<HistoryEntryView>, c: Seq<char>, now: u64)
    requires
        max_key(es, history_id()) < u64::MAX,
    ensures
        ({
            let (r, inserted) = spec_upsert_history(es, c, now);
            inserted ==> forall|k: int| 0 <= k < es.len() ==> #[trigger] es[k].id != r[0].id
        }),
{
    lemma_next_key_fresh(es, history_id());
    assert forall|k: int| 0 <= k < es.len() implies #[trigger] es[k].id < next_history_id(es) by {
        assert(history_id()(es[k]) < next_history_id(es));
    }
}

// ---------------------------------------------------------------------------
// Executable history operations.
// ---------------------------------------------------------------------------

/// One more than the largest identifier in use, saturating at `u64::MAX`.
fn next_id_of_history(entries: &[HistoryEntry]) -> (r: u64)
    ensures
        r == next_history_id(history_view(entries@)),
{
    let ghost v = history_view(entries@);
    let mut m: u64 = 0;
    let mut i: usize = 0;
    while i < entries.len()
        invariant
            i <= entries@.len(),
            v == history_view(entries@),
            m == max_key(v.take(i as int), history_id()),
        decreases entries@.len() - i,
    {
        assert(v.take(i + 1).drop_last() =~= v.take(i as int));
        if entries[i].id > m {
            m = entries[i].id;
        }
        i = i + 1;
    }
    assert(v.take(entries@.len() as int) =~= v);
    m.saturating_add(1)
}

/// Records `content` in the history at time `now`: an entry that already holds it moves
/// to the front with its `updated_at` set to `now` (result `false`); otherwise a new entry
/// goes to the front (result `true`).
pub fn upsert_history_at(entries: &mut Vec<HistoryEntry>, content: String, now: u64) -> (inserted:
    bool)
    ensures
        (history_view(final(entries)@), inserted) == spec_upsert_history(
            history_view(old(entries)@),
            content@,
            now,
        ),
{
    let ghost v = history_view(entries@);
    let mut i: usize = 0;
    while i < entries.len() && !(entries[i].content == content)
        invariant
            i <= entries@.len(),
            v == history_view(entries@),
            forall|k: int| 0 <= k < i ==> !has_content(content@)(#[trigger] v[k]),
        decreases entries@.len() - i,
    {
        i = i + 1;
    }
    proof {
        lemma_first_index(v, has_content(content@), i as int);
    }
    if i < entries.len() {
        let mut e = entries.remove(i);
        e.updated_at = now;
        entries.insert(0, e);
        assert(history_view(entries@) =~= seq![HistoryEntryView { updated_at: now, ..v[i as int] }]
            + v.remove(i as int));
        false
    } else {
        let id = next_id_of_history(entries.as_slice());
        let e = HistoryEntry {
            id,
            content,
            created_at: now,
            updated_at: now,
            use_count: 0,
            pinned: false,
        };
        entries.insert(0, e);
        assert(history_view(entries@) =~= seq![e@] + v);
        true
    }
}

/// Records `content` in the history at the current time, as [`upsert_history_at`] does.
pub fn upsert_history(entries: &mut Vec<HistoryEntry>, content: String) -> (inserted: bool)
    ensures
        exists|now: u64|
            (history_view(final(entries)@), inserted) == spec_upsert_history(
                history_view(old(entries)@),
                content@,
                now,
            ),
{
    let now = now_millis();
    upsert_history_at(entries, content, now)
}

/// Cuts the history down to `max_items` entries as [`spec_prune`] describes: a limit of
/// zero keeps only the pinned entries; otherwise the oldest unpinned entries go first.
pub fn prune_history(entries: &mut Vec<HistoryEntry>, max_items: usize)
    ensures
        history_view(final(entries)@) == spec_prune(
            history_view(old(entries)@),
            max_items as nat,
            history_pinned(),
        ),
{
    let ghost v = history_view(entries@);
    if max_items == 0 {
        let mut i: usize = 0;
        let ghost mut j: int = 0;
        while i < entries.len()
            invariant
                0 <= j <= v.len(),
                i == v.take(j).filter(history_pinned()).len(),
                history_view(entries@) == v.take(j).filter(history_pinned()) + v.skip(j),
            decreases entries@.len() - i,
        {
            let ghost f = v.take(j).filter(history_pinned());
            assert(history_view(entries@)[i as int] == v[j]);
            assert(v.take(j + 1) =~= v.take(j).push(v[j]));
            proof {
                v.take(j).lemma_filter_push(v[j], history_pinned());
            }
            if entries[i].pinned {
                assert(v.take(j + 1).filter(history_pinned()) == f.push(v[j]));
                assert(f.push(v[j]) + v.skip(j + 1) =~= f + v.skip(j));
                i = i + 1;
            } else {
                let ghost before = entries@;
                entries.remove(i);
                assert(v.take(j + 1).filter(history_pinned()) == f);
                assert(history_view(entries@) =~= history_view(before).remove(i as int));
                assert(f + v.skip(j + 1) =~= (f + v.skip(j)).remove(i as int));
            }
            proof {
                j = j + 1;
            }
        }
        assert(v.skip(j).len() == 0);
        assert(v.take(j) =~= v);
        assert(history_view(entries@) =~= v.filter(history_pinned()));
        return;
    }
    while entries.len() > max_items
        invariant
            max_items > 0,
            spec_prune(history_view(entries@), max_items as nat, history_pinned()) == spec_prune(
                v,
                max_items as nat,
                history_pinned(),
            ),
        decreases entries@.len(),
    {
        let ghost w = history_view(entries@);
        let mut k = entries.len();
        while k > 0 && entries[k - 1].pinned
            invariant
                k <= entries@.len(),
                w == history_view(entries@),
                forall|m: int| k <= m < w.len() ==> !not_pred(history_pinned())(#[trigger] w[m]),
            decreases k,
        {
            k = k - 1;
        }
        if k > 0 {
            proof {
                lemma_last_index(w, not_pred(history_pinned()), k - 1);
            }
            entries.remove(k - 1);
            assert(history_view(entries@) =~= w.remove(k - 1));
        } else {
            proof {
                lemma_last_index(w, not_pred(history_pinned()), -1);
            }
            entries.pop();
            assert(history_view(entries@) =~= w.drop_last());
        }
    }
}

// ---------------------------------------------------------------------------
// The image and file history.
// ---------------------------------------------------------------------------

/// Whether an entry carries the same payload as `n`: the same kind and the same flavors,
/// type names and data alike, in the same order.
pub open spec fn same_payload(n: RichHistoryEntryView) -> spec_fn(RichHistoryEntryView) -> bool {
    |e: RichHistoryEntryView| e.kind == n.kind && e.flavors == n.flavors
}

/// Whether a rich entry is pinned.
pub open spec fn rich_pinned() -> spec_fn(RichHistoryEntryView) -> bool {
    |e: RichHistoryEntryView| e.pinned
}

/// The identifier of a rich entry.
pub open spec fn rich_id() -> spec_fn(RichHistoryEntryView) -> u64 {
    |e: RichHistoryEntryView| e.id
}

/// The identifier a new rich entry gets.
pub open spec fn next_rich_id(es: Seq<RichHistoryEntryView>) -> u64 {
    saturating_succ(max_key(es, rich_id()))
}

/// Recording the rich item `n` at time `now`. An entry with the same payload takes
/// `n`'s label and flavors, gets `updated_at = now` and moves to the front (result
/// `false`). Otherwise `n` goes to the front with a fresh identifier and both times set
/// to `now` (result `true`).
pub open spec fn spec_upsert_rich_history(
    es: Seq<RichHistoryEntryView>,
    n: RichHistoryEntryView,
    now: u64,
) -> (Seq<RichHistoryEntryView>, bool) {
    let i = first_index(es, same_payload(n));
    if i < es.len() {
        (
            seq![
                RichHistoryEntryView {
                    label: n.label,
                    flavors: n.flavors,
                    updated_at: now,
                    ..es[i]
                },
            ] + es.remove(i),
            false,
        )
    } else {
        (
            seq![
                RichHistoryEntryView {
                    id: next_rich_id(es),
                    created_at: now,
                    updated_at: now,
                    ..n
                },
            ] + es,
            true,
        )
    }
}

/// After recording a rich item, the newest entry carries its payload, and a new entry is
/// made exactly when no entry carried that payload before.
pub proof fn lemma_upsert_rich_front(es: Seq<RichHistoryEntryView>, n: RichHistoryEntryView, now: u64)
    ensures
        ({
            let (r, inserted) = spec_upsert_rich_history(es, n, now);
            &&& r.len() > 0
            &&& r[0].kind == n.kind
            &&& r[0].flavors == n.flavors
            &&& r[0].label == n.label
            &&& inserted == !(exists|i: int| 0 <= i < es.len() && #[trigger] same_payload(n)(es[i]))
            &&& r.len() == if inserted {
                es.len() + 1
            } else {
                es.len()
            }
        }),
{
    let i = first_index(es, same_payload(n));
    lemma_first_index_props(es, same_payload(n));
}

/// Whether two byte slices are equal.
fn bytes_eq(a: &[u8], b: &[u8]) -> (r: bool)
    ensures
        r == (a@ == b@),
{
    if a.len() != b.len() {
        return false;
    }
    let mut i: usize = 0;
    while i < a.len()
        invariant
            i <= a@.len(),
            a@.len() == b@.len(),
            forall|k: int| 0 <= k < i ==> a@[k] == b@[k],
        decreases a@.len() - i,
    {
        if a[i] != b[i] {
            return false;
        }
        i = i + 1;
    }
    assert(a@ =~= b@);
    true
}

/// Whether two rich entries carry the same payload: the same kind and the same flavors.
pub fn rich_payload_eq(left: &RichHistoryEntry, right: &RichHistoryEntry) -> (r: bool)
    ensures
        r == same_payload(right@)(left@),
{
    if left.kind != right.kind || left.flavors.len() != right.flavors.len() {
        proof {
            if left.flavors.len() != right.flavors.len() {
                assert(left@.flavors.len() != right@.flavors.len());
            }
        }
        return false;
    }
    let mut i: usize = 0;
    while i < left.flavors.len()
        invariant
            i <= left.flavors@.len(),
            left.flavors@.len() == right.flavors@.len(),
            forall|k: int| 0 <= k < i ==> left@.flavors[k] == right@.flavors[k],
        decreases left.flavors@.len() - i,
    {
        let a = &left.flavors[i];
        let b = &right.flavors[i];
        if !(a.flavor_type == b.flavor_type) || !bytes_eq(a.data.as_slice(), b.data.as_slice()) {
            assert(left@.flavors[i as int] != right@.flavors[i as int]);
            return false;
        }
        assert(left@.flavors[i as int] == right@.flavors[i as int]);
        i = i + 1;
    }
    assert(left@.flavors =~= right@.flavors);
    true
}

fn next_id_of_rich(entries: &[RichHistoryEntry]) -> (r: u64)
    ensures
        r == next_rich_id(rich_history_view(entries@)),
{
    let ghost v = rich_history_view(entries@);
    let mut m: u64 = 0;
    let mut i: usize = 0;
    while i < entries.len()
        invariant
            i <= entries@.len(),
            v == rich_history_view(entries@),
            m == max_key(v.take(i as int), rich_id()),
        decreases entries@.len() - i,
    {
        assert(v.take(i + 1).drop_last() =~= v.take(i as int));
        if entries[i].id > m {
            m = entries[i].id;
        }
        i = i + 1;
    }
    assert(v.take(entries@.len() as int) =~= v);
    m.saturating_add(1)
}

/// Records a rich item at time `now`, as [`spec_upsert_rich_history`] describes.
pub fn upsert_rich_history_at(
    entries: &mut Vec<RichHistoryEntry>,
    entry: RichHistoryEntry,
    now: u64,
) -> (inserted: bool)
    ensures
        (rich_history_view(final(entries)@), inserted) == spec_upsert_rich_history(
            rich_history_view(old(entries)@),
            entry@,
            now,
        ),
{
    let ghost v = rich_history_view(entries@);
    let mut i: usize = 0;
    while i < entries.len() && !rich_payload_eq(&entries[i], &entry)
        invariant
            i <= entries@.len(),
            v == rich_history_view(entries@),
            forall|k: int| 0 <= k < i ==> !same_payload(entry@)(#[trigger] v[k]),
        decreases entries@.len() - i,
    {
        i = i + 1;
    }
    proof {
        lemma_first_index(v, same_payload(entry@), i as int);
    }
    let mut entry = entry;
    if i < entries.len() {
        let mut existing = entries.remove(i);
        existing.label = entry.label;
        existing.flavors = entry.flavors;
        existing.updated_at = now;
        entries.insert(0, existing);
        assert(rich_history_view(entries@) =~= spec_upsert_rich_history(v, entry@, now).0);
        false
    } else {
        entry.id = next_id_of_rich(entries.as_slice());
        entry.created_at = now;
        entry.updated_at = now;
        entries.insert(0, entry);
        assert(rich_history_view(entries@) =~= seq![entry@] + v);
        true
    }
}

/// Records a rich item at the current time, as [`upsert_rich_history_at`] does.
pub fn upsert_rich_history(entries: &mut Vec<RichHistoryEntry>, entry: RichHistoryEntry) -> (inserted:
    bool)
    ensures
        exists|now: u64|
            (rich_history_view(final(entries)@), inserted) == spec_upsert_rich_history(
                rich_history_view(old(entries)@),
                entry@,
                now,
            ),
{
    let now = now_millis();
    upsert_rich_history_at(entries, entry, now)
}

/// Cuts the rich history down to `max_items` entries as [`spec_prune`] describes.
pub fn prune_rich_history(entries: &mut Vec<RichHistoryEntry>, max_items: usize)
    ensures
        rich_history_view(final(entries)@) == spec_prune(
            rich_history_view(old(entries)@),
            max_items as nat,
            rich_pinned(),
        ),
{
    let ghost v = rich_history_view(entries@);
    if max_items == 0 {
        let mut i: usize = 0;
        let ghost mut j: int = 0;
        while i < entries.len()
            invariant
                0 <= j <= v.len(),
                i == v.take(j).filter(rich_pinned()).len(),
                rich_history_view(entries@) == v.take(j).filter(rich_pinned()) + v.skip(j),
            decreases entries@.len() - i,
        {
            let ghost f = v.take(j).filter(rich_pinned());
            assert(rich_history_view(entries@)[i as int] == v[j]);
            assert(v.take(j + 1) =~= v.take(j).push(v[j]));
            proof {
                v.take(j).lemma_filter_push(v[j], rich_pinned());
            }
            if entries[i].pinned {
                assert(f.push(v[j]) + v.skip(j + 1) =~= f + v.skip(j));
                i = i + 1;
            } else {
                let ghost before = entries@;
                entries.remove(i);
                assert(rich_history_view(entries@) =~= rich_history_view(before).remove(i as int));
                assert(f + v.skip(j + 1) =~= (f + v.skip(j)).remove(i as int));
            }
            proof {
                j = j + 1;
            }
        }
        assert(v.skip(j).len() == 0);
        assert(v.take(j) =~= v);
        assert(rich_history_view(entries@) =~= v.filter(rich_pinned()));
        return;
    }
    while entries.len() > max_items
        invariant
            max_items > 0,
            spec_prune(rich_history_view(entries@), max_items as nat, rich_pinned()) == spec_prune(
                v,
                max_items as nat,
                rich_pinned(),
            ),
        decreases entries@.len(),
    {
        let ghost w = rich_history_view(entries@);
        let mut k = entries.len();
        while k > 0 && entries[k - 1].pinned
            invariant
                k <= entries@.len(),
                w == rich_history_view(entries@),
                forall|m: int| k <= m < w.len() ==> !not_pred(rich_pinned())(#[trigger] w[m]),
            decreases k,
        {
            k = k - 1;
        }
        if k > 0 {
            proof {
                lemma_last_index(w, not_pred(rich_pinned()), k - 1);
            }
            entries.remove(k - 1);
            assert(rich_history_view(entries@) =~= w.remove(k - 1));
        } else {
            proof {
                lemma_last_index(w, not_pred(rich_pinned()), -1);
            }
            entries.pop();
            assert(rich_history_view(entries@) =~= w.drop_last());
        }
    }
}

// ---------------------------------------------------------------------------
// Working with single entries.
// ---------------------------------------------------------------------------

/// Whether an entry has the identifier `id`.
pub open spec fn has_id(id: u64) -> spec_fn(HistoryEntryView) -> bool {
    |e: HistoryEntryView| e.id == id
}

/// `n + 1`, staying at `u64::MAX` there.
pub open spec fn bump(n: u64) -> u64 {
    if n == u64::MAX {
        u64::MAX
    } else {
        (n + 1) as u64
    }
}

/// The position of the first entry with identifier `id`.
pub fn find_history_index(entries: &[HistoryEntry], id: u64) -> (r: Option<usize>)
    ensures
        ({
            let i = first_index(history_view(entries@), has_id(id));
            match r {
                Some(k) => k == i && i < entries@.len(),
                None => i == entries@.len(),
            }
        }),
{
    let ghost v = history_view(entries@);
    let mut i: usize = 0;
    while i < entries.len()
        invariant
            i <= entries@.len(),
            v == history_view(entries@),
            forall|k: int| 0 <= k < i ==> !has_id(id)(#[trigger] v[k]),
        decreases entries@.len() - i,
    {
        if entries[i].id == id {
            proof {
                lemma_first_index(v, has_id(id), i as int);
            }
            return Some(i);
        }
        i = i + 1;
    }
    proof {
        lemma_first_index(v, has_id(id), i as int);
    }
    None
}

/// Counts a copy of the entry at `index` made at time `now`, leaving it in place: its
/// use count goes up by one and `updated_at` becomes `now`.
pub fn record_history_use(entries: &mut Vec<HistoryEntry>, index: usize, now: u64)
    requires
        index < old(entries)@.len(),
    ensures
        history_view(final(entries)@) == history_view(old(entries)@).update(
            index as int,
            HistoryEntryView {
                use_count: bump(old(entries)@[index as int].use_count),
                updated_at: now,
                ..history_view(old(entries)@)[index as int]
            },
        ),
{
    let ghost v = history_view(entries@);
    let mut e = entries.remove(index);
    e.use_count = e.use_count.saturating_add(1);
    e.updated_at = now;
    entries.insert(index, e);
    assert(history_view(entries@) =~= v.update(index as int, e@));
}

/// Counts a copy of the entry at `index` made at time `now` and moves it to the front.
pub fn promote_history_entry(entries: &mut Vec<HistoryEntry>, index: usize, now: u64)
    requires
        index < old(entries)@.len(),
    ensures
        history_view(final(entries)@) == seq![
            HistoryEntryView {
                use_count: bump(old(entries)@[index as int].use_count),
                updated_at: now,
                ..history_view(old(entries)@)[index as int]
            },
        ] + history_view(old(entries)@).remove(index as int),
{
    let ghost v = history_view(entries@);
    let mut e = entries.remove(index);
    e.use_count = e.use_count.saturating_add(1);
    e.updated_at = now;
    entries.insert(0, e);
    assert(history_view(entries@) =~= seq![e@] + v.remove(index as int));
}

/// The history with the first entry whose identifier is `id` pinned or unpinned; the
/// history unchanged when no entry has that identifier.
pub open spec fn spec_set_pin(v: Seq<HistoryEntryView>, id: u64, pinned: bool) -> Seq<HistoryEntryView> {
    let i = first_index(v, has_id(id));
    if i < v.len() {
        v.update(i, HistoryEntryView { pinned, ..v[i] })
    } else {
        v
    }
}

/// Changing an entry's pin keeps every identifier in its place, so the same entry is
/// found again afterwards.
proof fn lemma_set_pin_keeps_index(v: Seq<HistoryEntryView>, id: u64, pinned: bool, other: u64)
    ensures
        first_index(spec_set_pin(v, id, pinned), has_id(other)) == first_index(v, has_id(other)),
        spec_set_pin(v, id, pinned).len() == v.len(),
{
    let p = spec_set_pin(v, id, pinned);
    lemma_first_index_props(v, has_id(id));
    assert(p.len() == v.len());
    lemma_first_index_props(v, has_id(other));
    let j = first_index(v, has_id(other));
    assert forall|k: int| 0 <= k < j implies !has_id(other)(#[trigger] p[k]) by {
        assert(!has_id(other)(v[k]));
    }
    lemma_first_index(p, has_id(other), j);
}

/// Unpinning an entry that pinning found unpinned gives back the history as it was:
/// `unpin` undoes `pin`, and `pin` undoes `unpin` on a pinned entry.
pub proof fn lemma_pin_undo(v: Seq<HistoryEntryView>, id: u64, pinned: bool)
    requires
        first_index(v, has_id(id)) < v.len() ==> v[first_index(v, has_id(id))].pinned == !pinned,
    ensures
        spec_set_pin(spec_set_pin(v, id, pinned), id, !pinned) == v,
{
    lemma_set_pin_keeps_index(v, id, pinned, id);
    lemma_first_index_props(v, has_id(id));
    let i = first_index(v, has_id(id));
    if i < v.len() {
        assert(spec_set_pin(spec_set_pin(v, id, pinned), id, !pinned) =~= v);
    }
}

/// Pinning twice is pinning once.
pub proof fn lemma_pin_idempotent(v: Seq<HistoryEntryView>, id: u64, pinned: bool)
    ensures
        spec_set_pin(spec_set_pin(v, id, pinned), id, pinned) == spec_set_pin(v, id, pinned),
{
    lemma_set_pin_keeps_index(v, id, pinned, id);
    lemma_first_index_props(v, has_id(id));
    let i = first_index(v, has_id(id));
    if i < v.len() {
        assert(spec_set_pin(spec_set_pin(v, id, pinned), id, pinned) =~= spec_set_pin(
            v,
            id,
            pinned,
        ));
    }
}

/// Pins or unpins the first entry with identifier `id`, as [`spec_set_pin`] describes;
/// `false` when there is none.
pub fn set_history_pin(entries: &mut Vec<HistoryEntry>, id: u64, pinned: bool) -> (found: bool)
    ensures
        found == (first_index(history_view(old(entries)@), has_id(id)) < old(entries)@.len()),
        history_view(final(entries)@) == spec_set_pin(history_view(old(entries)@), id, pinned),
{
    let ghost v = history_view(entries@);
    match find_history_index(entries.as_slice(), id) {
        Some(i) => {
            let mut e = entries.remove(i);
            e.pinned = pinned;
            entries.insert(i, e);
            assert(history_view(entries@) =~= v.update(i as int, e@));
            true
        },
        None => false,
    }
}

/// Flips the pin of the first entry with identifier `id` and sets its `updated_at` to
/// `now`; `false` when there is none.
pub fn toggle_history_pin_at(entries: &mut Vec<HistoryEntry>, id: u64, now: u64) -> (found: bool)
    ensures
        ({
            let v = history_view(old(entries)@);
            let i = first_index(v, has_id(id));
            &&& found == (i < v.len())
            &&& history_view(final(entries)@) == if found {
                v.update(i, HistoryEntryView { pinned: !v[i].pinned, updated_at: now, ..v[i] })
            } else {
                v
            }
        }),
{
    let ghost v = history_view(entries@);
    match find_history_index(entries.as_slice(), id) {
        Some(i) => {
            let mut e = entries.remove(i);
            e.pinned = !e.pinned;
            e.updated_at = now;
            entries.insert(i, e);
            assert(history_view(entries@) =~= v.update(i as int, e@));
            true
        },
        None => false,
    }
}

/// Whether an entry's identifier differs from `id`.
pub open spec fn other_id(id: u64) -> spec_fn(HistoryEntryView) -> bool {
    |e: HistoryEntryView| e.id != id
}

/// Removes every entry with identifier `id` and says how many there were.
pub fn remove_history_id(entries: &mut Vec<HistoryEntry>, id: u64) -> (removed: usize)
    ensures
        history_view(final(entries)@) == history_view(old(entries)@).filter(other_id(id)),
        removed == old(entries)@.len() - final(entries)@.len(),
{
    let ghost v = history_view(entries@);
    let before = entries.len();
    let mut i: usize = 0;
    let ghost mut j: int = 0;
    while i < entries.len()
        invariant
            0 <= j <= v.len(),
            before == v.len(),
            i == v.take(j).filter(other_id(id)).len(),
            history_view(entries@) == v.take(j).filter(other_id(id)) + v.skip(j),
        decreases entries@.len() - i,
    {
        let ghost f = v.take(j).filter(other_id(id));
        assert(history_view(entries@)[i as int] == v[j]);
        assert(v.take(j + 1) =~= v.take(j).push(v[j]));
        proof {
            v.take(j).lemma_filter_push(v[j], other_id(id));
        }
        if entries[i].id != id {
            assert(f.push(v[j]) + v.skip(j + 1) =~= f + v.skip(j));
            i = i + 1;
        } else {
            let ghost b = entries@;
            entries.remove(i);
            assert(history_view(entries@) =~= history_view(b).remove(i as int));
            assert(f + v.skip(j + 1) =~= (f + v.skip(j)).remove(i as int));
        }
        proof {
            j = j + 1;
        }
    }
    assert(v.skip(j).len() == 0);
    assert(v.take(j) =~= v);
    proof {
        v.lemma_filter_len(other_id(id));
    }
    before - entries.len()
}

/// Whether a rich entry has the identifier `id`.
pub open spec fn rich_has_id(id: u64) -> spec_fn(RichHistoryEntryView) -> bool {
    |e: RichHistoryEntryView| e.id == id
}

/// The position of the first rich entry with identifier `id`.
pub fn find_rich_index(entries: &[RichHistoryEntry], id: u64) -> (r: Option<usize>)
    ensures
        ({
            let i = first_index(rich_history_view(entries@), rich_has_id(id));
            match r {
                Some(k) => k == i && i < entries@.len(),
                None => i == entries@.len(),
            }
        }),
{
    let ghost v = rich_history_view(entries@);
    let mut i: usize = 0;
    while i < entries.len()
        invariant
            i <= entries@.len(),
            v == rich_history_view(entries@),
            forall|k: int| 0 <= k < i ==> !rich_has_id(id)(#[trigger] v[k]),
        decreases entries@.len() - i,
    {
        if entries[i].id == id {
            proof {
                lemma_first_index(v, rich_has_id(id), i as int);
            }
            return Some(i);
        }
        i = i + 1;
    }
    proof {
        lemma_first_index(v, rich_has_id(id), i as int);
    }
    None
}

/// Counts a copy of the rich entry at `index` made at time `now`, leaving it in place.
pub fn record_rich_use(entries: &mut Vec<RichHistoryEntry>, index: usize, now: u64)
    requires
        index < old(entries)@.len(),
    ensures
        rich_history_view(final(entries)@) == rich_history_view(old(entries)@).update(
            index as int,
            RichHistoryEntryView {
                use_count: bump(old(entries)@[index as int].use_count),
                updated_at: now,
                ..rich_history_view(old(entries)@)[index as int]
            },
        ),
{
    let ghost v = rich_history_view(entries@);
    let mut e = entries.remove(index);
    e.use_count = e.use_count.saturating_add(1);
    e.updated_at = now;
    entries.insert(index, e);
    assert(rich_history_view(entries@) =~= v.update(index as int, e@));
}

/// Whether some entry has the identifier `id`.
pub open spec fn contains_id(es: Seq<HistoryEntryView>, id: u64) -> bool {
    exists|i: int| 0 <= i < es.len() && #[trigger] es[i].id == id
}

/// The entry that a command-line key names, by identifier when `use_id` holds, else by
/// its 1-based position in the list (where 0 counts as 1).
pub open spec fn spec_resolve_history_id(es: Seq<HistoryEntryView>, key: Seq<char>, use_id: bool) -> Result<
    u64,
    Seq<char>,
> {
    if use_id {
        match parse_u64_spec(key) {
            None => Err("invalid entry id `"@ + key + "`"@),
            Some(id) => if contains_id(es, id) {
                Ok(id)
            } else {
                Err("history item `"@ + key + "` was not found"@)
            },
        }
    } else {
        match parse_usize_spec(key) {
            None => Err("invalid list index `"@ + key + "`"@),
            Some(n) => {
                let k = if n == 0 {
                    0
                } else {
                    n - 1
                };
                if k < es.len() {
                    Ok(es[k].id)
                } else {
                    Err("history index `"@ + key + "` was not found"@)
                }
            },
        }
    }
}

fn quoted_message(head: &str, key: &str, tail: &str) -> (m: String)
    ensures
        m@ == head@ + key@ + tail@,
{
    let mut m = String::new();
    string_push_str(&mut m, head);
    string_push_str(&mut m, key);
    string_push_str(&mut m, tail);
    m
}

/// The identifier of the entry that a command-line key names, as
/// [`spec_resolve_history_id`] describes.
pub fn resolve_history_id(entries: &[HistoryEntry], key: &str, use_id: bool) -> (r: Result<u64, String>)
    ensures
        match spec_resolve_history_id(history_view(entries@), key@, use_id) {
            Ok(id) => r == Ok::<u64, String>(id),
            Err(e) => r matches Err(m) && m@ == e,
        },
{
    let ghost v = history_view(entries@);
    let c = chars_of(key);
    assert(c@.subrange(0, c@.len() as int) =~= key@);
    if use_id {
        match parse_u64_chars(c.as_slice(), 0, c.len()) {
            None => Err(quoted_message("invalid entry id `", key, "`")),
            Some(id) => {
                match find_history_index(entries, id) {
                    Some(i) => {
                        proof {
                            lemma_first_index_props(v, has_id(id));
                            assert(has_id(id)(v[i as int]));
                        }
                        Ok(id)
                    },
                    None => {
                        proof {
                            lemma_first_index_props(v, has_id(id));
                            assert forall|i: int| 0 <= i < v.len() implies #[trigger] v[i].id != id by {
                                assert(!has_id(id)(v[i]));
                            }
                        }
                        Err(quoted_message("history item `", key, "` was not found"))
                    },
                }
            },
        }
    } else {
        match parse_usize_chars(c.as_slice(), 0, c.len()) {
            None => Err(quoted_message("invalid list index `", key, "`")),
            Some(n) => {
                let k = n.saturating_sub(1);
                if k < entries.len() {
                    Ok(entries[k].id)
                } else {
                    Err(quoted_message("history index `", key, "` was not found"))
                }
            },
        }
    }
}

} // verus!
