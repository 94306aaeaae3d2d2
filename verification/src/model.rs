use vstd::prelude::*;

verus! {

/// One captured piece of clipboard text.
#[derive(Clone, Debug, Eq, PartialEq)]
pub struct HistoryEntry {
    pub id: u64,
    pub content: String,
    pub created_at: u64,
    pub updated_at: u64,
    pub use_count: u64,
    pub pinned: bool,
}

/// A named, reusable piece of text.
#[derive(Clone, Debug, Eq, PartialEq)]
pub struct SnippetEntry {
    pub name: String,
    pub content: String,
    pub created_at: u64,
    pub updated_at: u64,
    pub use_count: u64,
}

/// One pasteboard representation of a rich clipboard item: a type name and its raw data.
#[derive(Clone, Debug, Eq, PartialEq)]
pub struct RichClipboardFlavor {
    pub flavor_type: String,
    pub data: Vec<u8>,
}

/// What a rich clipboard item holds.
#[derive(Clone, Copy, Debug, Eq, PartialEq, Structural)]
pub enum RichClipboardKind {
    Image,
    File,
}

/// A captured image or file reference, kept as the pasteboard flavors it was copied with.
#[derive(Clone, Debug, Eq, PartialEq)]
pub struct RichHistoryEntry {
    pub id: u64,
    pub kind: RichClipboardKind,
    pub label: String,
    pub flavors: Vec<RichClipboardFlavor>,
    pub created_at: u64,
    pub updated_at: u64,
    pub use_count: u64,
    pub pinned: bool,
}

/// The mathematical value of a [`HistoryEntry`].
pub struct HistoryEntryView {
    pub id: u64,
    pub content: Seq<char>,
    pub created_at: u64,
    pub updated_at: u64,
    pub use_count: u64,
    pub pinned: bool,
}

/// The mathematical value of a [`SnippetEntry`].
pub struct SnippetEntryView {
    pub name: Seq<char>,
    pub content: Seq<char>,
    pub created_at: u64,
    pub updated_at: u64,
    pub use_count: u64,
}

/// The mathematical value of a [`RichClipboardFlavor`].
pub struct FlavorView {
    pub flavor_type: Seq<char>,
    pub data: Seq<u8>,
}

/// The mathematical value of a [`RichHistoryEntry`].
pub struct RichHistoryEntryView {
    pub id: u64,
    pub kind: RichClipboardKind,
    pub label: Seq<char>,
    pub flavors: Seq<FlavorView>,
    pub created_at: u64,
    pub updated_at: u64,
    pub use_count: u64,
    pub pinned: bool,
}

impl View for HistoryEntry {
    type V = HistoryEntryView;

    open spec fn view(&self) -> HistoryEntryView {
        HistoryEntryView {
            id: self.id,
            content: self.content@,
            created_at: self.created_at,
            updated_at: self.updated_at,
            use_count: self.use_count,
            pinned: self.pinned,
        }
    }
}

impl View for SnippetEntry {
    type V = SnippetEntryView;

    open spec fn view(&self) -> SnippetEntryView {
        SnippetEntryView {
            name: self.name@,
            content: self.content@,
            created_at: self.created_at,
            updated_at: self.updated_at,
            use_count: self.use_count,
        }
    }
}

impl View for RichClipboardFlavor {
    type V = FlavorView;

    open spec fn view(&self) -> FlavorView {
        FlavorView { flavor_type: self.flavor_type@, data: self.data@ }
    }
}

/// The values of a sequence of flavors.
pub open spec fn flavors_view(v: Seq<RichClipboardFlavor>) -> Seq<FlavorView> {
    v.map_values(|f: RichClipboardFlavor| f@)
}

impl View for RichHistoryEntry {
    type V = RichHistoryEntryView;

    open spec fn view(&self) -> RichHistoryEntryView {
        RichHistoryEntryView {
            id: self.id,
            kind: self.kind,
            label: self.label@,
            flavors: flavors_view(self.flavors@),
            created_at: self.created_at,
            updated_at: self.updated_at,
            use_count: self.use_count,
            pinned: self.pinned,
        }
    }
}

/// The values of a sequence of history entries.
pub open spec fn history_view(v: Seq<HistoryEntry>) -> Seq<HistoryEntryView> {
    v.map_values(|e: HistoryEntry| e@)
}

/// The values of a sequence of snippets.
pub open spec fn snippets_view(v: Seq<SnippetEntry>) -> Seq<SnippetEntryView> {
    v.map_values(|e: SnippetEntry| e@)
}

/// The values of a sequence of rich history entries.
pub open spec fn rich_history_view(v: Seq<RichHistoryEntry>) -> Seq<RichHistoryEntryView> {
    v.map_values(|e: RichHistoryEntry| e@)
}

impl HistoryEntry {
    /// A copy of this entry with the same value.
    pub fn duplicate(&self) -> (out: HistoryEntry)
        ensures
            out@ == self@,
    {
        HistoryEntry {
            id: self.id,
            content: self.content.clone(),
            created_at: self.created_at,
            updated_at: self.updated_at,
            use_count: self.use_count,
            pinned: self.pinned,
        }
    }
}

impl RichClipboardFlavor {
    /// A copy of this flavor with the same value.
    pub fn duplicate(&self) -> (out: RichClipboardFlavor)
        ensures
            out@ == self@,
    {
        let mut data: Vec<u8> = Vec::new();
        let mut i: usize = 0;
        while i < self.data.len()
            invariant
                i <= self.data@.len(),
                data@ == self.data@.take(i as int),
            decreases self.data@.len() - i,
        {
            data.push(self.data[i]);
            assert(self.data@.take(i + 1) == self.data@.take(i as int).push(self.data@[i as int]));
            i = i + 1;
        }
        assert(self.data@.take(self.data@.len() as int) == self.data@);
        RichClipboardFlavor { flavor_type: self.flavor_type.clone(), data }
    }
}

} // verus!
