use vstd::prelude::*;
use crate::args::strings_view;
use crate::model::{
    flavors_view, FlavorView, RichClipboardFlavor, RichClipboardKind, RichHistoryEntry,
};
use crate::seqs::{first_index, lemma_first_index};
use crate::text::{str_eq, string_push_str, u64_to_decimal};

verus! {

// ---------------------------------------------------------------------------
// Pasteboard types.
// ---------------------------------------------------------------------------

/// The pasteboard types that hold an image.
pub open spec fn spec_is_image_type(name: Seq<char>) -> bool {
    name == "public.png"@ || name == "public.tiff"@ || name == "com.adobe.pdf"@ || name
        == "Apple PNG pasteboard type"@ || name == "NeXT TIFF v4.0 pasteboard type"@
}

/// The pasteboard types that hold a file reference.
pub open spec fn spec_is_file_type(name: Seq<char>) -> bool {
    name == "public.file-url"@ || name == "NSFilenamesPboardType"@
}

/// The pasteboard types kept for an item of the given kind: image types for images;
/// file types and plain UTF-8 text for files.
pub open spec fn spec_is_supported_rich_type(kind: RichClipboardKind, name: Seq<char>) -> bool {
    match kind {
        RichClipboardKind::Image => spec_is_image_type(name),
        RichClipboardKind::File => spec_is_file_type(name) || name == "public.utf8-plain-text"@,
    }
}

/// Whether a pasteboard type holds an image.
pub fn is_image_type(name: &str) -> (r: bool)
    ensures
        r == spec_is_image_type(name@),
{
    str_eq(name, "public.png") || str_eq(name, "public.tiff") || str_eq(name, "com.adobe.pdf")
        || str_eq(name, "Apple PNG pasteboard type") || str_eq(
        name,
        "NeXT TIFF v4.0 pasteboard type",
    )
}

/// Whether a pasteboard type holds a file reference.
pub fn is_file_type(name: &str) -> (r: bool)
    ensures
        r == spec_is_file_type(name@),
{
    str_eq(name, "public.file-url") || str_eq(name, "NSFilenamesPboardType")
}

/// Whether a pasteboard type is kept for an item of the given kind.
pub fn is_supported_rich_type(kind: RichClipboardKind, name: &str) -> (r: bool)
    ensures
        r == spec_is_supported_rich_type(kind, name@),
{
    match kind {
        RichClipboardKind::Image => is_image_type(name),
        RichClipboardKind::File => is_file_type(name) || str_eq(name, "public.utf8-plain-text"),
    }
}

/// The kind of rich item the pasteboard holds, from the types it offers: a file when
/// any type is a file type, else an image when any type is an image type, else none.
pub open spec fn spec_rich_kind(types: Seq<Seq<char>>) -> Option<RichClipboardKind> {
    if exists|i: int| 0 <= i < types.len() && spec_is_file_type(#[trigger] types[i]) {
        Some(RichClipboardKind::File)
    } else if exists|i: int| 0 <= i < types.len() && spec_is_image_type(#[trigger] types[i]) {
        Some(RichClipboardKind::Image)
    } else {
        None
    }
}

/// The kind of rich item the pasteboard holds, as [`spec_rich_kind`] describes.
pub fn rich_kind_for_types(types: &[String]) -> (r: Option<RichClipboardKind>)
    ensures
        r == spec_rich_kind(strings_view(types@)),
{
    let ghost tv = strings_view(types@);
    let mut any_file = false;
    let mut any_image = false;
    let mut i: usize = 0;
    while i < types.len()
        invariant
            i <= types@.len(),
            tv == strings_view(types@),
            any_file == exists|k: int| 0 <= k < i && spec_is_file_type(#[trigger] tv[k]),
            any_image == exists|k: int| 0 <= k < i && spec_is_image_type(#[trigger] tv[k]),
        decreases types@.len() - i,
    {
        assert(tv[i as int] == types@[i as int]@);
        if is_file_type(types[i].as_str()) {
            any_file = true;
        }
        if is_image_type(types[i].as_str()) {
            any_image = true;
        }
        i = i + 1;
    }
    if any_file {
        Some(RichClipboardKind::File)
    } else if any_image {
        Some(RichClipboardKind::Image)
    } else {
        None
    }
}

// ---------------------------------------------------------------------------
// Collecting the flavors of a rich item.
// ---------------------------------------------------------------------------

/// Whether a flavor is kept for an item of the given kind.
pub open spec fn kept_flavor(kind: RichClipboardKind) -> spec_fn(FlavorView) -> bool {
    |f: FlavorView| spec_is_supported_rich_type(kind, f.flavor_type)
}

/// The total number of data bytes of some flavors.
pub open spec fn total_bytes(fs: Seq<FlavorView>) -> int
    decreases fs.len(),
{
    if fs.len() == 0 {
        0
    } else {
        total_bytes(fs.drop_last()) + fs.last().data.len()
    }
}

/// The flavors kept for a rich item of the given kind, from what the pasteboard offers
/// in order: those of a supported type. It is an error when their data add up to more
/// than `max_bytes` bytes (counting saturates at `usize::MAX`), and there is no item when
/// none is kept.
pub open spec fn spec_select_rich_flavors(
    kind: RichClipboardKind,
    offered: Seq<FlavorView>,
    max_bytes: usize,
) -> Result<Option<Seq<FlavorView>>, ()> {
    let kept = offered.filter(kept_flavor(kind));
    let total = total_bytes(kept);
    if (if total > usize::MAX {
        usize::MAX as int
    } else {
        total
    }) > max_bytes {
        Err(())
    } else if kept.len() == 0 {
        Ok(None)
    } else {
        Ok(Some(kept))
    }
}

/// The message for a rich item over the size limit.
pub open spec fn too_large_message(max_bytes: usize) -> Seq<char> {
    "rich clipboard item is larger than "@ + crate::text::decimal(max_bytes as nat) + " bytes"@
}

proof fn lemma_total_bytes_push(fs: Seq<FlavorView>, f: FlavorView)
    ensures
        total_bytes(fs.push(f)) == total_bytes(fs) + f.data.len(),
{
    assert(fs.push(f).drop_last() =~= fs);
}

proof fn lemma_total_bytes_nonneg(fs: Seq<FlavorView>)
    ensures
        total_bytes(fs) >= 0,
    decreases fs.len(),
{
    if fs.len() > 0 {
        lemma_total_bytes_nonneg(fs.drop_last());
    }
}

/// Keeps the offered flavors of a supported type, as [`spec_select_rich_flavors`]
/// describes; the error is the message shown for an item over the size limit.
pub fn select_rich_flavors(
    kind: RichClipboardKind,
    offered: Vec<RichClipboardFlavor>,
    max_bytes: usize,
) -> (r: Result<Option<Vec<RichClipboardFlavor>>, String>)
    ensures
        match spec_select_rich_flavors(kind, flavors_view(offered@), max_bytes) {
            Err(()) => r matches Err(m) && m@ == too_large_message(max_bytes),
            Ok(None) => r matches Ok(None),
            Ok(Some(fs)) => r matches Ok(Some(v)) && flavors_view(v@) == fs,
        },
{
    let ghost ov = flavors_view(offered@);
    let ghost p = kept_flavor(kind);
    let mut rest = offered;
    let mut kept: Vec<RichClipboardFlavor> = Vec::new();
    let mut total: usize = 0;
    let mut over = false;
    let ghost mut k: int = 0;
    assert(ov.skip(0) =~= ov);
    while rest.len() > 0
        invariant
            0 <= k <= ov.len(),
            p == kept_flavor(kind),
            flavors_view(rest@) == ov.skip(k),
            flavors_view(kept@) == ov.take(k).filter(p),
            total == if total_bytes(ov.take(k).filter(p)) > usize::MAX {
                usize::MAX as int
            } else {
                total_bytes(ov.take(k).filter(p))
            },
        decreases rest@.len(),
    {
        assert(flavors_view(rest@).len() == rest@.len());
        assert(flavors_view(rest@)[0] == rest@[0]@);
        assert(ov.skip(k)[0] == ov[k]);
        let ghost r0 = flavors_view(rest@);
        let f = rest.remove(0);
        assert(flavors_view(rest@) =~= r0.drop_first());
        assert(r0.drop_first() =~= ov.skip(k + 1));
        assert(ov.take(k + 1) =~= ov.take(k).push(ov[k]));
        proof {
            ov.take(k).lemma_filter_push(ov[k], p);
            lemma_total_bytes_push(ov.take(k).filter(p), ov[k]);
            lemma_total_bytes_nonneg(ov.take(k).filter(p));
        }
        if is_supported_rich_type(kind, f.flavor_type.as_str()) {
            total = total.saturating_add(f.data.len());
            let ghost o = kept@;
            kept.push(f);
            assert(flavors_view(kept@) =~= flavors_view(o).push(ov[k]));
        }
        proof {
            k = k + 1;
        }
    }
    assert(ov.take(k) =~= ov);
    if total > max_bytes {
        let mut m = String::new();
        string_push_str(&mut m, "rich clipboard item is larger than ");
        let d = u64_to_decimal(max_bytes as u64);
        string_push_str(&mut m, d.as_str());
        string_push_str(&mut m, " bytes");
        return Err(m);
    }
    if kept.len() == 0 {
        return Ok(None);
    }
    Ok(Some(kept))
}

// ---------------------------------------------------------------------------
// Image previews.
// ---------------------------------------------------------------------------

/// A PNG flavor.
pub open spec fn is_png_flavor() -> spec_fn(FlavorView) -> bool {
    |f: FlavorView| f.flavor_type == "public.png"@ || f.flavor_type == "Apple PNG pasteboard type"@
}

/// A TIFF flavor.
pub open spec fn is_tiff_flavor() -> spec_fn(FlavorView) -> bool {
    |f: FlavorView| f.flavor_type == "public.tiff"@ || f.flavor_type == "NeXTTIFFPboardType"@
}

/// The data to preview for a rich item: its first PNG flavor, else its first TIFF
/// flavor, else nothing.
pub open spec fn spec_preview_image_data(fs: Seq<FlavorView>) -> Option<Seq<u8>> {
    let png = first_index(fs, is_png_flavor());
    let tiff = first_index(fs, is_tiff_flavor());
    if png < fs.len() {
        Some(fs[png].data)
    } else if tiff < fs.len() {
        Some(fs[tiff].data)
    } else {
        None
    }
}

fn first_flavor_of(entry: &RichHistoryEntry, png: bool) -> (r: Option<usize>)
    ensures
        ({
            let fs = entry@.flavors;
            let i = first_index(fs, if png {
                is_png_flavor()
            } else {
                is_tiff_flavor()
            });
            match r {
                Some(k) => k == i && i < fs.len(),
                None => i == fs.len(),
            }
        }),
{
    let ghost fs = entry@.flavors;
    let ghost p = if png {
        is_png_flavor()
    } else {
        is_tiff_flavor()
    };
    let mut i: usize = 0;
    while i < entry.flavors.len()
        invariant
            i <= entry.flavors@.len(),
            fs == entry@.flavors,
            fs.len() == entry.flavors@.len(),
            p == if png {
                is_png_flavor()
            } else {
                is_tiff_flavor()
            },
            forall|k: int| 0 <= k < i ==> !p(#[trigger] fs[k]),
        decreases entry.flavors@.len() - i,
    {
        let t = entry.flavors[i].flavor_type.as_str();
        assert(fs[i as int] == entry.flavors@[i as int]@);
        let hit = if png {
            str_eq(t, "public.png") || str_eq(t, "Apple PNG pasteboard type")
        } else {
            str_eq(t, "public.tiff") || str_eq(t, "NeXTTIFFPboardType")
        };
        if hit {
            proof {
                lemma_first_index(fs, p, i as int);
            }
            return Some(i);
        }
        i = i + 1;
    }
    proof {
        lemma_first_index(fs, p, i as int);
    }
    None
}

/// The data to preview for a rich item, as [`spec_preview_image_data`] describes.
pub fn preview_image_data(entry: &RichHistoryEntry) -> (r: Option<Vec<u8>>)
    ensures
        match spec_preview_image_data(entry@.flavors) {
            Some(d) => r matches Some(v) && v@ == d,
            None => r is None,
        },
{
    let found = match first_flavor_of(entry, true) {
        Some(i) => Some(i),
        None => first_flavor_of(entry, false),
    };
    match found {
        Some(i) => {
            let f = entry.flavors[i].duplicate();
            assert(entry@.flavors[i as int] == entry.flavors@[i as int]@);
            Some(f.data)
        },
        None => None,
    }
}

/// The label of a file item: the file URL the pasteboard offers as text, if any.
pub open spec fn spec_file_label(url: Option<Seq<char>>) -> Seq<char> {
    match url {
        Some(u) => "File clipboard: "@ + u,
        None => "File clipboard"@,
    }
}

/// The label of a file item.
pub fn file_label(url: Option<&str>) -> (r: String)
    ensures
        r@ == spec_file_label(
            match url {
                Some(u) => Some(u@),
                None => None,
            },
        ),
{
    let mut r = String::new();
    match url {
        Some(u) => {
            string_push_str(&mut r, "File clipboard: ");
            string_push_str(&mut r, u);
        },
        None => string_push_str(&mut r, "File clipboard"),
    }
    r
}

} // verus!
