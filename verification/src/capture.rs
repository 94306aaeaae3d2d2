use vstd::prelude::*;
use crate::history::{
    history_pinned, prune_history, same_payload, spec_upsert_history, spec_upsert_rich_history,
    upsert_history_at, upsert_rich_history_at,
};
use crate::model::{history_view, rich_history_view, HistoryEntry, RichHistoryEntry};
use crate::preview::normalize_clipboard_text;
use crate::seqs::spec_prune;
use crate::sensitive::{looks_sensitive, spec_looks_sensitive};
use crate::text::{strip_char, utf8_len};

verus! {

/// The largest clipboard text, in bytes, that the menu bar app records.
pub const CAPTURE_MAX_BYTES: usize = 262144;

/// What the command line decides about clipboard text before recording it.
#[derive(Clone, Debug, PartialEq, Eq)]
pub enum CaptureCheck {
    /// Nothing is left once NUL padding is removed.
    Empty,
    /// The text has more bytes than allowed; its size is given.
    TooLarge(usize),
    /// The text looks like a secret and secrets are not allowed.
    Sensitive,
    /// The text to record.
    Accepted(String),
}

/// Decides whether clipboard text should be recorded: NUL padding is removed first; empty
/// text, text over `max_bytes` bytes and (unless `allow_sensitive`) text that looks like a
/// secret are turned away.
pub fn check_capture(text: String, allow_sensitive: bool, max_bytes: usize) -> (r: CaptureCheck)
    ensures
        ({
            let t = strip_char(text@, '\0');
            if t.len() == 0 {
                r is Empty
            } else if utf8_len(t) > max_bytes {
                r matches CaptureCheck::TooLarge(n) && n == utf8_len(t)
            } else if !allow_sensitive && spec_looks_sensitive(t) {
                r is Sensitive
            } else {
                r matches CaptureCheck::Accepted(s) && s@ == t
            }
        }),
{
    let text = normalize_clipboard_text(text);
    if text.as_str().is_empty() {
        return CaptureCheck::Empty;
    }
    let n = text.as_str().as_bytes().len();
    if n > max_bytes {
        return CaptureCheck::TooLarge(n);
    }
    if !allow_sensitive && looks_sensitive(text.as_str()) {
        return CaptureCheck::Sensitive;
    }
    CaptureCheck::Accepted(text)
}

/// Records accepted text at time `now` and then cuts the history down to `max_items`;
/// says whether a new entry was made.
pub fn capture_history_at(
    entries: &mut Vec<HistoryEntry>,
    text: String,
    max_items: usize,
    now: u64,
) -> (inserted: bool)
    ensures
        ({
            let (r, ins) = spec_upsert_history(history_view(old(entries)@), text@, now);
            &&& inserted == ins
            &&& history_view(final(entries)@) == spec_prune(r, max_items as nat, history_pinned())
        }),
{
    let inserted = upsert_history_at(entries, text, now);
    prune_history(entries, max_items);
    inserted
}

/// What the menu bar app reports after a capture.
#[derive(Clone, Copy, Debug, PartialEq, Eq, Structural)]
pub enum CaptureStatus {
    /// A new entry was recorded.
    Changed,
    /// An existing entry was brought to the front.
    Unchanged,
    /// The clipboard was not recorded.
    Ignored,
}

/// The menu bar app's capture of clipboard text at time `now`: after removing NUL
/// padding, empty text, text over [`CAPTURE_MAX_BYTES`] bytes and text that looks like a
/// secret are ignored; anything else is recorded. The history is never cut here.
pub fn capture_text_status(entries: &mut Vec<HistoryEntry>, text: String, now: u64) -> (r:
    CaptureStatus)
    ensures
        ({
            let t = strip_char(text@, '\0');
            let v = history_view(old(entries)@);
            if t.len() == 0 || utf8_len(t) > CAPTURE_MAX_BYTES || spec_looks_sensitive(t) {
                r == CaptureStatus::Ignored && history_view(final(entries)@) == v
            } else {
                let (nv, ins) = spec_upsert_history(v, t, now);
                &&& history_view(final(entries)@) == nv
                &&& r == if ins {
                    CaptureStatus::Changed
                } else {
                    CaptureStatus::Unchanged
                }
            }
        }),
{
    match check_capture(text, false, CAPTURE_MAX_BYTES) {
        CaptureCheck::Accepted(t) => {
            if upsert_history_at(entries, t, now) {
                CaptureStatus::Changed
            } else {
                CaptureStatus::Unchanged
            }
        },
        _ => CaptureStatus::Ignored,
    }
}

/// The menu bar app's capture of an image or file at time `now`.
pub fn capture_rich_status(entries: &mut Vec<RichHistoryEntry>, entry: RichHistoryEntry, now: u64) -> (r:
    CaptureStatus)
    ensures
        ({
            let (nv, ins) = spec_upsert_rich_history(rich_history_view(old(entries)@), entry@, now);
            &&& rich_history_view(final(entries)@) == nv
            &&& r == if ins {
                CaptureStatus::Changed
            } else {
                CaptureStatus::Unchanged
            }
        }),
{
    if upsert_rich_history_at(entries, entry, now) {
        CaptureStatus::Changed
    } else {
        CaptureStatus::Unchanged
    }
}

} // verus!
