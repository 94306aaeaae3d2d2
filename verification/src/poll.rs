use vstd::prelude::*;
use crate::capture::CaptureStatus;
use crate::menu::should_capture;
use crate::model::RichHistoryEntry;
use crate::text::{chars_of, strip_char, strip_char_bounds};

verus! {

// ---------------------------------------------------------------------------
// One poll of the clipboard by the menu bar app.
//
// A poll reads the pasteboard's change count, then (when image and file capture is on)
// the image or file on the pasteboard, then its text, and records what it found. The
// reading and recording are done by the app; the decisions between them are made here,
// one step per answer the app brings back.
// ---------------------------------------------------------------------------

/// What a poll waits for.
#[derive(Clone, Copy, Debug, PartialEq, Eq, Structural)]
pub enum PollPhase {
    /// The pasteboard's change count.
    ChangeCount,
    /// The image or file on the pasteboard.
    Rich,
    /// The text on the pasteboard.
    Text,
    /// The outcome of recording an image or file.
    RecordedRich,
    /// The outcome of recording text.
    RecordedText,
    /// Nothing: the poll is over.
    Done,
}

/// The state of a poll.
#[derive(Clone, Copy, Debug, PartialEq, Eq)]
pub struct PollState {
    /// The change count that the last capture consumed.
    pub last_change: i64,
    /// Whether the poll was asked for (rather than timed): it then reads the clipboard
    /// whatever the change count says and reports read errors.
    pub force: bool,
    /// Whether images and files are captured.
    pub capture_rich: bool,
    /// The change count read by this poll, when it could be read.
    pub change: Option<i64>,
    /// What the poll waits for.
    pub phase: PollPhase,
}

/// What the app brings back to a poll.
#[derive(Debug)]
pub enum PollEvent {
    /// The pasteboard's change count, when it could be read.
    ChangeCount(Option<i64>),
    /// The image or file on the pasteboard, if any.
    RichRead(Result<Option<RichHistoryEntry>, String>),
    /// The text on the pasteboard.
    TextRead(Result<String, String>),
    /// The outcome of recording what was read.
    Recorded(Result<CaptureStatus, String>),
}

/// What a poll asks the app to do, in order.
#[derive(Clone, Debug, PartialEq, Eq)]
pub enum PollAction {
    ReadChangeCount,
    ReadRich,
    ReadText,
    RecordRich(RichHistoryEntry),
    RecordText(String),
    ReportError(String),
    ClearError,
    RebuildMenu,
    /// Remember this change count as consumed.
    SetLastChange(i64),
}

/// A poll that has just begun: it waits for the change count.
pub open spec fn spec_poll_start(last_change: i64, force: bool, capture_rich: bool) -> PollState {
    PollState { last_change, force, capture_rich, change: None, phase: PollPhase::ChangeCount }
}

/// Begins a poll: the app first reads the change count.
pub fn start_poll(last_change: i64, force: bool, capture_rich: bool) -> (r: (PollState, Vec<PollAction>))
    ensures
        r.0 == spec_poll_start(last_change, force, capture_rich),
        r.1@ == seq![PollAction::ReadChangeCount],
{
    let mut actions: Vec<PollAction> = Vec::new();
    actions.push(PollAction::ReadChangeCount);
    (PollState { last_change, force, capture_rich, change: None, phase: PollPhase::ChangeCount }, actions)
}

/// The state once the poll is over, with the change count consumed when it was read.
pub open spec fn consumed(s: PollState) -> PollState {
    PollState {
        last_change: match s.change {
            Some(c) => c,
            None => s.last_change,
        },
        phase: PollPhase::Done,
        ..s
    }
}

/// Consuming the change count: nothing to do when it could not be read.
pub open spec fn consume_actions(change: Option<i64>) -> Seq<PollAction> {
    match change {
        Some(c) => seq![PollAction::SetLastChange(c)],
        None => seq![],
    }
}

/// After recording: a new entry clears the error and rebuilds the menu, a failure is
/// reported, and either way the change count is consumed.
pub open spec fn recorded_actions(outcome: Result<CaptureStatus, String>, change: Option<i64>) -> Seq<PollAction> {
    let first = match outcome {
        Ok(CaptureStatus::Changed) => seq![PollAction::ClearError, PollAction::RebuildMenu],
        Ok(_) => seq![],
        Err(m) => seq![PollAction::ReportError(m)],
    };
    first + consume_actions(change)
}

/// One step of a poll.
/// - The change count: the poll stops when it was read, the poll is not forced and the
///   count has not moved since the last capture; otherwise it goes on to the image or file
///   when those are captured, else to the text.
/// - The image or file: one found is recorded and nothing else is read; none found goes on
///   to the text; a read error goes on to the text, reported first on a forced poll.
/// - The text: text that is empty once NUL padding is removed ends the poll, consuming the
///   change count only on a forced poll (an unforced poll tries again next time); other
///   text is recorded; a read error ends the poll, reported on a forced poll.
/// - The outcome of recording ends the poll and consumes the change count.
/// - Anything the poll does not wait for ends it with nothing to do.
pub open spec fn spec_poll_step(s: PollState, e: PollEvent) -> (PollState, Seq<PollAction>) {
    let done = PollState { phase: PollPhase::Done, ..s };
    match e {
        PollEvent::ChangeCount(c) => if s.phase == PollPhase::ChangeCount {
            let s2 = PollState { change: c, ..s };
            let moved = match c {
                Some(n) => s.force || n != s.last_change,
                None => true,
            };
            if !moved {
                (PollState { phase: PollPhase::Done, ..s2 }, seq![])
            } else if s.capture_rich {
                (PollState { phase: PollPhase::Rich, ..s2 }, seq![PollAction::ReadRich])
            } else {
                (PollState { phase: PollPhase::Text, ..s2 }, seq![PollAction::ReadText])
            }
        } else {
            (done, seq![])
        },
        PollEvent::RichRead(r) => if s.phase == PollPhase::Rich {
            match r {
                Ok(Some(entry)) => (
                    PollState { phase: PollPhase::RecordedRich, ..s },
                    seq![PollAction::RecordRich(entry)],
                ),
                Ok(None) => (PollState { phase: PollPhase::Text, ..s }, seq![PollAction::ReadText]),
                Err(m) => (
                    PollState { phase: PollPhase::Text, ..s },
                    if s.force {
                        seq![PollAction::ReportError(m), PollAction::ReadText]
                    } else {
                        seq![PollAction::ReadText]
                    },
                ),
            }
        } else {
            (done, seq![])
        },
        PollEvent::TextRead(r) => if s.phase == PollPhase::Text {
            match r {
                Ok(t) => if strip_char(t@, '\0').len() == 0 {
                    if s.force {
                        (consumed(s), consume_actions(s.change))
                    } else {
                        (done, seq![])
                    }
                } else {
                    (PollState { phase: PollPhase::RecordedText, ..s }, seq![PollAction::RecordText(t)])
                },
                Err(m) => (
                    done,
                    if s.force {
                        seq![PollAction::ReportError(m)]
                    } else {
                        seq![]
                    },
                ),
            }
        } else {
            (done, seq![])
        },
        PollEvent::Recorded(outcome) => if s.phase == PollPhase::RecordedRich || s.phase
            == PollPhase::RecordedText {
            (consumed(s), recorded_actions(outcome, s.change))
        } else {
            (done, seq![])
        },
    }
}

fn push_consume(actions: &mut Vec<PollAction>, change: Option<i64>)
    ensures
        final(actions)@ == old(actions)@ + consume_actions(change),
{
    match change {
        Some(c) => actions.push(PollAction::SetLastChange(c)),
        None => {},
    }
}

fn consume(s: PollState) -> (r: PollState)
    ensures
        r == consumed(s),
{
    PollState {
        last_change: match s.change {
            Some(c) => c,
            None => s.last_change,
        },
        phase: PollPhase::Done,
        ..s
    }
}

/// Takes one step of a poll, as [`spec_poll_step`] describes: the next state, and what
/// the app is to do, in order. The app reads or records as the last action asks and
/// brings the outcome back as the next event; a poll with no such action is over.
pub fn poll_step(s: PollState, e: PollEvent) -> (r: (PollState, Vec<PollAction>))
    ensures
        r.0 == spec_poll_step(s, e).0,
        r.1@ == spec_poll_step(s, e).1,
{
    let done = PollState { phase: PollPhase::Done, ..s };
    let mut actions: Vec<PollAction> = Vec::new();
    match e {
        PollEvent::ChangeCount(c) => {
            if s.phase != PollPhase::ChangeCount {
                return (done, actions);
            }
            let s2 = PollState { change: c, ..s };
            if !should_capture(c, s.last_change, s.force) {
                (PollState { phase: PollPhase::Done, ..s2 }, actions)
            } else if s.capture_rich {
                actions.push(PollAction::ReadRich);
                (PollState { phase: PollPhase::Rich, ..s2 }, actions)
            } else {
                actions.push(PollAction::ReadText);
                (PollState { phase: PollPhase::Text, ..s2 }, actions)
            }
        },
        PollEvent::RichRead(r) => {
            if s.phase != PollPhase::Rich {
                return (done, actions);
            }
            match r {
                Ok(Some(entry)) => {
                    actions.push(PollAction::RecordRich(entry));
                    (PollState { phase: PollPhase::RecordedRich, ..s }, actions)
                },
                Ok(None) => {
                    actions.push(PollAction::ReadText);
                    (PollState { phase: PollPhase::Text, ..s }, actions)
                },
                Err(m) => {
                    if s.force {
                        actions.push(PollAction::ReportError(m));
                    }
                    actions.push(PollAction::ReadText);
                    (PollState { phase: PollPhase::Text, ..s }, actions)
                },
            }
        },
        PollEvent::TextRead(r) => {
            if s.phase != PollPhase::Text {
                return (done, actions);
            }
            match r {
                Ok(t) => {
                    let cs = chars_of(t.as_str());
                    let (lo, hi) = strip_char_bounds(cs.as_slice(), '\0');
                    assert(cs@.subrange(0, cs@.len() as int) =~= cs@);
                    if lo == hi {
                        if s.force {
                            push_consume(&mut actions, s.change);
                            (consume(s), actions)
                        } else {
                            (done, actions)
                        }
                    } else {
                        actions.push(PollAction::RecordText(t));
                        (PollState { phase: PollPhase::RecordedText, ..s }, actions)
                    }
                },
                Err(m) => {
                    if s.force {
                        actions.push(PollAction::ReportError(m));
                    }
                    (done, actions)
                },
            }
        },
        PollEvent::Recorded(outcome) => {
            if s.phase != PollPhase::RecordedRich && s.phase != PollPhase::RecordedText {
                return (done, actions);
            }
            match outcome {
                Ok(CaptureStatus::Changed) => {
                    actions.push(PollAction::ClearError);
                    actions.push(PollAction::RebuildMenu);
                },
                Ok(_) => {},
                Err(m) => {
                    actions.push(PollAction::ReportError(m));
                },
            }
            push_consume(&mut actions, s.change);
            (consume(s), actions)
        },
    }
}

/// How far along a poll is.
pub open spec fn phase_rank(p: PollPhase) -> int {
    match p {
        PollPhase::ChangeCount => 0,
        PollPhase::Rich => 1,
        PollPhase::Text => 2,
        PollPhase::RecordedRich => 3,
        PollPhase::RecordedText => 3,
        PollPhase::Done => 4,
    }
}

/// A poll always moves forward, and it is over once no read or record is asked for:
/// every step moves it to a later phase, so a poll ends after at most four steps, and a
/// step that leaves it waiting asks for exactly one read or record, as its last action.
pub proof fn lemma_poll_progress(s: PollState, e: PollEvent)
    requires
        s.phase != PollPhase::Done,
    ensures
        ({
            let (n, acts) = spec_poll_step(s, e);
            &&& phase_rank(n.phase) > phase_rank(s.phase)
            &&& n.phase != PollPhase::Done ==> acts.len() > 0 && match acts.last() {
                PollAction::ReadRich | PollAction::ReadText | PollAction::RecordRich(_)
                | PollAction::RecordText(_) => true,
                _ => false,
            }
            &&& n.phase == PollPhase::Done ==> forall|k: int|
                0 <= k < acts.len() ==> match #[trigger] acts[k] {
                    PollAction::ReadRich | PollAction::ReadText | PollAction::RecordRich(_)
                    | PollAction::RecordText(_) => false,
                    _ => true,
                }
        }),
{
}

} // verus!
