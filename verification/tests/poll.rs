use clipy_rs::capture::CaptureStatus;
use clipy_rs::model::{RichClipboardFlavor, RichClipboardKind, RichHistoryEntry};
use clipy_rs::poll::{poll_step, start_poll, PollAction, PollEvent, PollPhase};

fn image() -> RichHistoryEntry {
    RichHistoryEntry {
        id: 0,
        kind: RichClipboardKind::Image,
        label: "Image clipboard".to_string(),
        flavors: vec![RichClipboardFlavor { flavor_type: "public.png".to_string(), data: vec![1, 2] }],
        created_at: 0,
        updated_at: 0,
        use_count: 0,
        pinned: false,
    }
}

#[test]
fn poll_stops_when_the_change_count_has_not_moved() {
    let (s, a) = start_poll(7, false, true);
    assert_eq!(a, vec![PollAction::ReadChangeCount]);
    let (s, a) = poll_step(s, PollEvent::ChangeCount(Some(7)));
    assert_eq!(s.phase, PollPhase::Done);
    assert!(a.is_empty());

    let (s, _) = start_poll(7, true, false);
    let (s, a) = poll_step(s, PollEvent::ChangeCount(Some(7)));
    assert_eq!(s.phase, PollPhase::Text);
    assert_eq!(a, vec![PollAction::ReadText]);

    let (s, _) = start_poll(7, false, false);
    let (_, a) = poll_step(s, PollEvent::ChangeCount(None));
    assert_eq!(a, vec![PollAction::ReadText]);
}

#[test]
fn an_image_ends_the_poll_without_reading_text() {
    let (s, _) = start_poll(1, false, true);
    let (s, a) = poll_step(s, PollEvent::ChangeCount(Some(2)));
    assert_eq!(a, vec![PollAction::ReadRich]);
    let (s, a) = poll_step(s, PollEvent::RichRead(Ok(Some(image()))));
    assert_eq!(a, vec![PollAction::RecordRich(image())]);
    let (s, a) = poll_step(s, PollEvent::Recorded(Ok(CaptureStatus::Changed)));
    assert_eq!(
        a,
        vec![PollAction::ClearError, PollAction::RebuildMenu, PollAction::SetLastChange(2)]
    );
    assert_eq!(s.phase, PollPhase::Done);
    assert_eq!(s.last_change, 2);
}

#[test]
fn rich_read_errors_are_reported_only_when_forced() {
    let (s, _) = start_poll(1, false, true);
    let (s, _) = poll_step(s, PollEvent::ChangeCount(Some(2)));
    let (_, a) = poll_step(s, PollEvent::RichRead(Err("no access".to_string())));
    assert_eq!(a, vec![PollAction::ReadText]);

    let (s, _) = start_poll(1, true, true);
    let (s, _) = poll_step(s, PollEvent::ChangeCount(Some(2)));
    let (s, a) = poll_step(s, PollEvent::RichRead(Err("no access".to_string())));
    assert_eq!(a, vec![PollAction::ReportError("no access".to_string()), PollAction::ReadText]);
    let (s, a) = poll_step(s, PollEvent::TextRead(Err("gone".to_string())));
    assert_eq!(a, vec![PollAction::ReportError("gone".to_string())]);
    assert_eq!(s.phase, PollPhase::Done);
    assert_eq!(s.last_change, 1);
}

#[test]
fn empty_text_keeps_the_change_count_unless_forced() {
    let (s, _) = start_poll(1, false, false);
    let (s, _) = poll_step(s, PollEvent::ChangeCount(Some(5)));
    let (s, a) = poll_step(s, PollEvent::TextRead(Ok("\0\0".to_string())));
    assert!(a.is_empty());
    assert_eq!(s.last_change, 1);
    assert_eq!(s.phase, PollPhase::Done);

    let (s, _) = start_poll(1, true, false);
    let (s, _) = poll_step(s, PollEvent::ChangeCount(Some(5)));
    let (s, a) = poll_step(s, PollEvent::TextRead(Ok(String::new())));
    assert_eq!(a, vec![PollAction::SetLastChange(5)]);
    assert_eq!(s.last_change, 5);
}

#[test]
fn text_is_recorded_and_failures_are_reported() {
    let (s, _) = start_poll(1, false, false);
    let (s, _) = poll_step(s, PollEvent::ChangeCount(Some(3)));
    let (s, a) = poll_step(s, PollEvent::TextRead(Ok("hello".to_string())));
    assert_eq!(a, vec![PollAction::RecordText("hello".to_string())]);
    let (s2, a) = poll_step(s, PollEvent::Recorded(Ok(CaptureStatus::Unchanged)));
    assert_eq!(a, vec![PollAction::SetLastChange(3)]);
    assert_eq!(s2.phase, PollPhase::Done);
    let (_, a) = poll_step(s, PollEvent::Recorded(Err("disk full".to_string())));
    assert_eq!(
        a,
        vec![PollAction::ReportError("disk full".to_string()), PollAction::SetLastChange(3)]
    );
    // An answer the poll does not wait for ends it.
    let (s3, a) = poll_step(s2, PollEvent::TextRead(Ok("late".to_string())));
    assert!(a.is_empty());
    assert_eq!(s3.phase, PollPhase::Done);
}
