use daplot::capture::{export_file_name, CaptureState, ScreenshotAction};

#[test]
fn capture_forces_presentation_mode_and_restores_it() {
    let mut s = CaptureState::new();
    assert!(!s.presentation_mode);
    s.begin(ScreenshotAction::SaveToFile);
    assert!(s.presentation_mode);
    assert_eq!(s.pending, Some(ScreenshotAction::SaveToFile));
    assert_eq!(s.complete(), Some(ScreenshotAction::SaveToFile));
    assert!(!s.presentation_mode);
    assert_eq!(s.pending, None);
    assert_eq!(s.mode_before_capture, None);
}

#[test]
fn capture_keeps_presentation_mode_that_was_on() {
    let mut s = CaptureState::new();
    s.presentation_mode = true;
    s.begin(ScreenshotAction::CopyToClipboard);
    assert_eq!(s.complete(), Some(ScreenshotAction::CopyToClipboard));
    assert!(s.presentation_mode);
}

#[test]
fn nothing_pending_changes_nothing() {
    let mut s = CaptureState::new();
    s.presentation_mode = true;
    let before = s;
    assert_eq!(s.complete(), None);
    assert_eq!(s, before);
}

#[test]
fn export_names() {
    assert_eq!(export_file_name(Some("sensor data: run #2")), "sensor data_ run _2.png");
    assert_eq!(export_file_name(None), "daplot_export.png");
    assert_eq!(export_file_name(Some("  ")), "plot.png");
}
