//! The state around exporting the subplots as a PNG: presentation mode is
//! forced on while a screenshot is pending and restored once it arrives.
use vstd::prelude::*;

use crate::text::{sanitize_filename, sanitized};

verus! {

/// What to do with a subplot screenshot once it is delivered.
#[derive(Clone, Copy, PartialEq, Eq, Debug, Structural)]
pub enum ScreenshotAction {
    SaveToFile,
    CopyToClipboard,
}

/// Presentation mode and the capture in flight.
#[derive(Clone, Copy, PartialEq, Eq, Debug, Structural)]
pub struct CaptureState {
    /// Hides editing chrome so subplots present cleanly.
    pub presentation_mode: bool,
    /// The action a requested screenshot is for.
    pub pending: Option<ScreenshotAction>,
    /// Presentation-mode state to restore once the pending capture completes.
    pub mode_before_capture: Option<bool>,
}

/// The state once a capture for `action` has been requested.
pub open spec fn after_begin(s: CaptureState, action: ScreenshotAction) -> CaptureState {
    CaptureState {
        presentation_mode: true,
        pending: Some(action),
        mode_before_capture: Some(s.presentation_mode),
    }
}

/// The state once the screenshot has arrived: nothing pending, and the
/// presentation mode from before the capture back (when one was saved).
pub open spec fn after_complete(s: CaptureState) -> CaptureState {
    match s.pending {
        None => s,
        Some(_) => CaptureState {
            presentation_mode: match s.mode_before_capture {
                Some(m) => m,
                None => s.presentation_mode,
            },
            pending: None,
            mode_before_capture: None,
        },
    }
}

impl CaptureState {
    /// Presentation mode off, nothing pending.
    pub fn new() -> (s: Self)
        ensures
            !s.presentation_mode,
            s.pending is None,
            s.mode_before_capture is None,
    {
        CaptureState { presentation_mode: false, pending: None, mode_before_capture: None }
    }

    /// Kick off a PNG capture: remember whether presentation mode was
    /// already on, force it on so the screenshot comes out clean, and note
    /// what the screenshot is for.
    pub fn begin(&mut self, action: ScreenshotAction)
        ensures
            *final(self) == after_begin(*old(self), action),
    {
        self.mode_before_capture = Some(self.presentation_mode);
        self.presentation_mode = true;
        self.pending = Some(action);
    }

    /// The screenshot has arrived: the action it was requested for (nothing
    /// when no capture is pending, leaving the state as it is), with the
    /// presentation mode from before the capture restored.
    pub fn complete(&mut self) -> (r: Option<ScreenshotAction>)
        ensures
            r == old(self).pending,
            *final(self) == after_complete(*old(self)),
    {
        match self.pending {
            None => None,
            Some(action) => {
                self.pending = None;
                if let Some(saved) = self.mode_before_capture {
                    self.presentation_mode = saved;
                }
                self.mode_before_capture = None;
                Some(action)
            },
        }
    }
}

/// A capture leaves presentation mode as it found it: requesting a
/// screenshot and then receiving it restores the mode and clears the
/// request.
pub proof fn capture_restores_mode(s: CaptureState, action: ScreenshotAction)
    ensures
        after_complete(after_begin(s, action)).presentation_mode == s.presentation_mode,
        after_complete(after_begin(s, action)).pending is None,
        after_complete(after_begin(s, action)).mode_before_capture is None,
        after_begin(s, action).presentation_mode,
{
}

pub open spec fn export_title(stem: Option<Seq<char>>) -> Seq<char> {
    match stem {
        Some(s) => s,
        None => "daplot_export"@,
    }
}

/// The default file name of an exported PNG: the file's stem (or
/// "daplot_export" when there is none), sanitised, with ".png" appended.
pub open spec fn export_name_spec(stem: Option<Seq<char>>) -> Seq<char> {
    sanitized(export_title(stem)) + ".png"@
}

/// The default file name of an exported PNG.
pub fn export_file_name(stem: Option<&str>) -> (name: String)
    ensures
        name@ == export_name_spec(
            match stem {
                Some(s) => Some(s@),
                None => None,
            },
        ),
{
    let title = match stem {
        Some(s) => s,
        None => "daplot_export",
    };
    let mut name = sanitize_filename(title);
    name.append(".png");
    name
}

} // verus!
