//! Event-to-decision logic of the frame loop: which events request exit.

use vstd::prelude::*;

verus! {

/// The key code of the exit key (the escape key).
pub const ESCAPE_KEYCODE: i32 = 27;

/// The closed set of event kinds the frame loop dispatches on. Every event
/// of the windowing library maps to one of these; all but a window-close
/// request and a key press map to `Other`.
#[derive(Clone, Copy, Debug, PartialEq, Eq, Structural)]
pub enum AppEvent {
    /// The user asked to close the window.
    Quit,
    /// A key was pressed, identified by its key code.
    KeyPressed(i32),
    /// Any other event; ignored.
    Other,
}

/// An event requests exit exactly when it is a window-close request or a
/// press of the exit key.
pub open spec fn requests_exit(event: AppEvent) -> bool {
    match event {
        AppEvent::Quit => true,
        AppEvent::KeyPressed(key) => key == ESCAPE_KEYCODE,
        AppEvent::Other => false,
    }
}

} // verus!
