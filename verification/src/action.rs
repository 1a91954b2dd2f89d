//! Actions a visual front end dispatches in response to input and timer
//! events. Plain data; the front end itself lives with the host.

use vstd::prelude::*;

verus! {

/// One action of the visual front end.
#[derive(Debug, Clone, PartialEq, Eq)]
pub enum Action {
    Tick,
    Render,
    Resize(u16, u16),
    Suspend,
    Resume,
    Quit,
    Refresh,
    Error(String),
    Help,
    FocusNext,
    FocusPrev,
    Focus,
    UnFocus,
    Up,
    Down,
    Submit,
    Update,
    Tab(u32),
    TabNext,
    TabPrev,
    Go,
    Back,
    ToggleFullScreen,
    StatusLine(String),
    TimedStatusLine(String, u64),
    FocusFooter(String, Option<String>),
    FooterResult(String, Option<String>),
    Noop,
    ClosePopup,
    ShowDebug,
    Continue,
    Delete,
    Reload,
}

} // verus!
