//! The part of the persistent settings that the back end acts on.
//!
//! The settings store is owned by the front end; of its schema only
//! `close_action` matters here.
use vstd::prelude::*;

verus! {

/// The file name of the settings store.
pub const STORE_FILE: &'static str = "settings.json";

/// What closing the main window does.
#[derive(Debug, Clone, Copy, PartialEq, Eq, Structural)]
pub enum CloseAction {
    /// Hide the window, keep running in the tray.
    MinimizeToTray,
    /// Keep running, minimised to the taskbar (no tray needed).
    MinimizeToTaskbar,
    /// Quit the app.
    Quit,
}

impl Default for CloseAction {
    fn default() -> (a: Self)
        ensures
            a == CloseAction::MinimizeToTray,
    {
        CloseAction::MinimizeToTray
    }
}

/// What happens to the main window when the user closes it.
#[derive(Debug, Clone, Copy, PartialEq, Eq, Structural)]
pub enum CloseEffect {
    /// The window closes.
    Close,
    /// Closing is prevented and the window is hidden.
    Hide,
    /// Closing is prevented and the window is minimised.
    Minimize,
}

impl CloseAction {
    /// The effect of closing the main window under this setting.
    pub fn close_effect(&self) -> (e: CloseEffect)
        ensures
            e == (match *self {
                CloseAction::Quit => CloseEffect::Close,
                CloseAction::MinimizeToTray => CloseEffect::Hide,
                CloseAction::MinimizeToTaskbar => CloseEffect::Minimize,
            }),
    {
        match self {
            CloseAction::Quit => CloseEffect::Close,
            CloseAction::MinimizeToTray => CloseEffect::Hide,
            CloseAction::MinimizeToTaskbar => CloseEffect::Minimize,
        }
    }
}

} // verus!
