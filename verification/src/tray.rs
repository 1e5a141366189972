//! The decisions behind the tray icon and the main window.
use vstd::prelude::*;
use crate::desktop_env::DesktopEnv;
use crate::text::{to_chars, eq_at};

verus! {

/// A tray-menu command.
#[derive(Debug, Clone, Copy, PartialEq, Eq, Structural)]
pub enum TrayCommand {
    Show,
    Hide,
    Quit,
}

/// The tray-menu command with the given menu-item id.
pub open spec fn menu_command_spec(id: Seq<char>) -> Option<TrayCommand> {
    if id == "show"@ {
        Some(TrayCommand::Show)
    } else if id == "hide"@ {
        Some(TrayCommand::Hide)
    } else if id == "quit"@ {
        Some(TrayCommand::Quit)
    } else {
        None
    }
}

/// The command of a tray-menu item (`show`, `hide`, `quit`); other ids do
/// nothing.
pub fn menu_command(id: &str) -> (c: Option<TrayCommand>)
    ensures
        c == menu_command_spec(id@),
{
    let v = to_chars(id);
    proof {
        assert(v@.subrange(0, v@.len() as int) =~= v@);
    }
    if eq_at(&v, 0, v.len(), &to_chars("show")) {
        Some(TrayCommand::Show)
    } else if eq_at(&v, 0, v.len(), &to_chars("hide")) {
        Some(TrayCommand::Hide)
    } else if eq_at(&v, 0, v.len(), &to_chars("quit")) {
        Some(TrayCommand::Quit)
    } else {
        None
    }
}

/// What a left click on the tray icon does to the main window, given
/// whether it is visible (`None` when that could not be told): a visible
/// window is hidden, any other is shown and focused.
pub fn toggle_command(visible: Option<bool>) -> (c: TrayCommand)
    ensures
        c == (if visible == Some(true) {
            TrayCommand::Hide
        } else {
            TrayCommand::Show
        }),
{
    match visible {
        Some(true) => TrayCommand::Hide,
        _ => TrayCommand::Show,
    }
}

/// Whether to warn that the tray icon may be invisible: the environment is
/// known and ships no tray host.
pub fn tray_warning_needed(de: DesktopEnv) -> (b: bool)
    ensures
        b == (!de.native_tray() && de != DesktopEnv::Unknown),
{
    !de.has_native_tray() && de != DesktopEnv::Unknown
}

} // verus!
