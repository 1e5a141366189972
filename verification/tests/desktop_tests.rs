use cronaut::desktop_env::{detect, DesktopEnv, DesktopReport};
use cronaut::settings::{CloseAction, CloseEffect, STORE_FILE};
use cronaut::tray::{menu_command, toggle_command, tray_warning_needed, TrayCommand};

fn s(x: &str) -> Option<String> {
    Some(x.to_string())
}

#[test]
fn detect_from_variables() {
    assert_eq!(detect(&s("ubuntu:GNOME"), &None), DesktopEnv::Gnome);
    assert_eq!(detect(&s("KDE"), &None), DesktopEnv::Kde);
    assert_eq!(detect(&s("X-Cinnamon"), &None), DesktopEnv::Cinnamon);
    assert_eq!(detect(&s("Budgie:GNOME"), &None), DesktopEnv::Budgie);
    assert_eq!(detect(&s("foo::lxqt"), &None), DesktopEnv::Lxqt);
    assert_eq!(detect(&None, &s("xfce")), DesktopEnv::Xfce);
    assert_eq!(detect(&s(""), &s("xfce")), DesktopEnv::Unknown);
    assert_eq!(detect(&None, &None), DesktopEnv::Unknown);
    assert_eq!(detect(&s("sway"), &None), DesktopEnv::Unknown);
}

#[test]
fn native_trays() {
    assert!(!DesktopEnv::Gnome.has_native_tray());
    assert!(!DesktopEnv::Lxde.has_native_tray());
    assert!(!DesktopEnv::Unknown.has_native_tray());
    assert!(DesktopEnv::Xfce.has_native_tray());
    assert!(DesktopEnv::Deepin.has_native_tray());
}

#[test]
fn report() {
    let r = DesktopReport::current(s("GNOME"), None, s("wayland"));
    assert_eq!(r.env, DesktopEnv::Gnome);
    assert!(!r.native_tray);
    assert_eq!(r.raw_xdg_current_desktop, "GNOME");
    assert_eq!(r.session_type, "wayland");
    let r = DesktopReport::current(None, s("mate"), None);
    assert_eq!(r.env, DesktopEnv::Mate);
    assert!(r.native_tray);
    assert_eq!(r.raw_xdg_current_desktop, "");
    assert_eq!(r.session_type, "");
}

#[test]
fn close_action_default_and_effects() {
    assert_eq!(CloseAction::default(), CloseAction::MinimizeToTray);
    assert_eq!(CloseAction::Quit.close_effect(), CloseEffect::Close);
    assert_eq!(CloseAction::MinimizeToTray.close_effect(), CloseEffect::Hide);
    assert_eq!(CloseAction::MinimizeToTaskbar.close_effect(), CloseEffect::Minimize);
    assert_eq!(STORE_FILE, "settings.json");
}

#[test]
fn tray_decisions() {
    assert_eq!(menu_command("show"), Some(TrayCommand::Show));
    assert_eq!(menu_command("hide"), Some(TrayCommand::Hide));
    assert_eq!(menu_command("quit"), Some(TrayCommand::Quit));
    assert_eq!(menu_command("Quit"), None);
    assert_eq!(toggle_command(Some(true)), TrayCommand::Hide);
    assert_eq!(toggle_command(Some(false)), TrayCommand::Show);
    assert_eq!(toggle_command(None), TrayCommand::Show);
    assert!(tray_warning_needed(DesktopEnv::Gnome));
    assert!(!tray_warning_needed(DesktopEnv::Unknown));
    assert!(!tray_warning_needed(DesktopEnv::Kde));
}
