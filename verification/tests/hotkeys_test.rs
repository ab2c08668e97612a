use heimai_shell::hotkeys::{
    apply, hides_on_close, invalid_hotkey, shortcut_event, tray_command, HotkeyAction, HotkeyMap, TrayCommand,
};

fn map(chat: &str, talk: &str, screenshot: &str) -> HotkeyMap {
    HotkeyMap { chat: chat.to_string(), talk: talk.to_string(), screenshot: screenshot.to_string() }
}

#[test]
fn all_bindings_in_order() {
    let b = apply(&map("Ctrl+Alt+C", "Ctrl+Alt+T", "Ctrl+Alt+S"));
    assert_eq!(
        b,
        vec![
            ("Ctrl+Alt+C".to_string(), HotkeyAction::Chat),
            ("Ctrl+Alt+T".to_string(), HotkeyAction::Talk),
            ("Ctrl+Alt+S".to_string(), HotkeyAction::Screenshot),
        ]
    );
}

#[test]
fn blank_accelerators_are_skipped() {
    let b = apply(&map("", "  ", "Ctrl+Alt+S"));
    assert_eq!(b, vec![("Ctrl+Alt+S".to_string(), HotkeyAction::Screenshot)]);
    assert!(apply(&map("\t", "", " ")).is_empty());
}

#[test]
fn action_names_and_window() {
    assert_eq!(HotkeyAction::Chat.name(), "chat");
    assert_eq!(HotkeyAction::Talk.name(), "talk");
    assert_eq!(HotkeyAction::Screenshot.name(), "screenshot");
    assert!(HotkeyAction::Chat.shows_main_window());
    assert!(!HotkeyAction::Talk.shows_main_window());
    assert!(!HotkeyAction::Screenshot.shows_main_window());
}

#[test]
fn tray_menu() {
    assert_eq!(tray_command("open"), TrayCommand::ShowMain);
    assert_eq!(tray_command("talk"), TrayCommand::Emit(HotkeyAction::Talk));
    assert_eq!(tray_command("screenshot"), TrayCommand::Emit(HotkeyAction::Screenshot));
    assert_eq!(tray_command("quit"), TrayCommand::Quit);
    assert_eq!(tray_command("other"), TrayCommand::Ignore);
}

#[test]
fn close_to_tray_only_for_main() {
    assert!(hides_on_close("main"));
    assert!(!hides_on_close("popup-1"));
    assert!(!hides_on_close("indicator"));
}

#[test]
fn hotkey_error_message() {
    assert_eq!(invalid_hotkey("Foo+", "bad key"), "Hotkey 'Foo+' ungueltig: bad key");
}

#[test]
fn pressed_chat_shows_main_and_emits() {
    let r = shortcut_event(HotkeyAction::Chat, true);
    assert!(r.show_main);
    assert_eq!(r.emit, Some("chat".to_string()));
}

#[test]
fn pressed_talk_and_screenshot_only_emit() {
    let r = shortcut_event(HotkeyAction::Talk, true);
    assert!(!r.show_main);
    assert_eq!(r.emit, Some("talk".to_string()));
    let r = shortcut_event(HotkeyAction::Screenshot, true);
    assert!(!r.show_main);
    assert_eq!(r.emit, Some("screenshot".to_string()));
}

#[test]
fn released_shortcut_does_nothing() {
    for action in [HotkeyAction::Chat, HotkeyAction::Talk, HotkeyAction::Screenshot] {
        let r = shortcut_event(action, false);
        assert!(!r.show_main);
        assert_eq!(r.emit, None);
    }
}
