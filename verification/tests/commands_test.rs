use heimai_shell::commands::{get_shell_info, popup_card, set_server_url, Screenshot, SHELL_API_VERSION};
use heimai_shell::popups::PopupStore;
use heimai_shell::remote::RemoteAccess;
use heimai_shell::settings::load_server_url;

#[test]
fn shell_info() {
    let info = get_shell_info("0.1.0".to_string(), "windows".to_string());
    assert_eq!(info.shell_version, "0.1.0");
    assert_eq!(info.api_version, 1);
    assert_eq!(SHELL_API_VERSION, 1);
    assert_eq!(info.platform, "windows");
}

#[test]
fn screenshot_is_png() {
    let s = Screenshot::png("AAAA".to_string());
    assert_eq!(s.b64, "AAAA");
    assert_eq!(s.mime, "image/png");
}

#[test]
fn switching_server() {
    let mut current = None;
    let mut access = RemoteAccess::new();
    let switch = set_server_url(&mut current, &mut access, "https://ai.example.org//", true);
    assert_eq!(switch.server_url, "https://ai.example.org");
    assert_eq!(current, Some("https://ai.example.org".to_string()));
    assert_eq!(load_server_url(&switch.settings), Some("https://ai.example.org".to_string()));
    assert_eq!(switch.capability.as_ref().map(|c| c.origin.clone()), Some("https://ai.example.org".to_string()));
    assert_eq!(switch.navigation, Ok("https://ai.example.org/app/".to_string()));
    assert_eq!(switch.settings, "{\"server_url\":\"https://ai.example.org\"}");
    let again = set_server_url(&mut current, &mut access, "https://ai.example.org", true);
    assert!(again.capability.is_none());
    assert_eq!(again.settings, switch.settings);
    assert_eq!(current, Some("https://ai.example.org".to_string()));
}

#[test]
fn switching_server_without_main_window() {
    let mut current = None;
    let mut access = RemoteAccess::new();
    let switch = set_server_url(&mut current, &mut access, "https://ai.example.org", false);
    assert_eq!(switch.navigation, Err("Hauptfenster fehlt".to_string()));
    assert_eq!(current, Some("https://ai.example.org".to_string()));
}

#[test]
fn switching_to_invalid_server() {
    let mut current = None;
    let mut access = RemoteAccess::new();
    let switch = set_server_url(&mut current, &mut access, "kaputt", true);
    assert_eq!(switch.navigation, Err("ungueltige URL".to_string()));
    assert!(switch.capability.is_none());
    assert_eq!(current, Some("kaputt".to_string()));
}

#[test]
fn popup_without_server_touches_nothing() {
    let mut store = PopupStore::new();
    assert!(popup_card(&mut store, None, "p".to_string()).is_err());
    let (id, _) = store.allocate("q".to_string());
    assert_eq!(id, "1");
}

#[test]
fn popup_needs_server() {
    let mut store = PopupStore::new();
    let r = popup_card(&mut store, None, "p".to_string());
    assert_eq!(r.err(), Some("kein Server verbunden".to_string()));
    assert_eq!(store.payload("1"), None);
    let p = popup_card(&mut store, Some("https://s.example"), "p".to_string()).unwrap();
    assert_eq!(p.id, "1");
    assert_eq!(p.page_url, "https://s.example/app/#/popup?id=1");
}
