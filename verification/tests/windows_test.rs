use heimai_shell::urls::{app_page_url, indicator_page_url, popup_page_url};
use heimai_shell::windows::{navigate_main_to_app, set_indicator, IndicatorPlan};

#[test]
fn page_addresses() {
    assert_eq!(app_page_url("https://s.example"), Ok("https://s.example/app/".to_string()));
    assert_eq!(indicator_page_url("https://s.example"), Ok("https://s.example/app/#/indicator".to_string()));
    assert_eq!(popup_page_url("https://s.example", "4"), Ok("https://s.example/app/#/popup?id=4".to_string()));
    assert_eq!(app_page_url("s.example"), Err("ungueltige URL".to_string()));
}

#[test]
fn main_window_navigation() {
    assert_eq!(navigate_main_to_app(true, "https://s.example"), Ok("https://s.example/app/".to_string()));
    assert_eq!(navigate_main_to_app(false, "https://s.example"), Err("Hauptfenster fehlt".to_string()));
    assert_eq!(navigate_main_to_app(true, "::"), Err("ungueltige URL".to_string()));
}

#[test]
fn indicator_hidden() {
    assert!(matches!(set_indicator("hidden", true, Some("https://s.example")), IndicatorPlan::Hide));
    assert!(matches!(set_indicator("hidden", false, None), IndicatorPlan::Hide));
}

#[test]
fn indicator_shown() {
    assert!(matches!(set_indicator("listening", true, None), IndicatorPlan::Show));
    match set_indicator("thinking", false, Some("https://s.example")) {
        IndicatorPlan::Create(u) => assert_eq!(u, "https://s.example/app/#/indicator"),
        _ => panic!("expected a new indicator window"),
    }
    assert!(matches!(set_indicator("speaking", false, None), IndicatorPlan::Skip));
    match set_indicator("speaking", false, Some("nope")) {
        IndicatorPlan::Fail(e) => assert_eq!(e, "ungueltige URL"),
        _ => panic!("expected a failure"),
    }
}
