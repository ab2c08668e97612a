use heimai_shell::settings::{load_server_url, settings_document};

#[test]
fn document_format() {
    assert_eq!(settings_document("https://ai.example.org"), "{\"server_url\":\"https://ai.example.org\"}");
}

#[test]
fn written_address_is_read_back() {
    for url in ["https://ai.example.org", "http://10.0.0.2:8080", "quote\"back\\slash", "ünï"] {
        assert_eq!(load_server_url(&settings_document(url)), Some(url.to_string()));
    }
}

#[test]
fn reading_settings() {
    assert_eq!(load_server_url("{\"server_url\": \"https://x\", \"other\": 1}"), Some("https://x".to_string()));
    assert_eq!(load_server_url("{\"server_url\": 5}"), None);
    assert_eq!(load_server_url("{\"server_url\": null}"), None);
    assert_eq!(load_server_url("{}"), None);
    assert_eq!(load_server_url("null"), None);
    assert_eq!(load_server_url("[1,2]"), None);
    assert_eq!(load_server_url("not json"), None);
    assert_eq!(load_server_url("{\"server_url\": \"a\", \"server_url\": \"b\"}"), Some("b".to_string()));
}
