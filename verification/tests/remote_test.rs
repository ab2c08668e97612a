use heimai_shell::remote::{grant_remote_ipc, RemoteAccess};

#[test]
fn first_grant_gives_capability() {
    let mut access = RemoteAccess::new();
    let cap = grant_remote_ipc(&mut access, "https://ai.example.org/app/").unwrap();
    assert_eq!(cap.origin, "https://ai.example.org");
    assert_eq!(cap.identifier, "remote-ui-https://ai.example.org");
    assert_eq!(cap.windows, vec!["main", "indicator", "popup-*"]);
    assert_eq!(cap.permissions.len(), 14);
    assert_eq!(cap.permissions[0], "core:default");
    assert_eq!(cap.permissions[13], "allow-set-wake-word");
    assert!(access.contains("https://ai.example.org"));
}

#[test]
fn same_origin_granted_once() {
    let mut access = RemoteAccess::new();
    assert!(grant_remote_ipc(&mut access, "https://ai.example.org").is_some());
    assert!(grant_remote_ipc(&mut access, "https://ai.example.org/other").is_none());
    assert!(grant_remote_ipc(&mut access, "https://ai.example.org:8443").is_some());
}

#[test]
fn default_port_is_dropped_from_origin() {
    let mut access = RemoteAccess::new();
    let cap = grant_remote_ipc(&mut access, "https://ai.example.org:443/").unwrap();
    assert_eq!(cap.origin, "https://ai.example.org");
    let cap = grant_remote_ipc(&mut access, "http://10.0.0.2:8080").unwrap();
    assert_eq!(cap.origin, "http://10.0.0.2:8080");
}

#[test]
fn invalid_address_grants_nothing() {
    let mut access = RemoteAccess::new();
    assert!(grant_remote_ipc(&mut access, "no url").is_none());
    assert!(!access.contains("no url"));
}
