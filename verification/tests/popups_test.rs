use heimai_shell::popups::{close, open, popup_top_offset, popup_window_label, PopupStore};

#[test]
fn ids_count_up_from_one() {
    let mut store = PopupStore::new();
    let (a, slot_a) = store.allocate("{\"a\":1}".to_string());
    let (b, slot_b) = store.allocate("{\"b\":2}".to_string());
    assert_eq!(a, "1");
    assert_eq!(b, "2");
    assert_eq!(slot_a, 0);
    assert_eq!(slot_b, 1);
}

#[test]
fn payload_is_read_back() {
    let mut store = PopupStore::new();
    let (id, _) = store.allocate("card".to_string());
    assert_eq!(store.payload(&id), Some("card".to_string()));
    assert_eq!(store.payload("99"), None);
    assert_eq!(store.payload("01"), None);
}

#[test]
fn release_forgets_and_frees_the_place() {
    let mut store = PopupStore::new();
    let (first, _) = store.allocate("one".to_string());
    let (second, slot_second) = store.allocate("two".to_string());
    store.release(&first);
    assert_eq!(store.payload(&first), None);
    assert_eq!(store.payload(&second), Some("two".to_string()));
    let (third, slot_third) = store.allocate("three".to_string());
    assert_eq!(third, "3");
    assert_eq!(slot_third, 0);
    assert_eq!(slot_second, 1);
}

#[test]
fn places_do_not_move_up() {
    let mut store = PopupStore::new();
    let (a, _) = store.allocate("a".to_string());
    let (_, _) = store.allocate("b".to_string());
    let (_, slot_c) = store.allocate("c".to_string());
    store.release(&a);
    assert_eq!(slot_c, 2);
    let (_, slot_d) = store.allocate("d".to_string());
    assert_eq!(slot_d, 0);
    let (_, slot_e) = store.allocate("e".to_string());
    assert_eq!(slot_e, 3);
}

#[test]
fn release_of_unknown_id_changes_nothing() {
    let mut store = PopupStore::new();
    let (id, _) = store.allocate("x".to_string());
    store.release("7");
    store.release("abc");
    assert_eq!(store.payload(&id), Some("x".to_string()));
}

#[test]
fn pin_then_release() {
    let mut store = PopupStore::new();
    let (id, _) = store.allocate("x".to_string());
    store.pin(&id);
    store.pin(&id);
    store.pin("not-open");
    assert_eq!(store.payload(&id), Some("x".to_string()));
    store.release(&id);
    assert_eq!(store.payload(&id), None);
}

#[test]
fn open_places_a_popup() {
    let mut store = PopupStore::new();
    let p = open(&mut store, "https://ai.example.org", "payload".to_string()).unwrap();
    assert_eq!(p.id, "1");
    assert_eq!(p.slot, 0);
    assert_eq!(p.window_label, "popup-1");
    assert_eq!(p.page_url, "https://ai.example.org/app/#/popup?id=1");
    assert_eq!(p.top, 16);
    let q = open(&mut store, "https://ai.example.org", "payload".to_string()).unwrap();
    assert_eq!(q.top, 268);
    assert_eq!(store.payload("2"), Some("payload".to_string()));
}

#[test]
fn open_with_invalid_server_keeps_allocation() {
    let mut store = PopupStore::new();
    let r = open(&mut store, "not a server", "p".to_string());
    assert_eq!(r.err(), Some("ungueltige URL".to_string()));
    assert_eq!(store.payload("1"), Some("p".to_string()));
}

#[test]
fn close_releases_and_names_the_window() {
    let mut store = PopupStore::new();
    let (id, _) = store.allocate("p".to_string());
    assert_eq!(close(&mut store, &id), "popup-1");
    assert_eq!(store.payload(&id), None);
}

#[test]
fn popup_geometry() {
    assert_eq!(popup_top_offset(0), 16);
    assert_eq!(popup_top_offset(3), 16 + 3 * 252);
    assert_eq!(popup_window_label("12"), "popup-12");
}

#[test]
fn can_allocate_on_fresh_store() {
    let store = PopupStore::new();
    assert!(store.can_allocate());
}

#[test]
fn default_store_is_empty() {
    let mut store = PopupStore::default();
    assert_eq!(store.payload("1"), None);
    let (id, slot) = store.allocate("p".to_string());
    assert_eq!((id.as_str(), slot), ("1", 0));
}

#[test]
fn ids_are_not_reused_after_close() {
    let mut store = PopupStore::new();
    let (a, _) = store.allocate("a".to_string());
    store.release(&a);
    let (b, _) = store.allocate("b".to_string());
    assert_ne!(a, b);
    assert_eq!(b, "2");
    assert_eq!(store.payload(&a), None);
}
