use base64::Engine;
use heimai_shell::screenshot::{capture_primary, scaled_height, select_monitor};

fn png_size(png: &[u8]) -> (u32, u32) {
    assert_eq!(&png[..8], &[0x89, b'P', b'N', b'G', 0x0D, 0x0A, 0x1A, 0x0A]);
    let w = u32::from_be_bytes([png[16], png[17], png[18], png[19]]);
    let h = u32::from_be_bytes([png[20], png[21], png[22], png[23]]);
    (w, h)
}

#[test]
fn monitor_choice() {
    assert_eq!(select_monitor(&vec![false, true, true]), Ok(1));
    assert_eq!(select_monitor(&vec![false, false]), Ok(0));
    assert_eq!(select_monitor(&vec![true]), Ok(0));
    assert_eq!(select_monitor(&vec![]), Err("kein Monitor gefunden".to_string()));
}

#[test]
fn scaled_heights() {
    assert_eq!(scaled_height(3200, 1800), 900);
    assert_eq!(scaled_height(2560, 1440), 900);
    assert_eq!(scaled_height(3840, 2160), 900);
    assert_eq!(scaled_height(1601, 1), 0);
    assert_eq!(scaled_height(1920, 1200), 1000);
    for (w, h) in [(1601u32, 1000u32), (2048, 1536), (5120, 2880), (7680, 4321)] {
        let float = (h as f64 * 1600f64 / w as f64) as u32;
        assert_eq!(scaled_height(w, h), float);
    }
}

#[test]
fn small_picture_is_kept() {
    let rgba = vec![255u8, 0, 0, 255, 0, 255, 0, 255];
    let text = capture_primary(2, 1, rgba.clone()).unwrap();
    let png = base64::engine::general_purpose::STANDARD.decode(&text).unwrap();
    assert_eq!(png_size(&png), (2, 1));
    assert!(text.starts_with("iVBORw0KGgo"));
    assert_ne!(png, rgba);
}

#[test]
fn wide_picture_is_scaled() {
    let rgba = vec![128u8; 3200 * 2 * 4];
    let text = capture_primary(3200, 2, rgba).unwrap();
    let png = base64::engine::general_purpose::STANDARD.decode(&text).unwrap();
    assert_eq!(png_size(&png), (1600, 1));
}

#[test]
fn picture_at_the_limit_is_kept() {
    let rgba = vec![7u8; 1600 * 3 * 4];
    let text = capture_primary(1600, 3, rgba).unwrap();
    let png = base64::engine::general_purpose::STANDARD.decode(&text).unwrap();
    assert_eq!(png_size(&png), (1600, 3));
}
