use heimai_shell::text::{blank, decimal_string, text_eq, trim_trailing_slashes};

#[test]
fn decimal_notation() {
    assert_eq!(decimal_string(0), "0");
    assert_eq!(decimal_string(7), "7");
    assert_eq!(decimal_string(10), "10");
    assert_eq!(decimal_string(1234567890), "1234567890");
    assert_eq!(decimal_string(u64::MAX), u64::MAX.to_string());
}

#[test]
fn equality_of_texts() {
    assert!(text_eq("main", "main"));
    assert!(!text_eq("main", "Main"));
    assert!(!text_eq("main", "mai"));
}

#[test]
fn blank_texts() {
    assert!(blank(""));
    assert!(blank("  \t\n"));
    assert!(blank("\u{3000}\u{00A0}"));
    assert!(!blank(" a "));
    assert!(!blank("Ctrl+Space"));
    for c in ['\u{200B}', 'x', '\u{FEFF}'] {
        assert_eq!(blank(&c.to_string()), c.to_string().trim().is_empty());
    }
}

#[test]
fn trailing_slashes_removed() {
    assert_eq!(trim_trailing_slashes("https://a.example/"), "https://a.example");
    assert_eq!(trim_trailing_slashes("https://a.example///"), "https://a.example");
    assert_eq!(trim_trailing_slashes("https://a.example"), "https://a.example");
    assert_eq!(trim_trailing_slashes("///"), "");
    assert_eq!(trim_trailing_slashes("ä/ö/"), "ä/ö");
}
