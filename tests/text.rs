use rsproxy::text::is_ws_char;

#[test]
fn whitespace_matches_std() {
    for code in 0u32..=0x3100 {
        if let Some(c) = char::from_u32(code) {
            assert_eq!(c.is_whitespace(), is_ws_char(c), "code {:#x}", code);
        }
    }
    assert!(!is_ws_char('\u{feff}'));
    assert!(!is_ws_char('\u{200b}'));
}
