use crabase::text::is_whitespace;

#[test]
fn white_space_agrees_with_std_on_every_char() {
    for v in 0u32..=0x10ffff {
        if let Some(c) = char::from_u32(v) {
            assert_eq!(is_whitespace(c), c.is_whitespace(), "at U+{v:04X}");
        }
    }
}
