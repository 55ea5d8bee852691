use devtoolbox::fonts::{valid_sfnt, FONT_NAME};

#[test]
fn sfnt_signatures_are_recognised() {
    assert!(!valid_sfnt(b"not a font"));
    assert!(valid_sfnt(&[0, 1, 0, 0, 0]));
    assert!(valid_sfnt(b"OTTO\x00\x0a"));
    assert!(valid_sfnt(b"true...."));
    assert!(!valid_sfnt(&[0, 1, 0]));
    assert!(!valid_sfnt(b""));
    assert_eq!(FONT_NAME, "noto-emoji-full");
}
