use evp::font::FontSet;
use evp::recording::{STYLE_BOLD, STYLE_ITALIC};

fn family() -> FontSet {
    FontSet {
        font_count: 4,
        regular: vec![0, 1],
        bold: vec![2],
        italic: vec![],
        bold_italic: vec![3, 0],
    }
}

#[test]
fn style_lists_fall_back_to_regular() {
    let fs = family();
    assert_eq!(fs.indices_for_flags(0), &vec![0, 1]);
    assert_eq!(fs.indices_for_flags(STYLE_BOLD), &vec![2]);
    assert_eq!(fs.indices_for_flags(STYLE_ITALIC), &vec![0, 1]);
    assert_eq!(fs.indices_for_flags(STYLE_BOLD | STYLE_ITALIC), &vec![3, 0]);
}

#[test]
fn first_face_with_glyph_is_chosen() {
    let fs = family();
    assert_eq!(fs.select_for_char(0, &vec![false, true, false, false]), 1);
    assert_eq!(fs.select_for_char(0, &vec![true, true, false, false]), 0);
    assert_eq!(fs.select_for_char(STYLE_BOLD | STYLE_ITALIC, &vec![true, false, false, false]), 0);
}

#[test]
fn no_face_with_glyph_gives_first_face() {
    let fs = family();
    assert_eq!(fs.select_for_char(STYLE_BOLD, &vec![false, false, false, false]), 2);
    assert_eq!(fs.select_for_char(STYLE_ITALIC, &vec![false, false, false, false]), 0);
}
