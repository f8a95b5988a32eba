use evp::render_common::{is_box_drawing, ViewportConfig};
use evp::style::{FrameStyle, WindowBarStyle};

#[test]
fn test_is_box_drawing() {
    assert!(is_box_drawing('╭')); // Box Drawing
    assert!(is_box_drawing('█')); // Block Elements
    assert!(is_box_drawing('\u{1FB00}')); // Legacy Computing
    assert!(is_box_drawing('\u{1CC00}')); // Legacy Computing Supplement

    assert!(!is_box_drawing('A'));
    assert!(!is_box_drawing(' '));
}

#[test]
fn viewport_centres_the_grid() {
    let mut fs = FrameStyle::default();
    fs.window_bar = WindowBarStyle::Colorful;
    fs.margin_px = 5;
    let v = ViewportConfig::new(80, 24, 50, 10, 20, fs, 0, 20, 16, 0);
    assert_eq!(v.bar_h, 30);
    assert_eq!(v.frame_w, 80 * 10 + 2 * 60);
    assert_eq!(v.canvas_w, v.frame_w + 2 * 5);
    assert_eq!(v.content_x, 5 + 60);
    assert_eq!(v.content_y, 5 + 30 + 60);
}
