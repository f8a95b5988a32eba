use evp::raster::{
    draw_cursor_block, fill_circle, fill_rect, gif_identical, mask_outside_rounded_rect, paint_base, redraw_plan,
    CursorOverlay, GifTimer,
};
use evp::recording::{CellSnap, PointerShape, RawFrame};
use evp::render_common::ViewportConfig;
use evp::style::{FrameStyle, WindowBarStyle};
use evp::svg::CellGeometry;

const BLACK: [u8; 4] = [0, 0, 0, 255];

fn frame(texts: [&str; 2]) -> RawFrame {
    let mut cells = Vec::new();
    for t in texts {
        let mut c = CellSnap::blank([200, 200, 200], [0, 0, 0]);
        c.text = t.to_string();
        cells.push(c);
    }
    RawFrame {
        t_ms: 0,
        cols: 2,
        rows: 1,
        cells,
        cursor: Some((1, 0)),
        default_fg: [200, 200, 200],
        default_bg: [0, 0, 0],
        cursor_color: None,
        cursor_accent: None,
        mouse_cursor: None,
        pointer_shape: PointerShape::Default,
        title: None,
    }
}

#[test]
fn rect_paints_its_pixels_only() {
    let mut buf = vec![BLACK; 12];
    fill_rect(&mut buf, 4, 1, 1, 2, 1, [1, 2, 3]);
    for (i, p) in buf.iter().enumerate() {
        if i == 5 || i == 6 {
            assert_eq!(*p, [1, 2, 3, 255]);
        } else {
            assert_eq!(*p, BLACK);
        }
    }
    let mut short = vec![BLACK; 2];
    fill_rect(&mut short, 4, 0, 0, 4, 4, [9, 9, 9]);
    assert_eq!(short, vec![[9, 9, 9, 255]; 2]);
}

#[test]
fn circle_paints_a_disc() {
    let mut buf = vec![BLACK; 25];
    fill_circle(&mut buf, 5, 2, 2, 1, [7, 7, 7]);
    let painted: Vec<usize> = (0..25).filter(|&i| buf[i] == [7, 7, 7, 255]).collect();
    assert_eq!(painted, vec![7, 11, 12, 13, 17]);
}

fn viewport(radius: u32) -> ViewportConfig {
    let mut style = FrameStyle::default();
    style.padding_px = 0;
    style.border_radius_px = radius;
    ViewportConfig::new(2, 2, 50, 5, 5, style, 0, 5, 4, 0)
}

#[test]
fn rounded_corners_are_masked() {
    let cfg = viewport(3);
    assert_eq!((cfg.frame_x, cfg.frame_y, cfg.frame_w, cfg.frame_h), (0, 0, 10, 10));
    let mut buf = vec![BLACK; 100];
    mask_outside_rounded_rect(&mut buf, 10, &cfg, 3, [5, 5, 5]);
    assert_eq!(buf[0], [5, 5, 5, 255]);
    assert_eq!(buf[9], [5, 5, 5, 255]);
    assert_eq!(buf[99], [5, 5, 5, 255]);
    assert_eq!(buf[55], BLACK);
    assert_eq!(buf[3], BLACK);
    assert_eq!(buf[30], BLACK);
}

#[test]
fn base_fills_canvas_frame_and_dots() {
    let mut style = FrameStyle::default();
    style.padding_px = 2;
    style.margin_px = 1;
    style.margin_fill = [9, 9, 9];
    style.window_bar = WindowBarStyle::Colorful;
    style.window_bar_size_px = 30;
    let cfg = ViewportConfig::new(2, 1, 50, 20, 10, style, 0, 10, 8, 0);
    let mut buf = Vec::new();
    paint_base(&mut buf, &cfg, [1, 1, 1]);
    assert_eq!(buf.len(), (cfg.canvas_w * cfg.canvas_h) as usize);
    assert_eq!(buf[0], [9, 9, 9, 255]);
    let inside = ((cfg.frame_y + cfg.frame_h - 1) * cfg.canvas_w + cfg.frame_x) as usize;
    assert_eq!(buf[inside], [1, 1, 1, 255]);
    let dot_center = ((cfg.frame_y + 15) * cfg.canvas_w + cfg.frame_x + 12) as usize;
    assert_eq!(buf[dot_center], [255, 95, 86, 255]);
}

#[test]
fn redraw_plan_lists_changed_cells() {
    let a = frame(["x", "y"]);
    let b = frame(["x", "z"]);
    assert_eq!(redraw_plan(&b, &None, 100, 10, 10), None);
    assert_eq!(redraw_plan(&b, &Some(a), 100, 10, 10), Some(vec![(0, 1)]));
    let c = frame(["x", "y"]);
    assert_eq!(redraw_plan(&b, &Some(c), 99, 10, 10), None);
    let mut d = frame(["x", "z"]);
    d.default_bg = [1, 1, 1];
    assert_eq!(redraw_plan(&b, &Some(d), 100, 10, 10), None);
}

#[test]
fn cursor_block_is_painted_under_the_cursor() {
    let f = frame(["x", "y"]);
    let g = CellGeometry { content_x: 1, content_y: 0, cell_w: 2, cell_h: 1 };
    let mut buf = vec![BLACK; 10];
    let o = draw_cursor_block(&mut buf, &f, g, 10);
    assert_eq!(o, Some(CursorOverlay { cell: 1, x: 3, y: 0, w: 2, h: 1, bg: [200, 200, 200], fg: [0, 0, 0] }));
    assert_eq!(buf[3], [200, 200, 200, 255]);
    assert_eq!(buf[4], [200, 200, 200, 255]);
    assert_eq!(buf[2], BLACK);
    let mut off = frame(["x", "y"]);
    off.cursor = Some((5, 0));
    assert_eq!(draw_cursor_block(&mut buf, &off, g, 10), None);
}

#[test]
fn gif_keeps_only_changed_frames() {
    let a = frame(["x", "y"]);
    let mut b = frame(["x", "y"]);
    b.t_ms = 500;
    b.pointer_shape = PointerShape::Text;
    assert!(gif_identical(&a, &b));
    let c = frame(["x", "q"]);
    assert!(!gif_identical(&a, &c));

    let mut t = GifTimer::new();
    assert_eq!(t.frame(false, 40), Some(0));
    assert_eq!(t.frame(true, 100), None);
    assert_eq!(t.finish(), Some(100));
    assert_eq!(t.frame(false, 200), Some(200));
    assert_eq!(t.finish(), None);
}
