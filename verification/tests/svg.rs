use evp::render_common::viewport_fits_exec;
use evp::svg::svg_shapes_checked;
use evp::recording::{CellSnap, PointerShape, RawFrame};
use evp::render_common::ViewportConfig;
use evp::style::{FrameStyle, WindowBarStyle};
use evp::svg::{
    animation_total_ms, bg_rects_from_spans, cell_spans, class_css, class_of, color_classes, cursor_rects_from_spans,
    cursor_spans, escape_attr, escape_text, frame_clip, optimize_bg_rects, svg_shapes, window_bar_circles, BgRect,
    CellGeometry, CellSpan, CursorRect, CursorSpan,
};

fn cell(text: &str) -> CellSnap {
    let mut c = CellSnap::blank([200, 200, 200], [0, 0, 0]);
    c.text = text.to_string();
    c
}

fn frame(t_ms: u32, texts: [&str; 2], cursor: Option<(u16, u16)>) -> RawFrame {
    RawFrame {
        t_ms,
        cols: 2,
        rows: 1,
        cells: vec![cell(texts[0]), cell(texts[1])],
        cursor,
        default_fg: [200, 200, 200],
        default_bg: [0, 0, 0],
        cursor_color: None,
        cursor_accent: None,
        mouse_cursor: None,
        pointer_shape: PointerShape::Default,
        title: None,
    }
}

fn rect(x: u32, w: u32) -> BgRect {
    BgRect { x, y: 20, w, h: 20, fill: [255, 0, 0], start_ms: 0, end_ms: 1000, clip_path: None }
}

#[test]
fn escapes_xml_special_chars() {
    assert_eq!(escape_text("<&>"), "&lt;&amp;&gt;");
    assert_eq!(escape_attr("\"<&>'"), "&quot;&lt;&amp;&gt;&apos;");
}

#[test]
fn test_optimize_bg_rects() {
    let mut rects = vec![
        BgRect { x: 10, y: 20, w: 10, h: 20, fill: [255, 0, 0], start_ms: 0, end_ms: 1000, clip_path: None },
        BgRect { x: 20, y: 20, w: 10, h: 20, fill: [255, 0, 0], start_ms: 0, end_ms: 1000, clip_path: None },
    ];
    optimize_bg_rects(&mut rects);
    assert_eq!(rects.len(), 1);
    assert_eq!(rects[0].x, 10);
    assert_eq!(rects[0].w, 20);
}

#[test]
fn merging_rects_keeps_total_width() {
    let mut rects = vec![rect(30, 10), rect(0, 10), rect(10, 10), rect(50, 5)];
    let before: u32 = rects.iter().map(|r| r.w).sum();
    optimize_bg_rects(&mut rects);
    let after: u32 = rects.iter().map(|r| r.w).sum();
    assert_eq!(before, after);
    assert_eq!(rects.len(), 3);
    assert_eq!((rects[0].x, rects[0].w), (0, 20));
    assert_eq!((rects[1].x, rects[1].w), (30, 10));
    assert_eq!((rects[2].x, rects[2].w), (50, 5));
}

#[test]
fn cell_spans_close_when_a_cell_changes() {
    let frames = vec![frame(0, ["a", ""], None), frame(100, ["b", ""], None)];
    let spans = cell_spans(&frames, 200);
    assert_eq!(spans.len(), 2);
    assert_eq!((spans[0].row, spans[0].col, spans[0].start_ms, spans[0].end_ms), (0, 0, 0, 100));
    assert_eq!(spans[0].visual.text, "a");
    assert_eq!((spans[1].start_ms, spans[1].end_ms), (100, 200));
    assert_eq!(spans[1].visual.text, "b");
}

#[test]
fn cursor_spans_follow_the_cursor() {
    let frames = vec![
        frame(0, ["", ""], Some((1, 0))),
        frame(100, ["", ""], Some((1, 0))),
        frame(200, ["", ""], None),
        frame(300, ["", ""], Some((0, 0))),
    ];
    let spans = cursor_spans(&frames, 400);
    assert_eq!(
        spans,
        vec![
            CursorSpan { col: 1, row: 0, start_ms: 0, end_ms: 200, color: [200, 200, 200] },
            CursorSpan { col: 0, row: 0, start_ms: 300, end_ms: 400, color: [200, 200, 200] },
        ]
    );
}

#[test]
fn background_rects_are_placed_on_the_grid() {
    let mut shown = CellSnap::blank([200, 200, 200], [1, 2, 3]);
    shown.text = "x".to_string();
    let spans = vec![
        CellSpan { row: 1, col: 2, start_ms: 0, end_ms: 100, visual: shown.clone_cell(), default_bg: [0, 0, 0] },
        CellSpan { row: 0, col: 0, start_ms: 50, end_ms: 50, visual: shown.clone_cell(), default_bg: [0, 0, 0] },
        CellSpan { row: 0, col: 1, start_ms: 0, end_ms: 100, visual: shown.clone_cell(), default_bg: [1, 2, 3] },
    ];
    let g = CellGeometry { content_x: 10, content_y: 20, cell_w: 8, cell_h: 16 };
    let rects = bg_rects_from_spans(&spans, g, true, 3, 2);
    assert_eq!(rects.len(), 1);
    assert_eq!(
        rects[0],
        BgRect {
            x: 26,
            y: 36,
            w: 8,
            h: 16,
            fill: [1, 2, 3],
            start_ms: 0,
            end_ms: 100,
            clip_path: Some("url(#frame-clip)".to_string())
        }
    );
    let plain = bg_rects_from_spans(&spans, g, false, 3, 2);
    assert_eq!(plain[0].clip_path, None);
}

#[test]
fn cursor_rects_skip_empty_spans() {
    let g = CellGeometry { content_x: 10, content_y: 20, cell_w: 8, cell_h: 16 };
    let spans = vec![
        CursorSpan { col: 3, row: 1, start_ms: 0, end_ms: 40, color: [9, 9, 9] },
        CursorSpan { col: 0, row: 0, start_ms: 40, end_ms: 40, color: [9, 9, 9] },
    ];
    let rects = cursor_rects_from_spans(&spans, g);
    assert_eq!(rects, vec![CursorRect { x: 34, y: 36, w: 8, h: 16, fill: [9, 9, 9], start_ms: 0, end_ms: 40 }]);
}

#[test]
fn window_bar_dots_are_laid_out() {
    let dots = window_bar_circles(WindowBarStyle::Colorful, 30, 0, 0, 200);
    assert_eq!(dots.len(), 3);
    assert_eq!((dots[0].cx, dots[0].cy, dots[0].r), (12, 15, 6));
    assert_eq!(dots[1].cx, 30);
    assert_eq!(dots[2].cx, 48);
    assert_eq!(dots[0].fill, Some([255, 95, 86]));
    assert_eq!(dots[2].fill, Some([39, 201, 63]));
    assert_eq!(dots[0].stroke, None);
    let rings = window_bar_circles(WindowBarStyle::RingsRight, 30, 0, 0, 200);
    assert_eq!(rings[0].cx, 152);
    assert_eq!(rings[0].fill, None);
    assert_eq!(rings[1].stroke, Some([255, 189, 46]));
    assert!(window_bar_circles(WindowBarStyle::NoBar, 30, 0, 0, 200).is_empty());
    assert_eq!(
        dots[0].to_svg_string(),
        "<circle cx=\"12\" cy=\"15\" r=\"6\" fill=\"#ff5f56\"/>"
    );
}

#[test]
fn frame_clip_radius_is_capped() {
    assert_eq!(frame_clip(0, 0, 100, 40, 30), Some((0, 0, 100, 40, 20)));
    assert_eq!(frame_clip(5, 6, 100, 40, 8), Some((5, 6, 100, 40, 8)));
    assert_eq!(frame_clip(0, 0, 100, 40, 0), None);
}

#[test]
fn animation_length_adds_one_frame() {
    assert_eq!(animation_total_ms(1000, 50), 1020);
    assert_eq!(animation_total_ms(1000, 0), 1033);
    assert_eq!(animation_total_ms(0, 2000), 1);
}

#[test]
fn frequent_colours_get_classes_in_order() {
    let mut colors = Vec::new();
    for _ in 0..5 {
        colors.push([9, 9, 9]);
    }
    for _ in 0..6 {
        colors.push([1, 1, 1]);
    }
    for _ in 0..4 {
        colors.push([5, 5, 5]);
    }
    let classes = color_classes(&colors);
    assert_eq!(classes, vec![[1, 1, 1], [9, 9, 9]]);
    assert_eq!(class_css(&classes), "<style>\n.c0 { fill: #010101; }\n.c1 { fill: #090909; }\n</style>\n");
    assert_eq!(class_of(&classes, [9, 9, 9]), Some(1));
    assert_eq!(class_of(&classes, [5, 5, 5]), None);
    assert_eq!(class_css(&Vec::new()), "");
}

#[test]
fn shapes_of_a_small_recording() {
    let mut style = FrameStyle::default();
    style.border_radius_px = 4;
    style.window_bar = WindowBarStyle::Colorful;
    let cfg = ViewportConfig::new(2, 1, 50, 10, 20, style, 0, 20, 16, 0);
    let mut f0 = frame(0, ["a", ""], Some((0, 0)));
    f0.cells[0].bg = [7, 7, 7];
    let f1 = frame(100, ["a", ""], Some((1, 0)));
    let shapes = svg_shapes(&[f0, f1], &cfg);
    assert_eq!(shapes.total_ms, 120);
    assert_eq!(shapes.cell_spans.len(), 2);
    assert_eq!(shapes.bg_rects.len(), 1);
    assert_eq!(shapes.bg_rects[0].fill, [7, 7, 7]);
    assert_eq!(shapes.bg_rects[0].end_ms, 100);
    assert_eq!(shapes.bg_rects[0].clip_path.as_deref(), Some("url(#frame-clip)"));
    assert_eq!(shapes.cursor_rects.len(), 2);
    assert_eq!(shapes.cursor_rects[0].x, cfg.content_x);
    assert_eq!(shapes.cursor_rects[1].x, cfg.content_x + 10);
    assert_eq!(shapes.window_bar_circles.len(), 3);
    assert_eq!(shapes.frame_clip, Some((cfg.frame_x, cfg.frame_y, cfg.frame_w, cfg.frame_h, 4)));
}

#[test]
fn shapes_are_refused_when_they_do_not_fit() {
    let cfg = ViewportConfig::new(2, 1, 50, 10, 20, FrameStyle::default(), 0, 20, 16, 0);
    assert!(svg_shapes_checked(&[], &cfg).is_none());
    let mut short = frame(0, ["a", ""], None);
    short.cells.pop();
    assert!(svg_shapes_checked(&[short], &cfg).is_none());
    let far = frame(0, ["a", ""], Some((u16::MAX, 0)));
    let mut wide = cfg;
    wide.cell_width_px = u32::MAX / 2;
    assert!(svg_shapes_checked(&[far], &wide).is_none());
    assert!(svg_shapes_checked(&[frame(0, ["a", ""], None)], &cfg).is_some());
    assert!(viewport_fits_exec(80, 24, 10, 20, FrameStyle::default()));
    assert!(!viewport_fits_exec(u16::MAX, 24, u32::MAX, 20, FrameStyle::default()));
}

#[test]
fn repeating_the_last_frame_adds_no_span() {
    let two = vec![frame(0, ["a", ""], None), frame(100, ["b", "c"], None)];
    let three = vec![frame(0, ["a", ""], None), frame(100, ["b", "c"], None), frame(150, ["b", "c"], Some((0, 0)))];
    let a = cell_spans(&two, 300);
    let b = cell_spans(&three, 300);
    assert_eq!(a.len(), b.len());
    for (x, y) in a.iter().zip(b.iter()) {
        assert_eq!((x.row, x.col, x.start_ms, x.end_ms), (y.row, y.col, y.start_ms, y.end_ms));
        assert_eq!(x.visual.text, y.visual.text);
    }
}

#[test]
fn shapes_spanning_the_whole_animation_are_static() {
    assert!(evp::svg::is_static(0, 900, 900));
    assert!(evp::svg::is_static(0, 1000, 900));
    assert!(!evp::svg::is_static(1, 1000, 900));
    assert!(!evp::svg::is_static(0, 899, 900));
}
