use evp::recording::{CellSnap, PointerShape, RawFrame, RecordingBuilder, RecordingConfig};
use evp::render_common::ViewportConfig;
use evp::style::FrameStyle;

fn frame(t_ms: u32, text: &str) -> RawFrame {
    let mut cells = Vec::new();
    for i in 0..4 {
        let mut c = CellSnap::blank([255, 255, 255], [0, 0, 0]);
        if let Some(ch) = text.chars().nth(i) {
            c.text = ch.to_string();
        }
        cells.push(c);
    }
    RawFrame {
        t_ms,
        cols: 2,
        rows: 2,
        cells,
        cursor: Some((1, 0)),
        default_fg: [255, 255, 255],
        default_bg: [0, 0, 0],
        cursor_color: None,
        cursor_accent: None,
        mouse_cursor: None,
        pointer_shape: PointerShape::Default,
        title: None,
    }
}

#[test]
fn reconstruct_gives_back_each_pushed_frame() {
    let viewport = ViewportConfig::new(2, 2, 50, 10, 20, FrameStyle::default(), 0, 20, 16, 0);
    let mut b = RecordingBuilder::new(RecordingConfig { viewport, keyframe_interval: 2 });
    let texts = ["ab", "ac", "xc", "xcd", "xcd"];
    for (i, t) in texts.iter().enumerate() {
        b.push_raw(frame(i as u32 * 20, t));
    }
    let rec = b.finish();
    assert!(rec.frames.len() <= texts.len());
    for i in 0..rec.frames.len() {
        let f = rec.reconstruct(i).unwrap();
        assert_eq!(f.cells.len(), 4);
    }
    let first = rec.reconstruct(0).unwrap();
    assert_eq!(first.cells[0].text, "a");
    let last = rec.reconstruct(rec.frames.len() - 1).unwrap();
    assert_eq!(last.cells[0].text, "x");
    assert_eq!(last.cells[2].text, "d");
    assert!(rec.reconstruct(rec.frames.len()).is_none());
}

#[test]
fn pointer_shapes_round_trip_through_names() {
    for p in [PointerShape::Default, PointerShape::Text, PointerShape::Pointer, PointerShape::Grabbing] {
        assert_eq!(PointerShape::from_name(p.as_str()), p);
    }
    assert_eq!(PointerShape::from_name("wait"), PointerShape::Default);
    assert_eq!("text".parse::<PointerShape>().unwrap(), PointerShape::Text);
}

#[test]
fn blank_cells_are_spaces_in_default_colours() {
    let c = CellSnap::blank([1, 2, 3], [4, 5, 6]);
    assert_eq!(c.fg, [1, 2, 3]);
    assert_eq!(c.bg, [4, 5, 6]);
    assert_eq!(c.flags, 0);
}

#[test]
fn osc22_reports_pointer_shapes() {
    let mut p = evp::osc::Osc22Parser::new();
    let mut got = Vec::new();
    for &b in b"\x1b]22;pointer\x07text\x1b]22;grabbing\x1b\\" {
        if let Some(s) = p.feed(b) {
            got.push(s);
        }
    }
    assert_eq!(got, vec![PointerShape::Pointer, PointerShape::Grabbing]);
}

#[test]
fn keyframes_fall_every_interval_frames() {
    let viewport = ViewportConfig::new(2, 2, 50, 10, 20, FrameStyle::default(), 0, 20, 16, 0);
    let mut b = RecordingBuilder::new(RecordingConfig { viewport, keyframe_interval: 3 });
    for i in 0..8u32 {
        b.push_raw(frame(i * 20, if i % 2 == 0 { "ab" } else { "ba" }));
    }
    let rec = b.finish();
    let keys: Vec<usize> = (0..rec.frames.len())
        .filter(|&i| matches!(rec.frames[i], evp::recording::Frame::Key { .. }))
        .collect();
    assert_eq!(keys, vec![0, 3, 6]);
}

#[test]
fn osc22_recovers_after_another_osc() {
    let mut p = evp::osc::Osc22Parser::new();
    for &b in b"\x1b]2;title\x07" {
        assert_eq!(p.feed(b), None);
    }
    let seq = b"\x1b]22;text\x07";
    for (i, &b) in seq.iter().enumerate() {
        let r = p.feed(b);
        if i + 1 == seq.len() {
            assert_eq!(r, Some(PointerShape::Text));
        } else {
            assert_eq!(r, None);
        }
    }
}
