use evp::recording::{CellChange, CellSnap, Frame};
use evp::render::{apply_frame, fill_rect, invert_rect, quantize_with_palette, FrameState};

fn cell(t: &str) -> CellSnap {
    let mut c = CellSnap::blank([1, 1, 1], [0, 0, 0]);
    c.text = t.to_string();
    c
}

#[test]
fn pixels_map_to_their_nearest_palette_colour() {
    let mut palette = Vec::new();
    for j in 0..256u32 {
        palette.extend_from_slice(&[j as u8, j as u8, j as u8]);
    }
    let rgb = [10u8, 10, 10, 255, 0, 0, 0, 0, 1];
    assert_eq!(quantize_with_palette(&rgb, &palette), vec![10, 85, 0]);
    let mut flat = vec![0u8; 768];
    flat[3] = 5;
    assert_eq!(quantize_with_palette(&[0, 0, 0], &flat), vec![0]);
}

#[test]
fn rgb_rects_fill_and_invert() {
    let mut buf = vec![0u8; 12];
    fill_rect(&mut buf, 2, 1, 0, 1, 1, [7, 8, 9]);
    assert_eq!(buf, vec![0, 0, 0, 7, 8, 9, 0, 0, 0, 0, 0, 0]);
    invert_rect(&mut buf, 2, 0, 0, 2, 1);
    assert_eq!(buf, vec![255, 255, 255, 248, 247, 246, 0, 0, 0, 0, 0, 0]);
    let mut short = vec![1u8; 4];
    fill_rect(&mut short, 2, 0, 0, 2, 1, [9, 9, 9]);
    assert_eq!(short, vec![9, 9, 9, 1]);
}

fn key(t_ms: u32) -> Frame {
    Frame::Key {
        t_ms,
        cursor: Some((0, 0)),
        default_fg: [1, 1, 1],
        default_bg: [0, 0, 0],
        cursor_color: None,
        cursor_accent: None,
        mouse_cursor: None,
        pointer_shape: None,
        title: None,
        cells: vec![cell("a"), cell("b")],
    }
}

fn diff(t_ms: u32, changes: Vec<CellChange>) -> Frame {
    Frame::Diff {
        t_ms,
        cursor: None,
        default_fg: [1, 1, 1],
        default_bg: [0, 0, 0],
        cursor_color: None,
        cursor_accent: None,
        mouse_cursor: None,
        pointer_shape: None,
        title: None,
        changes,
    }
}

#[test]
fn frames_replay_into_the_screen_state() {
    let mut state: Option<FrameState> = None;
    assert!(!apply_frame(&mut state, &diff(5, vec![])));
    assert!(state.is_none());
    assert!(apply_frame(&mut state, &key(10)));
    assert!(apply_frame(&mut state, &diff(20, vec![CellChange { idx: 1, cell: cell("z") }])));
    let st = state.as_ref().unwrap();
    assert_eq!(st.t_ms, 20);
    assert_eq!(st.cursor, None);
    assert_eq!(st.cells[1].text, "z");
    assert!(!apply_frame(
        &mut state,
        &diff(30, vec![CellChange { idx: 0, cell: cell("q") }, CellChange { idx: 9, cell: cell("w") }])
    ));
    let st = state.as_ref().unwrap();
    assert_eq!(st.t_ms, 30);
    assert_eq!(st.cells[0].text, "q");
    assert_eq!(st.cells.len(), 2);
}

#[test]
fn inverting_twice_restores_the_buffer() {
    let orig: Vec<u8> = (0..3 * 12).map(|i| (i * 7 % 256) as u8).collect();
    let mut buf = orig.clone();
    invert_rect(&mut buf, 4, 1, 0, 2, 3);
    assert_ne!(buf, orig);
    assert_eq!(buf[3], 255 - orig[3]);
    assert_eq!(buf[0], orig[0]);
    invert_rect(&mut buf, 4, 1, 0, 2, 3);
    assert_eq!(buf, orig);
}
