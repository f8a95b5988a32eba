use evp::mouse_canvas::{MouseCanvas, MouseKind, Paint, LEGEND};

#[test]
fn legend_is_centred_on_the_middle_row() {
    let c = MouseCanvas::new(61, 5);
    let text: String = (0..61).map(|col| c.cell_char(col, 2)).collect();
    assert_eq!(text, format!("  {LEGEND}  "));
    assert_eq!(c.cell_char(2, 1), ' ');
    let narrow = MouseCanvas::new(20, 5);
    assert!((0..20).all(|col| narrow.cell_char(col, 2) == ' '));
}

#[test]
fn mouse_events_paint_cells_once() {
    let mut c = MouseCanvas::new(4, 3);
    assert_eq!(c.mouse(MouseKind::LeftDown, 1, 2), Some(Paint::Red));
    assert_eq!(c.grid[2 * 4 + 1], Paint::Red);
    assert_eq!(c.mouse(MouseKind::LeftDown, 1, 2), None);
    assert_eq!(c.mouse(MouseKind::RightDown, 1, 2), Some(Paint::Green));
    assert_eq!(c.mouse(MouseKind::Drag, 0, 0), Some(Paint::Magenta));
    assert_eq!(c.mouse(MouseKind::Moved, 3, 0), Some(Paint::LightBlue));
    assert_eq!(c.mouse(MouseKind::Up, 2, 0), None);
    assert_eq!(c.mouse(MouseKind::Scroll, 2, 0), None);
    assert_eq!(c.mouse(MouseKind::LeftDown, 4, 0), None);
    assert_eq!(c.mouse(MouseKind::LeftDown, 0, 3), None);
    assert_eq!(c.grid.iter().filter(|p| **p != Paint::Reset).count(), 3);
}

#[test]
fn resize_keeps_the_overlap() {
    let mut c = MouseCanvas::new(3, 2);
    c.mouse(MouseKind::LeftDown, 2, 0);
    c.mouse(MouseKind::RightDown, 0, 1);
    assert!(!c.resize(3, 2));
    assert!(c.resize(2, 3));
    assert_eq!((c.cols, c.rows), (2, 3));
    assert_eq!(c.grid, vec![Paint::Reset, Paint::Reset, Paint::Green, Paint::Reset, Paint::Reset, Paint::Reset]);
    assert!(c.resize(4, 1));
    assert_eq!(c.grid, vec![Paint::Reset; 4]);
}
