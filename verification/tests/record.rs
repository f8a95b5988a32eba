use evp::record::TapeRecorder;
use evp::script::ast::{Event, KeyAction, ModSet, MouseAction, MouseButton, NamedKey};

const MS: u64 = 1_000_000;

fn none() -> ModSet {
    ModSet::none()
}

#[test]
fn typed_characters_become_one_type_event() {
    let mut r = TapeRecorder::new();
    r.key(NamedKey::Char('h'), none(), KeyAction::Press, 10 * MS);
    r.key(NamedKey::Char('h'), none(), KeyAction::Release, 20 * MS);
    r.key(NamedKey::Char('i'), none(), KeyAction::Press, 30 * MS);
    r.key(NamedKey::Enter, none(), KeyAction::Press, 40 * MS);
    let ev = r.finish(50 * MS);
    assert_eq!(ev.len(), 2);
    assert!(matches!(&ev[0], Event::Type { text, delay } if text == "hi" && *delay == 50 * MS));
    assert!(matches!(&ev[1], Event::Key { key, .. } if key.key == NamedKey::Enter));
}

#[test]
fn pauses_become_sleeps() {
    let mut r = TapeRecorder::new();
    r.key(NamedKey::Tab, none(), KeyAction::Press, 400 * MS);
    r.key(NamedKey::Char('a'), none(), KeyAction::Press, 2_400 * MS);
    r.paste("xyz", 2_420 * MS);
    let ev = r.finish(3_000 * MS);
    assert!(matches!(&ev[0], Event::Sleep(d) if *d == 400 * MS));
    assert!(matches!(&ev[1], Event::Key { .. }));
    assert!(matches!(&ev[2], Event::Sleep(d) if *d == 2_000 * MS));
    assert!(matches!(&ev[3], Event::Type { text, .. } if text == "a"));
    assert!(matches!(&ev[4], Event::Type { text, .. } if text == "xyz"));
    assert_eq!(ev.len(), 5);
}

#[test]
fn clicks_and_drags() {
    let mut r = TapeRecorder::new();
    assert!(r.begin_mouse(MouseAction::Press, Some(MouseButton::Left), 10 * MS));
    r.mouse_button(MouseAction::Press, Some(MouseButton::Left), 3, 4, none(), 10 * MS);
    assert!(!r.begin_mouse(MouseAction::Release, Some(MouseButton::Left), 20 * MS));
    r.mouse_button(MouseAction::Release, Some(MouseButton::Left), 3, 4, none(), 20 * MS);
    r.begin_mouse(MouseAction::Press, Some(MouseButton::Left), 30 * MS);
    r.mouse_button(MouseAction::Press, Some(MouseButton::Left), 1, 1, none(), 30 * MS);
    r.begin_mouse(MouseAction::Release, Some(MouseButton::Left), 40 * MS);
    r.mouse_button(MouseAction::Release, Some(MouseButton::Left), 5, 6, none(), 40 * MS);
    r.mouse_button(MouseAction::Release, Some(MouseButton::Right), 7, 8, none(), 45 * MS);
    let ev = r.finish(50 * MS);
    assert!(matches!(&ev[0], Event::Click { col: 3, row: 4, .. }));
    assert!(matches!(&ev[1], Event::MouseDrag { start_col: 1, start_row: 1, end_col: 5, end_row: 6, .. }));
    assert!(matches!(&ev[2], Event::RightClick { col: 7, row: 8, .. }));
    assert_eq!(ev.len(), 3);
}
