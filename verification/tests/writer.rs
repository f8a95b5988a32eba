use evp::script::ast::{Easing, Event, KeyAction, KeySpec, ModSet, NamedKey, ScrollDirection};
use evp::script::{parse, write_reference_header, write_tape_script};

fn mods(ctrl: bool, shift: bool) -> ModSet {
    ModSet { ctrl, alt: false, shift, super_key: false }
}

#[test]
fn reference_header_comments_every_line() {
    let h = write_reference_header();
    assert!(h.starts_with("# This is a reference tape to help you write your tape files.\n"));
    assert!(h.contains("# Output demo.gif"));
    assert!(h.lines().all(|l| l.starts_with('#')));
    assert!(h.ends_with("\n"));
}

#[test]
fn tape_script_lists_settings_then_events() {
    let events = vec![
        Event::Type { text: "echo \"hi\" \\".to_string(), delay: 50_000_000 },
        Event::Type { text: "ls".to_string(), delay: 120_000_000 },
        Event::Sleep(1_500_000_000),
        Event::Sleep(250_000_000),
        Event::Sleep(2_000_000_000),
        Event::Key {
            key: KeySpec { key: NamedKey::Char('c'), mods: mods(true, false) },
            action: KeyAction::Press,
            count: 1,
            delay: 0,
        },
        Event::Key {
            key: KeySpec { key: NamedKey::Down, mods: mods(false, false) },
            action: KeyAction::Press,
            count: 3,
            delay: 0,
        },
        Event::Key {
            key: KeySpec { key: NamedKey::Enter, mods: mods(false, false) },
            action: KeyAction::Release,
            count: 1,
            delay: 0,
        },
        Event::Click { col: 3, row: 4, mods: mods(false, true), delay: 50_000_000 },
        Event::MouseDrag {
            start_col: 0,
            start_row: 0,
            end_col: 10,
            end_row: 10,
            mods: mods(true, true),
            delay: 100_000_000,
            easing: Some(Easing::InOutQuadradic),
        },
        Event::MouseScroll { col: 1, row: 2, direction: ScrollDirection::Down, mods: mods(false, false), delay: 50_000_000 },
        Event::Paste,
    ];
    let tape = write_tape_script(&events, "out.gif", Some("zsh"), 80, 24, Some("Dracula"));
    let body = tape.split("\n\n").last().unwrap();
    assert!(tape.contains("\nOutput out.gif\nSet Shell zsh\nSet Cols 80\nSet Rows 24\nSet FontSize 20\nSet Theme \"Dracula\"\n\n"));
    assert_eq!(
        body,
        "Type \"echo \\\"hi\\\" \\\\\"\nType@120ms \"ls\"\nSleep 1.5s\nSleep 250ms\nSleep 2s\nCtrl+C\nDown 3\nShift+Click 3 4\nCtrl+Shift+MouseDrag@100ms@EaseInOutQuad 0 0 10 10\nMouseScroll 1 2 Down\n"
    );
}

#[test]
fn written_tapes_without_mouse_events_parse_back() {
    let events = vec![
        Event::Type { text: "hello".to_string(), delay: 50_000_000 },
        Event::Sleep(700_000_000),
        Event::Key {
            key: KeySpec { key: NamedKey::Tab, mods: mods(true, true) },
            action: KeyAction::Press,
            count: 2,
            delay: 0,
        },
    ];
    let tape = write_tape_script(&events, "demo.gif", None, 100, 30, None);
    let s = parse(&tape).unwrap();
    assert_eq!(s.outputs, vec!["demo.gif"]);
    assert_eq!(s.settings.cols, Some(100));
    assert_eq!(s.events.len(), 3);
    assert!(matches!(&s.events[0], Event::Type { text, delay } if text == "hello" && *delay == 50_000_000));
    assert!(matches!(&s.events[1], Event::Sleep(d) if *d == 700_000_000));
    assert!(matches!(&s.events[2], Event::Key { key, count: 2, .. } if key.key == NamedKey::Tab && key.mods.ctrl && key.mods.shift));
}

#[test]
fn written_keys_types_and_pauses_read_back_in_order() {
    let all = ModSet { ctrl: true, alt: true, shift: true, super_key: false };
    let events = vec![
        Event::Type { text: "echo '#1' `x`".to_string(), delay: 10_000_000 },
        Event::Key { key: KeySpec { key: NamedKey::Left, mods: all }, action: KeyAction::Press, count: 1, delay: 0 },
        Event::Key { key: KeySpec { key: NamedKey::Char('X'), mods: mods(true, false) }, action: KeyAction::Press, count: 4, delay: 0 },
        Event::Sleep(1_250_000_000),
        Event::Key { key: KeySpec { key: NamedKey::End, mods: mods(false, false) }, action: KeyAction::Press, count: 1, delay: 0 },
        Event::Type { text: "done".to_string(), delay: 50_000_000 },
    ];
    let tape = write_tape_script(&events, "demo.svg", None, 80, 24, None);
    let s = parse(&tape).unwrap();
    assert_eq!(s.events.len(), 6);
    assert!(matches!(&s.events[0], Event::Type { text, delay } if text == "echo '#1' `x`" && *delay == 10_000_000));
    assert!(matches!(&s.events[1], Event::Key { key, action: KeyAction::Press, count: 1, delay: 0 } if key.key == NamedKey::Left && key.mods == all));
    assert!(matches!(&s.events[2], Event::Key { key, count: 4, delay: 0, .. } if key.key == NamedKey::Char('X') && key.mods == mods(true, false)));
    assert!(matches!(&s.events[3], Event::Sleep(d) if *d == 1_250_000_000));
    assert!(matches!(&s.events[4], Event::Key { key, count: 1, .. } if key.key == NamedKey::End && key.mods == mods(false, false)));
    assert!(matches!(&s.events[5], Event::Type { text, delay } if text == "done" && *delay == 50_000_000));
}

#[test]
fn whole_written_tape_reads_back_output_settings_and_events() {
    let events = vec![
        Event::Type { text: "make test".to_string(), delay: 80_000_000 },
        Event::Sleep(300_000_000),
    ];
    let tape = write_tape_script(&events, "session.json", Some("fish"), 132, 43, None);
    let s = parse(&tape).unwrap();
    assert_eq!(s.outputs, vec!["session.json"]);
    assert_eq!(s.settings.shell.as_deref(), Some("fish"));
    assert_eq!(s.settings.cols, Some(132));
    assert_eq!(s.settings.rows, Some(43));
    assert_eq!(s.events.len(), 2);
    assert!(matches!(&s.events[0], Event::Type { text, delay } if text == "make test" && *delay == 80_000_000));
    assert!(matches!(&s.events[1], Event::Sleep(d) if *d == 300_000_000));
}
