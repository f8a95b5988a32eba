use std::time::Duration;

use evp::script::parser::{parse, parse_duration, LineError};
use evp::script::{Event, NamedKey};

fn nanos(d: Duration) -> u64 {
    d.as_nanos() as u64
}

#[test]
fn parses_basic_script() {
    let src = r#"
            # leading comment
            Output out.gif
            Set FontSize 18
            Set TypingSpeed 30ms
            Type "hello"
            Sleep 500ms
            Enter
            Ctrl+C
            Down@20ms 5
        "#;
    let s = parse(src).unwrap();
    assert_eq!(s.outputs, vec!["out.gif"]);
    assert_eq!(s.settings.font_size.text.parse::<f32>().unwrap(), 18.0);
    assert_eq!(s.events.len(), 5);
    match &s.events[0] {
        Event::Type { text, delay } => {
            assert_eq!(text, "hello");
            assert_eq!(*delay, nanos(Duration::from_millis(30)));
        }
        _ => panic!(),
    }
    match &s.events[3] {
        Event::Key { key, .. } => {
            assert!(key.mods.ctrl);
            assert_eq!(key.key, NamedKey::Char('C'));
        }
        _ => panic!(),
    }
    match &s.events[4] {
        Event::Key { key, count, delay, .. } => {
            assert_eq!(key.key, NamedKey::Down);
            assert_eq!(*count, 5);
            assert_eq!(*delay, nanos(Duration::from_millis(20)));
        }
        _ => panic!(),
    }
}

#[test]
fn unsupported_set_keys_bail() {
    for key in ["LetterSpacing", "LoopOffset"] {
        let src = format!("Output out.gif\nSet {key} something\n");
        let err = parse(&src).unwrap_err();
        let msg = err.message();
        assert!(
            msg.contains(key) && msg.contains("VHS feature"),
            "expected `{key}` to bail with parity error, got: {msg}"
        );
    }
}

#[test]
fn copy_paste_parse() {
    let script = parse("Output out.gif\nCopy \"hello\"\nPaste\n").unwrap();
    assert!(matches!(&script.events[0], Event::Copy(text) if text == "hello"));
    assert!(matches!(&script.events[1], Event::Paste));
}

#[test]
fn multiple_outputs_bail() {
    let err = parse("Output a.gif\nOutput b.gif\n").unwrap_err();
    let msg = err.message();
    assert!(
        msg.contains("single `Output`"),
        "expected single-output error, got: {msg}"
    );
}

#[test]
fn unsupported_output_extensions_bail() {
    for ext in ["mp4", "webm", "txt", "ascii", "png"] {
        let err = parse(&format!("Output out.{ext}\n")).unwrap_err();
        let msg = err.message();
        assert!(msg.contains(ext), "expected `.{ext}` to bail, got: {msg}");
    }
}

#[test]
fn screenshot_parses() {
    let s = parse("Output out.gif\nScreenshot shot.png\n").unwrap();
    assert!(matches!(&s.events[0], Event::Screenshot(p) if p == "shot.png"));
}

#[test]
fn theme_json_parses() {
    let s = parse(
        "Output out.gif\nSet Theme { \"name\": \"Whimsy\", \"background\": \"#29283b\", \"foreground\": \"#b3b0d6\" }\n",
    )
    .unwrap();
    assert_eq!(s.settings.theme.name.as_deref(), Some("Whimsy"));
    assert_eq!(s.settings.theme.background, "#29283b");
}

#[test]
fn theme_preset_parses() {
    let s = parse("Output out.gif\nSet Theme \"Whimsy\"\n").unwrap();
    assert_eq!(s.settings.theme.name.as_deref(), Some("Whimsy"));
}

#[test]
fn durations_round_to_the_nearest_nanosecond() {
    assert_eq!(parse_duration("1s").unwrap(), 1_000_000_000);
    assert_eq!(parse_duration("500ms").unwrap(), 500_000_000);
    assert_eq!(parse_duration("2m").unwrap(), 120_000_000_000);
    assert_eq!(parse_duration(" 0.5s ").unwrap(), 500_000_000);
    assert_eq!(parse_duration("1.5").unwrap(), 1_500_000_000);
    assert_eq!(parse_duration("+.25ms").unwrap(), 250_000);
    assert_eq!(parse_duration("-0").unwrap(), 0);
    assert_eq!(parse_duration("0.0000000015s").unwrap(), 2);
    assert_eq!(parse_duration("0.0000000025s").unwrap(), 2);
    assert_eq!(parse_duration("0.00000000251s").unwrap(), 3);
    assert_eq!(parse_duration("0.0000000000125m").unwrap(), 1);
    assert_eq!(parse_duration("18446744073.709551615s").unwrap(), u64::MAX);
    assert!(parse_duration("18446744073.709551616s").is_err());
    assert!(parse_duration("-1s").is_err());
    assert!(parse_duration("abc").is_err());
    assert!(parse_duration("").is_err());
    assert!(parse_duration(".").is_err());
    assert_eq!(parse_duration("bad").unwrap_err().message(), "invalid duration `bad`");
}

#[test]
fn settings_are_applied_in_order() {
    let s = parse(
        "Set Width 800\nSet Cols 100\nSet Padding 10\nSet MarginFill \"#6B50FF\"\nSet WindowBar Rings\nSet CursorBlink false\nSet WaitPattern \"\\$ \"\nSet Shell \"bash\"\n",
    )
    .unwrap();
    assert_eq!(s.settings.width, Some(800));
    assert_eq!(s.settings.cols, Some(100));
    assert_eq!(s.settings.padding, 10);
    assert_eq!(s.settings.margin_fill, [0x6b, 0x50, 0xff]);
    assert_eq!(s.settings.window_bar, evp::style::WindowBarStyle::Rings);
    assert!(!s.settings.cursor_blink);
    assert_eq!(s.settings.wait_pattern, "\\$ ");
    assert_eq!(s.settings.shell.as_deref(), Some("bash"));
    assert_eq!(s.settings.resolved_canvas_width(), Some(800));
    assert_eq!(s.settings.resolved_canvas_height(), Some(600));
}

#[test]
fn set_errors_name_the_problem() {
    let e = parse("Set Cols 70000\n").unwrap_err();
    assert!(matches!(e.kind, LineError::InvalidValue { .. }));
    assert_eq!(e.line, 1);
    let e = parse("Set Bogus 1\n").unwrap_err();
    assert!(e.message().contains("unknown Set key: Bogus"));
    let e = parse("Set Width\n").unwrap_err();
    assert!(matches!(e.kind, LineError::SetMissingValue { .. }));
    let e = parse("Set FontSize big\n").unwrap_err();
    assert!(matches!(e.kind, LineError::InvalidValue { .. }));
    let s = parse("Set FontSize 1e1\nSet LineHeight -inf\n").unwrap();
    assert_eq!(s.settings.font_size.text, "1e1");
    let e = parse("Set MarginFill red\n").unwrap_err();
    assert!(e.message().contains("valid color"));
    let e = parse("Set WindowBar Fancy\n").unwrap_err();
    assert!(e.message().contains("not a valid window bar style"));
    let e = parse("Set Theme \"No Such Theme\"\n").unwrap_err();
    assert!(e.message().contains("theme does not exist"));
}

#[test]
fn comments_quotes_and_line_numbers() {
    let s = parse("Type \"a # not a comment\" # comment\r\nType 'it''s' `raw \\`\n").unwrap();
    assert!(matches!(&s.events[0], Event::Type { text, .. } if text == "a # not a comment"));
    assert!(matches!(&s.events[1], Event::Type { text, .. } if text == "it"));
    assert!(matches!(&s.events[2], Event::Type { text, .. } if text == "s"));
    assert!(matches!(&s.events[3], Event::Type { text, .. } if text == "raw \\"));
    let e = parse("Enter\n\nType \"open\n").unwrap_err();
    assert_eq!(e.line, 3);
    assert!(matches!(e.kind, LineError::UnterminatedString));
    let s = parse("Type \"say \\\"hi\\\"\"\n").unwrap();
    assert!(matches!(&s.events[0], Event::Type { text, .. } if text == "say \\\"hi\\\""));
}

#[test]
fn keys_waits_and_paths() {
    let s = parse("Ctrl+Shift+Tab\nAlt+x 3\nWait Screen @2s /ready/\nEnv A \"b c\"\nRequire git \"curl\"\n").unwrap();
    match &s.events[0] {
        Event::Key { key, count, .. } => {
            assert!(key.mods.ctrl && key.mods.shift && !key.mods.alt);
            assert_eq!(key.key, NamedKey::Tab);
            assert_eq!(*count, 1);
        }
        _ => panic!(),
    }
    match &s.events[1] {
        Event::Key { key, count, .. } => {
            assert!(key.mods.alt);
            assert_eq!(key.key, NamedKey::Char('x'));
            assert_eq!(*count, 3);
        }
        _ => panic!(),
    }
    assert!(matches!(parse("Wait+Screen\n").unwrap_err().kind, LineError::UnknownKey { .. }));
    match &s.events[2] {
        Event::Wait { timeout, pattern, .. } => {
            assert_eq!(*timeout, 2_000_000_000);
            assert_eq!(pattern, "ready");
        }
        _ => panic!(),
    }
    assert_eq!(s.env, vec![("A".to_string(), "b c".to_string())]);
    assert_eq!(s.require, vec!["git".to_string(), "curl".to_string()]);
    assert!(matches!(parse("Ctrl+\n").unwrap_err().kind, LineError::MissingKeyName { .. }));
    assert!(matches!(parse("Bogus\n").unwrap_err().kind, LineError::UnknownKey { .. }));
    assert!(matches!(parse("Enter x\n").unwrap_err().kind, LineError::RepeatCount { .. }));
    assert!(matches!(parse("Wait nope\n").unwrap_err().kind, LineError::WaitUnexpected { .. }));
    assert!(matches!(parse("Output out\n").unwrap_err().kind, LineError::OutputNoExtension { .. }));
    assert!(matches!(parse("Output .gif\n").unwrap_err().kind, LineError::OutputNoExtension { .. }));
    assert!(parse("Output dir/./OUT.GIF/.\n").is_ok());
    assert!(matches!(parse("Screenshot shot.jpg\n").unwrap_err().kind, LineError::ScreenshotNotPng));
    assert!(matches!(parse("Source other.tape\n").unwrap_err().kind, LineError::SourceUnresolved { .. }));
    assert!(matches!(parse("Copy hello\n").unwrap_err().kind, LineError::ExpectedQuoted { .. }));
}

#[test]
fn documented_output_extensions_parse() {
    for path in ["demo.gif", "demo.svg", "demo.svgz", "demo.json", "demo.stats"] {
        let s = parse(&format!("Output {path}\n")).unwrap();
        assert_eq!(s.outputs, vec![path.to_string()]);
    }
}

#[test]
fn durations_take_exponents() {
    assert_eq!(parse_duration("1e3s").ok(), Some(1_000_000_000_000));
    assert_eq!(parse_duration("1E3").ok(), Some(1_000_000_000_000));
    assert_eq!(parse_duration("1.5e-3s").ok(), Some(1_500_000));
    assert_eq!(parse_duration("2e+1m").ok(), Some(1_200_000_000_000));
    assert_eq!(parse_duration("25e-1ms").ok(), Some(2_500_000));
    assert_eq!(parse_duration(".5e1s").ok(), Some(5_000_000_000));
    assert_eq!(parse_duration("5e-20s").ok(), Some(0));
    assert_eq!(parse_duration("-0e5s").ok(), Some(0));
    assert_eq!(parse_duration("0e99999999999999999999999999999999").ok(), Some(0));
    assert_eq!(parse_duration("1e-99999999999999999999999999999999").ok(), Some(0));
    assert!(parse_duration("1e30s").is_err());
    assert!(parse_duration("1e99999999999999999999999999999999").is_err());
    assert!(parse_duration("1e").is_err());
    assert!(parse_duration("e3s").is_err());
    assert!(parse_duration("1e3.5s").is_err());
    assert!(parse_duration("-1e3s").is_err());
    assert!(parse_duration("inf").is_err());
}

#[test]
fn source_stack_refuses_an_open_file() {
    let mut s = evp::script::sources::SourceStack::new();
    assert!(s.enter("/t/a.tape"));
    assert!(s.enter("/t/b.tape"));
    assert!(!s.enter("/t/a.tape"));
    s.leave();
    assert!(s.enter("/t/b.tape"));
    s.leave();
    s.leave();
    assert!(s.enter("/t/a.tape"));
}
