use evp::style::{parse_hex_color, rgb_hex, window_bar_dot_metrics, Theme, ThemeError, WindowBarStyle};

#[test]
fn parses_json_theme_with_defaults() {
    let theme =
        Theme::from_spec(r##"{ "background": "#000000", "foreground": "#ffffff" }"##).unwrap();
    assert_eq!(theme.background, "#000000");
    assert_eq!(theme.foreground, "#ffffff");
    assert_eq!(theme.black, "#282a2e");
}

#[test]
fn rejects_invalid_colors() {
    let err = parse_hex_color("oops").unwrap_err();
    assert!(err.message().contains("valid color"));
}

#[test]
fn preset_names_are_sorted_ignoring_case() {
    let names = Theme::preset_names().unwrap();
    assert_eq!(names, vec!["Catppuccin Mocha", "Dracula", "Whimsy"]);
}

#[test]
fn preset_lookup_is_exact_then_case_insensitive_then_suggests() {
    assert_eq!(Theme::from_spec("Dracula").unwrap().background, "#282a36");
    assert_eq!(Theme::from_spec("  dracula ").unwrap().name.as_deref(), Some("Dracula"));
    match Theme::from_spec("mocha") {
        Err(ThemeError::DidYouMean { suggestions, .. }) => {
            assert_eq!(suggestions, vec!["Catppuccin Mocha"]);
        }
        other => panic!("unexpected {other:?}"),
    }
    let err = Theme::from_spec("zzz").unwrap_err();
    assert!(matches!(err, ThemeError::NotFound { .. }));
    assert_eq!(err.message(), "invalid `Set Theme zzz`: theme does not exist");
    let err = Theme::from_spec("a").unwrap_err();
    assert!(err.message().starts_with("invalid `Set Theme a`: did you mean "));
}

#[test]
fn blank_spec_is_the_default_theme() {
    let t = Theme::from_spec("   ").unwrap();
    assert_eq!(t.background, Theme::vhs_default().background);
    assert_eq!(t.cursor_accent.as_deref(), Some("#171717"));
}

#[test]
fn json_theme_errors() {
    assert!(matches!(Theme::from_spec("{ not json").unwrap_err(), ThemeError::Json { .. }));
    assert!(matches!(
        Theme::from_spec(r##"{ "red": "#12345" }"##).unwrap_err(),
        ThemeError::Color(_)
    ));
}

#[test]
fn colors_round_trip_through_hex() {
    assert_eq!(parse_hex_color(" #0aFf10 ").unwrap(), [0x0a, 0xff, 0x10]);
    assert_eq!(rgb_hex([0x0a, 0xff, 0x10]), "#0aff10");
    assert_eq!(parse_hex_color(&rgb_hex([1, 2, 3])).unwrap(), [1, 2, 3]);
    assert!(parse_hex_color("#12345g").is_err());
    assert_eq!(parse_hex_color("oops").unwrap_err().message(), "`oops` is not a valid color");
}

#[test]
fn theme_colors_read_as_rgb() {
    let t = Theme::vhs_default();
    assert_eq!(t.background_rgb().unwrap(), [0x17, 0x17, 0x17]);
    assert_eq!(t.palette_rgb().unwrap()[1], [0xd7, 0x4e, 0x6f]);
    assert_eq!(t.selection_rgb().unwrap(), None);
    assert_eq!(t.cursor_accent_rgb().unwrap(), Some([0x17, 0x17, 0x17]));
}

#[test]
fn window_bar_styles() {
    assert_eq!(WindowBarStyle::parse("").unwrap(), WindowBarStyle::NoBar);
    assert_eq!(WindowBarStyle::parse("RingsRight").unwrap(), WindowBarStyle::RingsRight);
    assert!(WindowBarStyle::RingsRight.align_right() && WindowBarStyle::RingsRight.outlined());
    assert!(!WindowBarStyle::NoBar.enabled());
    assert_eq!(
        WindowBarStyle::parse("Fancy").unwrap_err().message(),
        "Fancy is not a valid window bar style"
    );
    assert_eq!(window_bar_dot_metrics(30), (6, 6));
    assert_eq!(window_bar_dot_metrics(10), (5, 6));
    assert_eq!(window_bar_dot_metrics(50), (10, 10));
}

#[test]
fn written_parsed_colour_is_lower_case_text() {
    assert_eq!(rgb_hex(parse_hex_color(" #FFa0B1 ").unwrap()), "#ffa0b1");
    assert_eq!(rgb_hex(parse_hex_color("#0a0B0c").unwrap()), "#0a0b0c");
}

#[test]
fn resolved_themes_have_parsing_colours() {
    for spec in ["", "Dracula", "catppuccin mocha", "{ \"background\": \"#123456\" }"] {
        let t = Theme::from_spec(spec).unwrap();
        assert!(t.palette_rgb().is_ok());
        assert!(t.background_rgb().is_ok());
        assert!(t.foreground_rgb().is_ok());
        assert!(t.cursor_rgb().is_ok());
        assert!(t.selection_rgb().is_ok());
        assert!(t.cursor_accent_rgb().is_ok());
    }
    assert!(Theme::from_spec("{ \"background\": \"oops\" }").is_err());
}

#[test]
fn theme_json_ignores_other_members() {
    let t = Theme::from_spec("{ \"name\": \"X\", \"extra\": [1, 2], \"version\": 3, \"background\": \"#000000\" }").unwrap();
    assert_eq!(t.name.as_deref(), Some("X"));
    assert_eq!(t.background, "#000000");
    assert!(Theme::from_spec("{ \"background\": 5 }").is_err());
    assert!(Theme::from_spec("{ \"selection\": null }").unwrap().selection.is_none());
}
