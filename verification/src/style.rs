//! Colour themes, window bar styles and frame geometry settings.

use vstd::prelude::*;

verus! {

/// Background colour of the default theme, as RGB.
pub open spec fn default_background_rgb() -> [u8; 3] {
    [0x17u8, 0x17u8, 0x17u8]
}

pub const DEFAULT_WINDOW_BAR_SIZE_PX: u32 = 30;
pub const WINDOW_BAR_DOT_RADIUS_DIVISOR: u32 = 5;
pub const WINDOW_BAR_DOT_MIN_RADIUS: u32 = 5;
pub const WINDOW_BAR_DOT_MIN_GAP: u32 = 6;

/// Style of the macOS-like window bar drawn above the terminal grid.
#[derive(Debug, Clone, Copy, PartialEq, Eq, Structural)]
pub enum WindowBarStyle {
    NoBar,
    Colorful,
    ColorfulRight,
    Rings,
    RingsRight,
}

impl WindowBarStyle {
    /// Whether a window bar is drawn at all.
    pub fn enabled(self) -> (r: bool)
        ensures
            r == !(self is NoBar),
    {
        !matches!(self, WindowBarStyle::NoBar)
    }

    /// Whether the window controls sit on the right-hand side.
    pub fn align_right(self) -> (r: bool)
        ensures
            r == (self is ColorfulRight || self is RingsRight),
    {
        matches!(self, WindowBarStyle::ColorfulRight | WindowBarStyle::RingsRight)
    }

    /// Whether the window controls are drawn as outlined rings.
    pub fn outlined(self) -> (r: bool)
        ensures
            r == (self is Rings || self is RingsRight),
    {
        matches!(self, WindowBarStyle::Rings | WindowBarStyle::RingsRight)
    }
}

impl Default for WindowBarStyle {
    fn default() -> (r: Self)
        ensures
            r is NoBar,
    {
        WindowBarStyle::NoBar
    }
}

/// The window bar style a `Set WindowBar` value names.
pub open spec fn spec_window_bar(v: Seq<char>) -> Option<WindowBarStyle> {
    if v == ""@ || v == "None"@ {
        Some(WindowBarStyle::NoBar)
    } else if v == "Colorful"@ {
        Some(WindowBarStyle::Colorful)
    } else if v == "ColorfulRight"@ {
        Some(WindowBarStyle::ColorfulRight)
    } else if v == "Rings"@ {
        Some(WindowBarStyle::Rings)
    } else if v == "RingsRight"@ {
        Some(WindowBarStyle::RingsRight)
    } else {
        None
    }
}

/// The name a script gives a window bar style.
pub open spec fn window_bar_name(w: WindowBarStyle) -> Seq<char> {
    match w {
        WindowBarStyle::NoBar => "None"@,
        WindowBarStyle::Colorful => "Colorful"@,
        WindowBarStyle::ColorfulRight => "ColorfulRight"@,
        WindowBarStyle::Rings => "Rings"@,
        WindowBarStyle::RingsRight => "RingsRight"@,
    }
}

/// Every window bar style is read back from its name.
pub proof fn lemma_window_bar_name_read_back(w: WindowBarStyle)
    ensures
        spec_window_bar(window_bar_name(w)) == Some(w),
{
    reveal_strlit("");
    reveal_strlit("None");
    reveal_strlit("Colorful");
    reveal_strlit("ColorfulRight");
    reveal_strlit("Rings");
    reveal_strlit("RingsRight");
    assert(""@.len() == 0 && "None"@.len() == 4 && "Colorful"@.len() == 8);
    assert("ColorfulRight"@.len() == 13 && "Rings"@.len() == 5 && "RingsRight"@.len() == 10);
}

/// A value that names no window bar style.
#[derive(Debug)]
pub struct WindowBarError {
    pub value: String,
}

impl WindowBarError {
    /// Human-readable description of the error.
    pub fn message(&self) -> (r: String)
        ensures
            r@ == self.value@ + " is not a valid window bar style"@,
    {
        let mut m = self.value.clone();
        m.append(" is not a valid window bar style");
        m
    }
}

impl WindowBarStyle {
    /// Reads a window bar style: `None` (or nothing), `Colorful`,
    /// `ColorfulRight`, `Rings` or `RingsRight`.
    pub fn parse(value: &str) -> (r: Result<WindowBarStyle, WindowBarError>)
        ensures
            match r {
                Ok(w) => spec_window_bar(value@) == Some(w),
                Err(e) => spec_window_bar(value@) is None && e.value@ == value@,
            },
    {
        if crate::text::str_eq(value, "") || crate::text::str_eq(value, "None") {
            Ok(WindowBarStyle::NoBar)
        } else if crate::text::str_eq(value, "Colorful") {
            Ok(WindowBarStyle::Colorful)
        } else if crate::text::str_eq(value, "ColorfulRight") {
            Ok(WindowBarStyle::ColorfulRight)
        } else if crate::text::str_eq(value, "Rings") {
            Ok(WindowBarStyle::Rings)
        } else if crate::text::str_eq(value, "RingsRight") {
            Ok(WindowBarStyle::RingsRight)
        } else {
            Err(WindowBarError { value: value.to_string() })
        }
    }
}

/// Pixel geometry and decoration of the frame drawn around the terminal.
#[derive(Debug, Clone, Copy, PartialEq, Eq)]
pub struct FrameStyle {
    pub canvas_width_px: Option<u32>,
    pub canvas_height_px: Option<u32>,
    pub padding_px: u32,
    pub margin_px: u32,
    pub margin_fill: [u8; 3],
    pub window_bar: WindowBarStyle,
    pub window_bar_size_px: u32,
    pub border_radius_px: u32,
}

impl Default for FrameStyle {
    fn default() -> (r: Self)
        ensures
            r.canvas_width_px is None,
            r.canvas_height_px is None,
            r.padding_px == 60,
            r.margin_px == 0,
            r.margin_fill == default_background_rgb(),
            r.window_bar is NoBar,
            r.window_bar_size_px == DEFAULT_WINDOW_BAR_SIZE_PX,
            r.border_radius_px == 0,
    {
        FrameStyle {
            canvas_width_px: None,
            canvas_height_px: None,
            padding_px: 60,
            margin_px: 0,
            margin_fill: [0x17u8, 0x17u8, 0x17u8],
            window_bar: WindowBarStyle::NoBar,
            window_bar_size_px: DEFAULT_WINDOW_BAR_SIZE_PX,
            border_radius_px: 0,
        }
    }
}

/// Radius and gap (in pixels) of the window-control dots for a bar of
/// height `bar_h`.
pub fn window_bar_dot_metrics(bar_h: u32) -> (r: (u32, u32))
    ensures
        r.0 == if bar_h / 5 >= 5 { bar_h / 5 } else { 5 },
        r.1 == if r.0 >= 6 { r.0 } else { 6 },
{
    let q = bar_h / WINDOW_BAR_DOT_RADIUS_DIVISOR;
    let radius = if q >= WINDOW_BAR_DOT_MIN_RADIUS { q } else { WINDOW_BAR_DOT_MIN_RADIUS };
    let gap = if radius >= WINDOW_BAR_DOT_MIN_GAP { radius } else { WINDOW_BAR_DOT_MIN_GAP };
    (radius, gap)
}

/// Value of a hexadecimal digit.
pub open spec fn hex_digit(c: char) -> Option<u8> {
    if '0' <= c <= '9' {
        Some((c as u32 - '0' as u32) as u8)
    } else if 'a' <= c <= 'f' {
        Some((c as u32 - 'a' as u32 + 10) as u8)
    } else if 'A' <= c <= 'F' {
        Some((c as u32 - 'A' as u32 + 10) as u8)
    } else {
        None
    }
}

/// A two-character hexadecimal byte as `u8::from_str_radix(_, 16)` reads
/// it: two digits, or a `+` sign and one digit.
pub open spec fn hex_pair(a: char, b: char) -> Option<u8> {
    if a == '+' {
        hex_digit(b)
    } else {
        match (hex_digit(a), hex_digit(b)) {
            (Some(x), Some(y)) => Some((x * 16 + y) as u8),
            _ => None,
        }
    }
}

/// The colour written `#rrggbb` (surrounding white space allowed).
pub open spec fn spec_parse_hex_color(value: Seq<char>) -> Option<[u8; 3]> {
    let t = crate::text::trim(value);
    if t.len() == 7 && t[0] == '#' {
        match (hex_pair(t[1], t[2]), hex_pair(t[3], t[4]), hex_pair(t[5], t[6])) {
            (Some(r), Some(g), Some(b)) => Some([r, g, b]),
            _ => None,
        }
    } else {
        None
    }
}

/// A hexadecimal digit character.
pub open spec fn is_hex_char(c: char) -> bool {
    ('0' <= c <= '9') || ('a' <= c <= 'f') || ('A' <= c <= 'F')
}

proof fn lemma_hex_digit_written(c: char)
    requires
        is_hex_char(c),
    ensures
        hex_digit(c) is Some,
        hex_digit(c)->0 < 16,
        hex_char(hex_digit(c)->0) == crate::text::ascii_lower(c),
{
}

proof fn lemma_pair_written(a: char, b: char)
    requires
        is_hex_char(a),
        is_hex_char(b),
    ensures
        hex_pair(a, b) is Some,
        hex_char(hex_pair(a, b)->0 / 16) == crate::text::ascii_lower(a),
        hex_char(hex_pair(a, b)->0 % 16) == crate::text::ascii_lower(b),
{
    lemma_hex_digit_written(a);
    lemma_hex_digit_written(b);
    let x = hex_digit(a)->0;
    let y = hex_digit(b)->0;
    assert(a != '+');
    assert(x * 16 + y < 256) by (nonlinear_arith)
        requires
            x < 16,
            y < 16,
    ;
    assert((x * 16 + y) / 16 == x && (x * 16 + y) % 16 == y) by (nonlinear_arith)
        requires
            x < 16,
            y < 16,
    ;
}

/// Writing a parsed colour gives its text back, trimmed and in lower case,
/// when that text is `#` and six hexadecimal digits.
pub proof fn lemma_parsed_color_written(s: Seq<char>)
    requires
        crate::text::trim(s).len() == 7,
        crate::text::trim(s)[0] == '#',
        forall|i: int| 1 <= i < 7 ==> is_hex_char(#[trigger] crate::text::trim(s)[i]),
    ensures
        spec_parse_hex_color(s) is Some,
        spec_rgb_hex(spec_parse_hex_color(s)->0) == crate::text::ascii_lower_seq(crate::text::trim(s)),
{
    let t = crate::text::trim(s);
    assert(is_hex_char(t[1]) && is_hex_char(t[2]) && is_hex_char(t[3]));
    assert(is_hex_char(t[4]) && is_hex_char(t[5]) && is_hex_char(t[6]));
    lemma_pair_written(t[1], t[2]);
    lemma_pair_written(t[3], t[4]);
    lemma_pair_written(t[5], t[6]);
    let c = spec_parse_hex_color(s)->0;
    assert(spec_rgb_hex(c) =~= crate::text::ascii_lower_seq(t));
}

fn hex_digit_exec(c: char) -> (r: Option<u8>)
    ensures
        r == hex_digit(c),
{
    if '0' <= c && c <= '9' {
        Some((c as u8) - 48)
    } else if 'a' <= c && c <= 'f' {
        Some((c as u8) - 97 + 10)
    } else if 'A' <= c && c <= 'F' {
        Some((c as u8) - 65 + 10)
    } else {
        None
    }
}

fn hex_pair_exec(a: char, b: char) -> (r: Option<u8>)
    ensures
        r == hex_pair(a, b),
{
    if a == '+' {
        hex_digit_exec(b)
    } else {
        match (hex_digit_exec(a), hex_digit_exec(b)) {
            (Some(x), Some(y)) => Some(x * 16 + y),
            _ => None,
        }
    }
}

/// A colour value that is not of the form `#rrggbb`.
#[derive(Debug)]
pub struct ColorError {
    /// The offending value, trimmed.
    pub value: String,
}

impl ColorError {
    /// Human-readable description of the error.
    pub fn message(&self) -> (r: String)
        ensures
            r@ == "`"@ + self.value@ + "` is not a valid color"@,
    {
        let mut m = "`".to_owned();
        m.append(self.value.as_str());
        m.append("` is not a valid color");
        m
    }
}

/// Parses a `#rrggbb` colour.
pub fn parse_hex_color(value: &str) -> (r: Result<[u8; 3], ColorError>)
    ensures
        match r {
            Ok(c) => spec_parse_hex_color(value@) == Some(c),
            Err(e) => spec_parse_hex_color(value@) is None && e.value@ == crate::text::trim(value@),
        },
{
    let all = crate::text::chars_of(value);
    let t = crate::text::trim_chars(all.as_slice());
    if t.len() == 7 && t[0] == '#' {
        match (hex_pair_exec(t[1], t[2]), hex_pair_exec(t[3], t[4]), hex_pair_exec(t[5], t[6])) {
            (Some(r), Some(g), Some(b)) => return Ok([r, g, b]),
            _ => {},
        }
    }
    Err(ColorError { value: crate::text::string_from_chars(t.as_slice()) })
}

/// Lower-case hexadecimal digit.
pub open spec fn hex_char(d: u8) -> char {
    if d < 10 {
        (d + 48) as char
    } else {
        (d + 87) as char
    }
}

/// `#rrggbb` in lower-case hexadecimal.
pub open spec fn spec_rgb_hex(c: [u8; 3]) -> Seq<char> {
    seq![
        '#',
        hex_char(c[0] / 16),
        hex_char(c[0] % 16),
        hex_char(c[1] / 16),
        hex_char(c[1] % 16),
        hex_char(c[2] / 16),
        hex_char(c[2] % 16),
    ]
}

fn hex_char_exec(d: u8) -> (r: char)
    requires
        d < 16,
    ensures
        r == hex_char(d),
{
    if d < 10 {
        (d + 48) as char
    } else {
        (d + 87) as char
    }
}

/// Writes a colour as `#rrggbb` in lower-case hexadecimal.
pub fn rgb_hex(color: [u8; 3]) -> (r: String)
    ensures
        r@ == spec_rgb_hex(color),
{
    let v: Vec<char> = vec![
        '#',
        hex_char_exec(color[0] / 16),
        hex_char_exec(color[0] % 16),
        hex_char_exec(color[1] / 16),
        hex_char_exec(color[1] % 16),
        hex_char_exec(color[2] / 16),
        hex_char_exec(color[2] % 16),
    ];
    assert(v@ =~= spec_rgb_hex(color));
    crate::text::string_from_chars(v.as_slice())
}

/// Writing a colour with `rgb_hex` and parsing it back with
/// `parse_hex_color` gives the colour again.
pub proof fn lemma_rgb_hex_round_trip(c: [u8; 3])
    ensures
        spec_parse_hex_color(spec_rgb_hex(c)) == Some(c),
{
    let s = spec_rgb_hex(c);
    assert(!crate::text::is_ws(s[0]));
    assert(crate::text::trim_start(s) == s);
    assert(!crate::text::is_ws(s.last()));
    assert(crate::text::trim_end(s) == s);
    assert forall|i: int| 0 <= i < 3 implies hex_pair(hex_char(c[i] / 16), hex_char(c[i] % 16))
        == Some(c[i]) by {
        let hi = c[i] / 16;
        let lo = c[i] % 16;
        assert(hex_digit(hex_char(hi)) == Some(hi));
        assert(hex_digit(hex_char(lo)) == Some(lo));
        assert(hi * 16 + lo == c[i]);
    }
    assert([c[0], c[1], c[2]] =~= c);
}


/// Model of an optional string.
pub open spec fn ostr(s: Option<String>) -> Option<Seq<char>> {
    match s {
        Some(t) => Some(t@),
        None => None,
    }
}

/// A terminal colour theme: 16 palette colours plus background, foreground,
/// cursor and selection colours, each written as `#rrggbb`.
#[derive(Debug)]
pub struct Theme {
    pub name: Option<String>,
    pub background: String,
    pub foreground: String,
    pub selection: Option<String>,
    pub cursor: String,
    pub cursor_accent: Option<String>,
    pub black: String,
    pub bright_black: String,
    pub red: String,
    pub bright_red: String,
    pub green: String,
    pub bright_green: String,
    pub yellow: String,
    pub bright_yellow: String,
    pub blue: String,
    pub bright_blue: String,
    pub magenta: String,
    pub bright_magenta: String,
    pub cyan: String,
    pub bright_cyan: String,
    pub white: String,
    pub bright_white: String,
}

/// Model of a [`Theme`].
#[verifier::ext_equal]
pub struct ThemeView {
    pub name: Option<Seq<char>>,
    pub background: Seq<char>,
    pub foreground: Seq<char>,
    pub selection: Option<Seq<char>>,
    pub cursor: Seq<char>,
    pub cursor_accent: Option<Seq<char>>,
    pub black: Seq<char>,
    pub bright_black: Seq<char>,
    pub red: Seq<char>,
    pub bright_red: Seq<char>,
    pub green: Seq<char>,
    pub bright_green: Seq<char>,
    pub yellow: Seq<char>,
    pub bright_yellow: Seq<char>,
    pub blue: Seq<char>,
    pub bright_blue: Seq<char>,
    pub magenta: Seq<char>,
    pub bright_magenta: Seq<char>,
    pub cyan: Seq<char>,
    pub bright_cyan: Seq<char>,
    pub white: Seq<char>,
    pub bright_white: Seq<char>,
}

impl View for Theme {
    type V = ThemeView;

    open spec fn view(&self) -> ThemeView {
        ThemeView {
            name: ostr(self.name),
            background: self.background@,
            foreground: self.foreground@,
            selection: ostr(self.selection),
            cursor: self.cursor@,
            cursor_accent: ostr(self.cursor_accent),
            black: self.black@,
            bright_black: self.bright_black@,
            red: self.red@,
            bright_red: self.bright_red@,
            green: self.green@,
            bright_green: self.bright_green@,
            yellow: self.yellow@,
            bright_yellow: self.bright_yellow@,
            blue: self.blue@,
            bright_blue: self.bright_blue@,
            magenta: self.magenta@,
            bright_magenta: self.bright_magenta@,
            cyan: self.cyan@,
            bright_cyan: self.bright_cyan@,
            white: self.white@,
            bright_white: self.bright_white@,
        }
    }
}

/// The default theme.
pub open spec fn default_theme() -> ThemeView {
    ThemeView {
        name: None,
        background: "#171717"@,
        foreground: "#dddddd"@,
        selection: None,
        cursor: "#dddddd"@,
        cursor_accent: Some("#171717"@),
        black: "#282a2e"@,
        bright_black: "#4d4d4d"@,
        red: "#D74E6F"@,
        bright_red: "#FE5F86"@,
        green: "#31BB71"@,
        bright_green: "#00D787"@,
        yellow: "#D3E561"@,
        bright_yellow: "#EBFF71"@,
        blue: "#8056FF"@,
        bright_blue: "#9B79FF"@,
        magenta: "#ED61D7"@,
        bright_magenta: "#FF7AEA"@,
        cyan: "#04D7D7"@,
        bright_cyan: "#00FEFE"@,
        white: "#bfbfbf"@,
        bright_white: "#e6e6e6"@,
    }
}

/// The value of the first entry named `key`, when it is a string.
pub open spec fn field_value(entries: Seq<(Seq<char>, Option<Seq<char>>)>, key: Seq<char>) -> Option<Seq<char>>
    decreases entries.len(),
{
    if entries.len() == 0 {
        None
    } else if entries[0].0 == key {
        entries[0].1
    } else {
        field_value(entries.drop_first(), key)
    }
}

/// The value of the entry named `key`, or `default`.
pub open spec fn field_or(entries: Seq<(Seq<char>, Option<Seq<char>>)>, key: Seq<char>, default: Seq<char>) -> Seq<char> {
    match field_value(entries, key) {
        Some(v) => v,
        None => default,
    }
}

/// The theme described by JSON object entries: each field named in the
/// entries with a string value, the default theme's value otherwise.
pub open spec fn theme_from_entries(entries: Seq<(Seq<char>, Option<Seq<char>>)>) -> ThemeView {
    let d = default_theme();
    ThemeView {
        name: field_value(entries, "name"@),
        background: field_or(entries, "background"@, d.background),
        foreground: field_or(entries, "foreground"@, d.foreground),
        selection: field_value(entries, "selection"@),
        cursor: field_or(entries, "cursor"@, d.cursor),
        cursor_accent: match field_value(entries, "cursorAccent"@) { Some(v) => Some(v), None => d.cursor_accent },
        black: field_or(entries, "black"@, d.black),
        bright_black: field_or(entries, "brightBlack"@, d.bright_black),
        red: field_or(entries, "red"@, d.red),
        bright_red: field_or(entries, "brightRed"@, d.bright_red),
        green: field_or(entries, "green"@, d.green),
        bright_green: field_or(entries, "brightGreen"@, d.bright_green),
        yellow: field_or(entries, "yellow"@, d.yellow),
        bright_yellow: field_or(entries, "brightYellow"@, d.bright_yellow),
        blue: field_or(entries, "blue"@, d.blue),
        bright_blue: field_or(entries, "brightBlue"@, d.bright_blue),
        magenta: field_or(entries, "magenta"@, d.magenta),
        bright_magenta: field_or(entries, "brightMagenta"@, d.bright_magenta),
        cyan: field_or(entries, "cyan"@, d.cyan),
        bright_cyan: field_or(entries, "brightCyan"@, d.bright_cyan),
        white: field_or(entries, "white"@, d.white),
        bright_white: field_or(entries, "brightWhite"@, d.bright_white),
    }
}

/// The colour values of a theme in the order they are checked: the 16
/// palette colours, background, foreground, cursor, then selection and
/// cursor accent when present.
pub open spec fn checked_colors(t: ThemeView) -> Seq<Seq<char>> {
    let base = seq![t.black, t.red, t.green, t.yellow, t.blue, t.magenta, t.cyan, t.white, t.bright_black, t.bright_red, t.bright_green, t.bright_yellow, t.bright_blue, t.bright_magenta, t.bright_cyan, t.bright_white, t.background, t.foreground, t.cursor];
    let with_sel = match t.selection {
        Some(s) => base.push(s),
        None => base,
    };
    match t.cursor_accent {
        Some(a) => with_sel.push(a),
        None => with_sel,
    }
}

/// Looks up the value of the first entry named `key`.
pub fn lookup_field(entries: &Vec<(String, Option<String>)>, key: &str) -> (r: Option<String>)
    ensures
        ostr(r) == field_value(crate::json::entries_view(entries@), key@),
{
    let ghost ev = crate::json::entries_view(entries@);
    let mut i: usize = 0;
    assert(ev.subrange(0, ev.len() as int) =~= ev);
    while i < entries.len()
        invariant
            i <= entries@.len(),
            ev == crate::json::entries_view(entries@),
            field_value(ev, key@) == field_value(ev.subrange(i as int, ev.len() as int), key@),
        decreases entries@.len() - i,
    {
        let ghost rest = ev.subrange(i as int, ev.len() as int);
        assert(rest[0] == ev[i as int]);
        assert(rest.drop_first() =~= ev.subrange(i + 1, ev.len() as int));
        if crate::text::str_eq(entries[i].0.as_str(), key) {
            return match &entries[i].1 {
                Some(v) => Some(v.clone()),
                None => None,
            };
        }
        i += 1;
    }
    None
}

fn field_or_exec(entries: &Vec<(String, Option<String>)>, key: &str, default: &str) -> (r: String)
    ensures
        r@ == field_or(crate::json::entries_view(entries@), key@, default@),
{
    match lookup_field(entries, key) {
        Some(v) => v,
        None => default.to_owned(),
    }
}

/// The theme described by JSON object entries, missing fields taken from the
/// default theme (colours not yet checked).
pub fn theme_from_entry_list(entries: &Vec<(String, Option<String>)>) -> (r: Theme)
    ensures
        r@ == theme_from_entries(crate::json::entries_view(entries@)),
{
    let cursor_accent = match lookup_field(entries, "cursorAccent") {
        Some(v) => Some(v),
        None => Some("#171717".to_owned()),
    };
    Theme {
        name: lookup_field(entries, "name"),
        background: field_or_exec(entries, "background", "#171717"),
        foreground: field_or_exec(entries, "foreground", "#dddddd"),
        selection: lookup_field(entries, "selection"),
        cursor: field_or_exec(entries, "cursor", "#dddddd"),
        cursor_accent: cursor_accent,
        black: field_or_exec(entries, "black", "#282a2e"),
        bright_black: field_or_exec(entries, "brightBlack", "#4d4d4d"),
        red: field_or_exec(entries, "red", "#D74E6F"),
        bright_red: field_or_exec(entries, "brightRed", "#FE5F86"),
        green: field_or_exec(entries, "green", "#31BB71"),
        bright_green: field_or_exec(entries, "brightGreen", "#00D787"),
        yellow: field_or_exec(entries, "yellow", "#D3E561"),
        bright_yellow: field_or_exec(entries, "brightYellow", "#EBFF71"),
        blue: field_or_exec(entries, "blue", "#8056FF"),
        bright_blue: field_or_exec(entries, "brightBlue", "#9B79FF"),
        magenta: field_or_exec(entries, "magenta", "#ED61D7"),
        bright_magenta: field_or_exec(entries, "brightMagenta", "#FF7AEA"),
        cyan: field_or_exec(entries, "cyan", "#04D7D7"),
        bright_cyan: field_or_exec(entries, "brightCyan", "#00FEFE"),
        white: field_or_exec(entries, "white", "#bfbfbf"),
        bright_white: field_or_exec(entries, "brightWhite", "#e6e6e6"),
    }
}

impl Theme {
    /// The default theme.
    pub fn vhs_default() -> (r: Self)
        ensures
            r@ == default_theme(),
    {
        Theme {
            name: None,
            background: "#171717".to_owned(),
            foreground: "#dddddd".to_owned(),
            selection: None,
            cursor: "#dddddd".to_owned(),
            cursor_accent: Some("#171717".to_owned()),
            black: "#282a2e".to_owned(),
            bright_black: "#4d4d4d".to_owned(),
            red: "#D74E6F".to_owned(),
            bright_red: "#FE5F86".to_owned(),
            green: "#31BB71".to_owned(),
            bright_green: "#00D787".to_owned(),
            yellow: "#D3E561".to_owned(),
            bright_yellow: "#EBFF71".to_owned(),
            blue: "#8056FF".to_owned(),
            bright_blue: "#9B79FF".to_owned(),
            magenta: "#ED61D7".to_owned(),
            bright_magenta: "#FF7AEA".to_owned(),
            cyan: "#04D7D7".to_owned(),
            bright_cyan: "#00FEFE".to_owned(),
            white: "#bfbfbf".to_owned(),
            bright_white: "#e6e6e6".to_owned(),
        }
    }
}

/// The first value in `vs` that is not a valid colour (trimmed), if any.
pub open spec fn first_invalid_color(vs: Seq<Seq<char>>) -> Option<Seq<char>>
    decreases vs.len(),
{
    if vs.len() == 0 {
        None
    } else if spec_parse_hex_color(vs[0]) is None {
        Some(crate::text::trim(vs[0]))
    } else {
        first_invalid_color(vs.drop_first())
    }
}

pub open spec fn strs_view(vs: Seq<&str>) -> Seq<Seq<char>> {
    vs.map_values(|s: &str| s@)
}

/// Parses every colour of `vs`, stopping at the first invalid one.
pub fn parse_colors(vs: &Vec<&str>) -> (r: Result<Vec<[u8; 3]>, ColorError>)
    ensures
        match r {
            Ok(cs) => first_invalid_color(strs_view(vs@)) is None && cs@.len() == vs@.len() && (
            forall|i: int|
                0 <= i < vs@.len() ==> spec_parse_hex_color(#[trigger] vs@[i]@) == Some(cs@[i])),
            Err(e) => first_invalid_color(strs_view(vs@)) == Some(e.value@),
        },
{
    let ghost sv = strs_view(vs@);
    let mut out: Vec<[u8; 3]> = Vec::new();
    let mut i: usize = 0;
    assert(sv.subrange(0, sv.len() as int) =~= sv);
    while i < vs.len()
        invariant
            i <= vs@.len(),
            sv == strs_view(vs@),
            out@.len() == i,
            forall|j: int| 0 <= j < i ==> spec_parse_hex_color(#[trigger] vs@[j]@) == Some(out@[j]),
            first_invalid_color(sv) == first_invalid_color(sv.subrange(i as int, sv.len() as int)),
        decreases vs@.len() - i,
    {
        let ghost rest = sv.subrange(i as int, sv.len() as int);
        assert(rest[0] == vs@[i as int]@);
        assert(rest.drop_first() =~= sv.subrange(i + 1, sv.len() as int));
        match parse_hex_color(vs[i]) {
            Ok(c) => out.push(c),
            Err(e) => return Err(e),
        }
        i += 1;
    }
    assert(sv.subrange(i as int, sv.len() as int) =~= Seq::<Seq<char>>::empty());
    Ok(out)
}

/// The 16 palette colours of a theme, in ANSI order.
pub open spec fn palette_values(t: ThemeView) -> Seq<Seq<char>> {
    seq![
        t.black,
        t.red,
        t.green,
        t.yellow,
        t.blue,
        t.magenta,
        t.cyan,
        t.white,
        t.bright_black,
        t.bright_red,
        t.bright_green,
        t.bright_yellow,
        t.bright_blue,
        t.bright_magenta,
        t.bright_cyan,
        t.bright_white,
    ]
}

/// Result of parsing an optional colour.
pub open spec fn spec_opt_color(v: Option<Seq<char>>) -> Result<Option<[u8; 3]>, Seq<char>> {
    match v {
        None => Ok(None),
        Some(s) => match spec_parse_hex_color(s) {
            Some(c) => Ok(Some(c)),
            None => Err(crate::text::trim(s)),
        },
    }
}

fn opt_color(v: &Option<String>) -> (r: Result<Option<[u8; 3]>, ColorError>)
    ensures
        match r {
            Ok(c) => spec_opt_color(ostr(*v)) == Ok::<Option<[u8; 3]>, Seq<char>>(c),
            Err(e) => spec_opt_color(ostr(*v)) == Err::<Option<[u8; 3]>, Seq<char>>(e.value@),
        },
{
    match v {
        None => Ok(None),
        Some(s) => match parse_hex_color(s.as_str()) {
            Ok(c) => Ok(Some(c)),
            Err(e) => Err(e),
        },
    }
}

fn to_array16(cs: &Vec<[u8; 3]>) -> (r: [[u8; 3]; 16])
    requires
        cs@.len() == 16,
    ensures
        forall|i: int| 0 <= i < 16 ==> #[trigger] r[i] == cs@[i],
{
    [
        cs[0],
        cs[1],
        cs[2],
        cs[3],
        cs[4],
        cs[5],
        cs[6],
        cs[7],
        cs[8],
        cs[9],
        cs[10],
        cs[11],
        cs[12],
        cs[13],
        cs[14],
        cs[15],
    ]
}

impl Theme {
    fn palette_strs(&self) -> (r: Vec<&str>)
        ensures
            strs_view(r@) == palette_values(self@),
    {
        let vs: Vec<&str> = vec![
            self.black.as_str(),
            self.red.as_str(),
            self.green.as_str(),
            self.yellow.as_str(),
            self.blue.as_str(),
            self.magenta.as_str(),
            self.cyan.as_str(),
            self.white.as_str(),
            self.bright_black.as_str(),
            self.bright_red.as_str(),
            self.bright_green.as_str(),
            self.bright_yellow.as_str(),
            self.bright_blue.as_str(),
            self.bright_magenta.as_str(),
            self.bright_cyan.as_str(),
            self.bright_white.as_str(),
        ];
        assert(strs_view(vs@) =~= palette_values(self@));
        vs
    }

    /// The 16 palette colours as RGB, in ANSI order.
    pub fn palette_rgb(&self) -> (r: Result<[[u8; 3]; 16], ColorError>)
        ensures
            match r {
                Ok(p) => first_invalid_color(palette_values(self@)) is None && forall|i: int|
                    0 <= i < 16 ==> spec_parse_hex_color(#[trigger] palette_values(self@)[i]) == Some(
                        p[i],
                    ),
                Err(e) => first_invalid_color(palette_values(self@)) == Some(e.value@),
            },
    {
        let vs = self.palette_strs();
        let cs = parse_colors(&vs)?;
        let p = to_array16(&cs);
        assert forall|i: int| 0 <= i < 16 implies spec_parse_hex_color(
            #[trigger] palette_values(self@)[i],
        ) == Some(p[i]) by {
            assert(vs@[i]@ == strs_view(vs@)[i]);
        }
        Ok(p)
    }

    pub fn background_rgb(&self) -> (r: Result<[u8; 3], ColorError>)
        ensures
            match r {
                Ok(c) => spec_parse_hex_color(self.background@) == Some(c),
                Err(e) => spec_parse_hex_color(self.background@) is None && e.value@
                    == crate::text::trim(self.background@),
            },
    {
        parse_hex_color(self.background.as_str())
    }

    pub fn foreground_rgb(&self) -> (r: Result<[u8; 3], ColorError>)
        ensures
            match r {
                Ok(c) => spec_parse_hex_color(self.foreground@) == Some(c),
                Err(e) => spec_parse_hex_color(self.foreground@) is None && e.value@
                    == crate::text::trim(self.foreground@),
            },
    {
        parse_hex_color(self.foreground.as_str())
    }

    pub fn cursor_rgb(&self) -> (r: Result<[u8; 3], ColorError>)
        ensures
            match r {
                Ok(c) => spec_parse_hex_color(self.cursor@) == Some(c),
                Err(e) => spec_parse_hex_color(self.cursor@) is None && e.value@ == crate::text::trim(
                    self.cursor@,
                ),
            },
    {
        parse_hex_color(self.cursor.as_str())
    }

    pub fn cursor_accent_rgb(&self) -> (r: Result<Option<[u8; 3]>, ColorError>)
        ensures
            match r {
                Ok(c) => spec_opt_color(ostr(self.cursor_accent)) == Ok::<Option<[u8; 3]>, Seq<char>>(c),
                Err(e) => spec_opt_color(ostr(self.cursor_accent)) == Err::<Option<[u8; 3]>, Seq<char>>(e.value@),
            },
    {
        opt_color(&self.cursor_accent)
    }

    pub fn selection_rgb(&self) -> (r: Result<Option<[u8; 3]>, ColorError>)
        ensures
            match r {
                Ok(c) => spec_opt_color(ostr(self.selection)) == Ok::<Option<[u8; 3]>, Seq<char>>(c),
                Err(e) => spec_opt_color(ostr(self.selection)) == Err::<Option<[u8; 3]>, Seq<char>>(e.value@),
            },
    {
        opt_color(&self.selection)
    }
}

/// Checks every colour of a theme, in the order of `checked_colors`.
pub fn check_theme_colors(t: &Theme) -> (r: Result<(), ColorError>)
    ensures
        match r {
            Ok(_) => first_invalid_color(checked_colors(t@)) is None,
            Err(e) => first_invalid_color(checked_colors(t@)) == Some(e.value@),
        },
{
    let mut vs: Vec<&str> = vec![
        t.black.as_str(),
        t.red.as_str(),
        t.green.as_str(),
        t.yellow.as_str(),
        t.blue.as_str(),
        t.magenta.as_str(),
        t.cyan.as_str(),
        t.white.as_str(),
        t.bright_black.as_str(),
        t.bright_red.as_str(),
        t.bright_green.as_str(),
        t.bright_yellow.as_str(),
        t.bright_blue.as_str(),
        t.bright_magenta.as_str(),
        t.bright_cyan.as_str(),
        t.bright_white.as_str(),
        t.background.as_str(),
        t.foreground.as_str(),
        t.cursor.as_str(),
    ];
    let ghost base = strs_view(vs@);
    match &t.selection {
        Some(sel) => vs.push(sel.as_str()),
        None => {},
    }
    let ghost with_sel = strs_view(vs@);
    match &t.cursor_accent {
        Some(acc) => vs.push(acc.as_str()),
        None => {},
    }
    assert(strs_view(vs@) =~= checked_colors(t@));
    match parse_colors(&vs) {
        Ok(_) => Ok(()),
        Err(e) => Err(e),
    }
}

/// The theme described by JSON object entries, when all its colours are valid.
pub open spec fn spec_resolve(entries: Seq<(Seq<char>, Option<Seq<char>>)>) -> Result<ThemeView, Seq<char>> {
    let t = theme_from_entries(entries);
    match first_invalid_color(checked_colors(t)) {
        None => Ok(t),
        Some(bad) => Err(bad),
    }
}

/// Builds the theme described by JSON object entries and checks its colours.
pub fn resolve_entries(entries: &Vec<(String, Option<String>)>) -> (r: Result<Theme, ColorError>)
    ensures
        match r {
            Ok(t) => spec_resolve(crate::json::entries_view(entries@)) == Ok::<ThemeView, Seq<char>>(t@),
            Err(e) => spec_resolve(crate::json::entries_view(entries@)) == Err::<ThemeView, Seq<char>>(e.value@),
        },
{
    let t = theme_from_entry_list(entries);
    match check_theme_colors(&t) {
        Ok(_) => Ok(t),
        Err(e) => Err(e),
    }
}

/// The bundled preset themes, as a JSON array of theme objects.
pub const BUNDLED_THEMES: &'static str = "[{\"name\": \"Catppuccin Mocha\", \"black\": \"#45475a\", \"red\": \"#f38ba8\", \"green\": \"#a6e3a1\", \"yellow\": \"#f9e2af\", \"blue\": \"#89b4fa\", \"magenta\": \"#f5c2e7\", \"cyan\": \"#94e2d5\", \"white\": \"#bac2de\", \"brightBlack\": \"#585b70\", \"brightRed\": \"#f38ba8\", \"brightGreen\": \"#a6e3a1\", \"brightYellow\": \"#f9e2af\", \"brightBlue\": \"#89b4fa\", \"brightMagenta\": \"#f5c2e7\", \"brightCyan\": \"#94e2d5\", \"brightWhite\": \"#a6adc8\", \"background\": \"#1e1e2e\", \"foreground\": \"#cdd6f4\", \"cursor\": \"#f5e0dc\", \"selection\": \"#585b70\"}, {\"name\": \"Dracula\", \"black\": \"#21222c\", \"red\": \"#ff5555\", \"green\": \"#50fa7b\", \"yellow\": \"#f1fa8c\", \"blue\": \"#bd93f9\", \"magenta\": \"#ff79c6\", \"cyan\": \"#8be9fd\", \"white\": \"#f8f8f2\", \"brightBlack\": \"#6272a4\", \"brightRed\": \"#ff6e6e\", \"brightGreen\": \"#69ff94\", \"brightYellow\": \"#ffffa5\", \"brightBlue\": \"#d6acff\", \"brightMagenta\": \"#ff92df\", \"brightCyan\": \"#a4ffff\", \"brightWhite\": \"#ffffff\", \"background\": \"#282a36\", \"foreground\": \"#f8f8f2\", \"cursor\": \"#f8f8f2\", \"selection\": \"#44475a\"}, {\"name\": \"Whimsy\", \"black\": \"#535178\", \"red\": \"#ef6487\", \"green\": \"#5eca89\", \"yellow\": \"#fdd877\", \"blue\": \"#65aef7\", \"magenta\": \"#aa7ff0\", \"cyan\": \"#43c1be\", \"white\": \"#ffffff\", \"brightBlack\": \"#535178\", \"brightRed\": \"#ef6487\", \"brightGreen\": \"#5eca89\", \"brightYellow\": \"#fdd877\", \"brightBlue\": \"#65aef7\", \"brightMagenta\": \"#aa7ff0\", \"brightCyan\": \"#43c1be\", \"brightWhite\": \"#ffffff\", \"background\": \"#29283b\", \"foreground\": \"#b3b0d6\", \"cursor\": \"#b3b0d6\", \"selection\": \"#3d3c58\"}]";

/// Why a theme could not be resolved.
#[derive(Debug)]
pub enum ThemeError {
    /// `Set Theme {...}` was not a JSON object of string (or null) values.
    Json { spec: String, detail: String },
    /// A colour of the theme is not `#rrggbb`.
    Color(ColorError),
    /// The bundled presets could not be decoded.
    Bundled { detail: String },
    /// No preset has this name, and no name is close to it.
    NotFound { name: String },
    /// No preset has this name; these preset names contain it.
    DidYouMean { name: String, suggestions: Vec<String> },
}

/// Model of a [`ThemeError`] (decoder messages are left out).
pub enum ThemeErrorView {
    Json { spec: Seq<char> },
    Color { value: Seq<char> },
    Bundled,
    NotFound { name: Seq<char> },
    DidYouMean { name: Seq<char>, suggestions: Seq<Seq<char>> },
}

pub open spec fn strings_view(v: Seq<String>) -> Seq<Seq<char>> {
    v.map_values(|s: String| s@)
}

impl View for ThemeError {
    type V = ThemeErrorView;

    open spec fn view(&self) -> ThemeErrorView {
        match self {
            ThemeError::Json { spec, .. } => ThemeErrorView::Json { spec: spec@ },
            ThemeError::Color(e) => ThemeErrorView::Color { value: e.value@ },
            ThemeError::Bundled { .. } => ThemeErrorView::Bundled,
            ThemeError::NotFound { name } => ThemeErrorView::NotFound { name: name@ },
            ThemeError::DidYouMean { name, suggestions } => ThemeErrorView::DidYouMean {
                name: name@,
                suggestions: strings_view(suggestions@),
            },
        }
    }
}

pub open spec fn theme_result_view(r: Result<Theme, ThemeError>) -> Result<ThemeView, ThemeErrorView> {
    match r {
        Ok(t) => Ok(t@),
        Err(e) => Err(e@),
    }
}

/// The names, separated by `, `.
pub open spec fn join_comma(names: Seq<Seq<char>>) -> Seq<char>
    decreases names.len(),
{
    if names.len() == 0 {
        Seq::empty()
    } else if names.len() == 1 {
        names[0]
    } else {
        join_comma(names.drop_last()) + ", "@ + names.last()
    }
}

/// The message of a theme error.
pub open spec fn theme_error_text(e: ThemeError) -> Seq<char> {
    match e {
        ThemeError::Json { spec, detail } => "invalid `Set Theme "@ + spec@ + "`: "@ + detail@,
        ThemeError::Color(c) => "`"@ + c.value@ + "` is not a valid color"@,
        ThemeError::Bundled { detail } => "loading bundled VHS themes: "@ + detail@,
        ThemeError::NotFound { name } => "invalid `Set Theme "@ + name@ + "`: theme does not exist"@,
        ThemeError::DidYouMean { name, suggestions } => "invalid `Set Theme "@ + name@ + "`: did you mean "@ + join_comma(
            strings_view(suggestions@),
        ),
    }
}

impl ThemeError {
    /// Human-readable description of the error.
    pub fn message(&self) -> (r: String)
        ensures
            r@ == theme_error_text(*self),
    {
        match self {
            ThemeError::Json { spec, detail } => {
                let mut m = "invalid `Set Theme ".to_owned();
                m.append(spec.as_str());
                m.append("`: ");
                m.append(detail.as_str());
                m
            },
            ThemeError::Color(e) => e.message(),
            ThemeError::Bundled { detail } => {
                let mut m = "loading bundled VHS themes: ".to_owned();
                m.append(detail.as_str());
                m
            },
            ThemeError::NotFound { name } => {
                let mut m = "invalid `Set Theme ".to_owned();
                m.append(name.as_str());
                m.append("`: theme does not exist");
                m
            },
            ThemeError::DidYouMean { name, suggestions } => {
                let mut m = "invalid `Set Theme ".to_owned();
                m.append(name.as_str());
                m.append("`: did you mean ");
                let ghost head = m@;
                let ghost sv = strings_view(suggestions@);
                let mut i: usize = 0;
                assert(sv.take(0) =~= Seq::<Seq<char>>::empty());
                while i < suggestions.len()
                    invariant
                        i <= suggestions@.len(),
                        sv == strings_view(suggestions@),
                        m@ == head + join_comma(sv.take(i as int)),
                    decreases suggestions.len() - i,
                {
                    let ghost before = m@;
                    if i > 0 {
                        m.append(", ");
                    }
                    m.append(suggestions[i].as_str());
                    assert(sv.take(i + 1).drop_last() =~= sv.take(i as int));
                    assert(sv.take(i + 1).last() == suggestions@[i as int]@);
                    if i == 0 {
                        assert(join_comma(sv.take(1)) == sv.take(1)[0]);
                        assert(m@ =~= head + join_comma(sv.take(i + 1)));
                    } else {
                        assert(m@ =~= head + join_comma(sv.take(i + 1)));
                    }
                    i += 1;
                }
                assert(sv.take(i as int) =~= sv);
                m
            },
        }
    }
}

/// Resolves every object of a theme list, stopping at the first invalid colour.
pub open spec fn resolve_all(objs: Seq<Seq<(Seq<char>, Option<Seq<char>>)>>) -> Result<Seq<ThemeView>, Seq<char>>
    decreases objs.len(),
{
    if objs.len() == 0 {
        Ok(Seq::empty())
    } else {
        match spec_resolve(objs[0]) {
            Err(bad) => Err(bad),
            Ok(t) => match resolve_all(objs.drop_first()) {
                Err(bad) => Err(bad),
                Ok(ts) => Ok(seq![t] + ts),
            },
        }
    }
}

/// The bundled preset themes.
pub open spec fn spec_load_themes() -> Result<Seq<ThemeView>, ThemeErrorView> {
    match crate::json::spec_json_string_objects(BUNDLED_THEMES@) {
        None => Err(ThemeErrorView::Bundled),
        Some(objs) => match resolve_all(objs) {
            Ok(ts) => Ok(ts),
            Err(bad) => Err(ThemeErrorView::Color { value: bad }),
        },
    }
}

pub open spec fn themes_view(v: Seq<Theme>) -> Seq<ThemeView> {
    v.map_values(|t: Theme| t@)
}

/// Decodes and checks the bundled preset themes.
pub fn load_themes() -> (r: Result<Vec<Theme>, ThemeError>)
    ensures
        match r {
            Ok(ts) => spec_load_themes() == Ok::<Seq<ThemeView>, ThemeErrorView>(themes_view(ts@)),
            Err(e) => spec_load_themes() == Err::<Seq<ThemeView>, ThemeErrorView>(e@),
        },
{
    let objs = match crate::json::json_string_objects(BUNDLED_THEMES) {
        Ok(o) => o,
        Err(detail) => return Err(ThemeError::Bundled { detail }),
    };
    let ghost ov = objs@.map_values(|o: Vec<(String, Option<String>)>| crate::json::entries_view(o@));
    let mut out: Vec<Theme> = Vec::new();
    let mut i: usize = 0;
    assert(ov.subrange(0, ov.len() as int) =~= ov);
    assert(themes_view(out@) =~= Seq::<ThemeView>::empty());
    assert forall|ts: Seq<ThemeView>| themes_view(out@) + ts =~= ts by {}
    while i < objs.len()
        invariant
            i <= objs@.len(),
            ov == objs@.map_values(|o: Vec<(String, Option<String>)>| crate::json::entries_view(o@)),
            crate::json::spec_json_string_objects(BUNDLED_THEMES@) == Some(ov),
            out@.len() == i,
            forall|j: int| 0 <= j < i ==> #[trigger] out@[j]@ == spec_resolve(ov[j])->Ok_0,
            forall|j: int| 0 <= j < i ==> (#[trigger] spec_resolve(ov[j])) is Ok,
            resolve_all(ov) == match resolve_all(ov.subrange(i as int, ov.len() as int)) {
                Err(bad) => Err(bad),
                Ok(ts) => Ok(themes_view(out@) + ts),
            },
        decreases objs@.len() - i,
    {
        let ghost rest = ov.subrange(i as int, ov.len() as int);
        assert(rest[0] == ov[i as int]);
        assert(rest.drop_first() =~= ov.subrange(i + 1, ov.len() as int));
        let ghost prev = out@;
        match resolve_entries(&objs[i]) {
            Ok(t) => {
                out.push(t);
                assert(themes_view(out@) =~= themes_view(prev) + seq![t@]);
                assert forall|x: Seq<ThemeView>| themes_view(prev) + (seq![t@] + x) =~= themes_view(out@) + x by {}
            },
            Err(e) => {
                assert(resolve_all(rest) == Err::<Seq<ThemeView>, Seq<char>>(e.value@));
                return Err(ThemeError::Color(e));
            },
        }
        i += 1;
    }
    assert(ov.subrange(i as int, ov.len() as int) =~= Seq::<Seq<(Seq<char>, Option<Seq<char>>)>>::empty());
    assert(themes_view(out@) + Seq::<ThemeView>::empty() =~= themes_view(out@));
    Ok(out)
}

/// Lexicographic order of character sequences (by code point).
pub open spec fn lex_lt(a: Seq<char>, b: Seq<char>) -> bool
    decreases a.len(),
{
    if a.len() == 0 {
        b.len() > 0
    } else if b.len() == 0 {
        false
    } else if a[0] != b[0] {
        (a[0] as u32) < (b[0] as u32)
    } else {
        lex_lt(a.drop_first(), b.drop_first())
    }
}

pub fn lex_lt_exec(a: &[char], b: &[char]) -> (r: bool)
    ensures
        r == lex_lt(a@, b@),
{
    let mut i: usize = 0;
    assert(a@.skip(0) =~= a@);
    assert(b@.skip(0) =~= b@);
    while i < a.len() && i < b.len() && a[i] == b[i]
        invariant
            i <= a@.len(),
            i <= b@.len(),
            lex_lt(a@, b@) == lex_lt(a@.skip(i as int), b@.skip(i as int)),
        decreases a@.len() - i,
    {
        assert(a@.skip(i as int).drop_first() =~= a@.skip(i + 1));
        assert(b@.skip(i as int).drop_first() =~= b@.skip(i + 1));
        i += 1;
    }
    let ghost sa = a@.skip(i as int);
    let ghost sb = b@.skip(i as int);
    if i == a.len() {
        assert(sa.len() == 0);
        i < b.len()
    } else if i == b.len() {
        false
    } else {
        assert(sa[0] == a@[i as int] && sb[0] == b@[i as int]);
        (a[i] as u32) < (b[i] as u32)
    }
}

/// Sort key of a theme name: its ASCII lower-case form.
pub open spec fn name_key(n: Seq<char>) -> Seq<char> {
    crate::text::ascii_lower_seq(n)
}

/// `s` with `x` inserted after every name whose key is not greater than
/// `x`'s (a stable insertion into a sorted list).
pub open spec fn insert_sorted(s: Seq<Seq<char>>, x: Seq<char>) -> Seq<Seq<char>>
    decreases s.len(),
{
    if s.len() == 0 {
        seq![x]
    } else if !lex_lt(name_key(x), name_key(s.last())) {
        s.push(x)
    } else {
        insert_sorted(s.drop_last(), x).push(s.last())
    }
}

/// `ns` sorted by ASCII lower-case key, names with equal keys kept in their
/// original order.
pub open spec fn sort_names(ns: Seq<Seq<char>>) -> Seq<Seq<char>>
    decreases ns.len(),
{
    if ns.len() == 0 {
        Seq::empty()
    } else {
        insert_sorted(sort_names(ns.drop_last()), ns.last())
    }
}

/// The names of the themes that have one, in order.
pub open spec fn theme_names(ts: Seq<ThemeView>) -> Seq<Seq<char>>
    decreases ts.len(),
{
    if ts.len() == 0 {
        Seq::empty()
    } else {
        let rest = theme_names(ts.drop_last());
        match ts.last().name {
            Some(n) => rest.push(n),
            None => rest,
        }
    }
}

fn insert_name(v: &mut Vec<String>, x: String)
    ensures
        strings_view(final(v)@) == insert_sorted(strings_view(old(v)@), x@),
{
    let ghost s = strings_view(v@);
    let xc = crate::text::chars_of(x.as_str());
    let xk = crate::text::ascii_lower_chars(xc.as_slice());
    let mut p: usize = v.len();
    assert(s.take(p as int) =~= s);
    assert(s.skip(p as int) =~= Seq::<Seq<char>>::empty());
    loop
        invariant_except_break
            p <= v@.len(),
            s == strings_view(v@),
            xk@ == name_key(x@),
            insert_sorted(s, x@) == insert_sorted(s.take(p as int), x@) + s.skip(p as int),
        ensures
            p <= v@.len(),
            s == strings_view(v@),
            insert_sorted(s, x@) == insert_sorted(s.take(p as int), x@) + s.skip(p as int),
            p == 0 || !lex_lt(name_key(x@), name_key(s[p - 1])),
        decreases p,
    {
        if p == 0 {
            break;
        }
        let yc = crate::text::chars_of(v[p - 1].as_str());
        let yk = crate::text::ascii_lower_chars(yc.as_slice());
        assert(s[p - 1] == v@[p - 1]@);
        if !lex_lt_exec(xk.as_slice(), yk.as_slice()) {
            break;
        }
        proof {
            let t = s.take(p as int);
            assert(t.last() == s[p - 1]);
            assert(t.drop_last() =~= s.take(p - 1));
            assert(s.skip(p - 1) =~= seq![s[p - 1]] + s.skip(p as int));
            assert(insert_sorted(t, x@) == insert_sorted(s.take(p - 1), x@).push(s[p - 1]));
            assert(insert_sorted(s.take(p - 1), x@).push(s[p - 1]) + s.skip(p as int)
                =~= insert_sorted(s.take(p - 1), x@) + s.skip(p - 1));
        }
        p -= 1;
    }
    proof {
        let t = s.take(p as int);
        if p == 0 {
            assert(t =~= Seq::<Seq<char>>::empty());
        } else {
            assert(t.last() == s[p - 1]);
        }
        assert(insert_sorted(t, x@) == t.push(x@));
    }
    let ghost xv = x@;
    v.insert(p, x);
    assert(strings_view(v@) =~= s.take(p as int).push(xv) + s.skip(p as int));
}

/// Sorts names by ASCII lower-case key, keeping names with equal keys in
/// their original order.
pub fn sort_names_exec(ns: Vec<String>) -> (r: Vec<String>)
    ensures
        strings_view(r@) == sort_names(strings_view(ns@)),
{
    let ghost nv = strings_view(ns@);
    let mut out: Vec<String> = Vec::new();
    let mut i: usize = 0;
    while i < ns.len()
        invariant
            i <= ns@.len(),
            nv == strings_view(ns@),
            strings_view(out@) == sort_names(nv.take(i as int)),
        decreases ns@.len() - i,
    {
        assert(nv.take(i + 1).drop_last() =~= nv.take(i as int));
        assert(nv.take(i + 1).last() == ns@[i as int]@);
        insert_name(&mut out, ns[i].clone());
        i += 1;
    }
    assert(nv.take(i as int) =~= nv);
    out
}

fn theme_names_exec(ts: &Vec<Theme>) -> (r: Vec<String>)
    ensures
        strings_view(r@) == theme_names(themes_view(ts@)),
{
    let ghost tv = themes_view(ts@);
    let mut out: Vec<String> = Vec::new();
    let mut i: usize = 0;
    while i < ts.len()
        invariant
            i <= ts@.len(),
            tv == themes_view(ts@),
            strings_view(out@) == theme_names(tv.take(i as int)),
        decreases ts@.len() - i,
    {
        assert(tv.take(i + 1).drop_last() =~= tv.take(i as int));
        assert(tv.take(i + 1).last() == ts@[i as int]@);
        let ghost before = out@;
        match &ts[i].name {
            Some(n) => {
                out.push(n.clone());
                assert(strings_view(out@) =~= strings_view(before).push(n@));
            },
            None => {},
        }
        i += 1;
    }
    assert(tv.take(i as int) =~= tv);
    out
}

/// The names of the bundled presets, sorted by ASCII lower-case name.
pub open spec fn spec_preset_names() -> Result<Seq<Seq<char>>, ThemeErrorView> {
    match spec_load_themes() {
        Ok(ts) => Ok(sort_names(theme_names(ts))),
        Err(e) => Err(e),
    }
}

impl Theme {
    /// The names of the bundled preset themes, sorted case-insensitively.
    pub fn preset_names() -> (r: Result<Vec<String>, ThemeError>)
        ensures
            match r {
                Ok(v) => spec_preset_names() == Ok::<Seq<Seq<char>>, ThemeErrorView>(strings_view(v@)),
                Err(e) => spec_preset_names() == Err::<Seq<Seq<char>>, ThemeErrorView>(e@),
            },
    {
        let themes = load_themes()?;
        let names = theme_names_exec(&themes);
        Ok(sort_names_exec(names))
    }
}


/// The first theme named exactly `name`.
pub open spec fn first_named(ts: Seq<ThemeView>, name: Seq<char>) -> Option<ThemeView>
    decreases ts.len(),
{
    if ts.len() == 0 {
        None
    } else if ts[0].name == Some(name) {
        Some(ts[0])
    } else {
        first_named(ts.drop_first(), name)
    }
}

/// Whether two strings are equal ignoring ASCII case.
pub open spec fn eq_ignore_ascii_case(a: Seq<char>, b: Seq<char>) -> bool {
    crate::text::ascii_lower_seq(a) == crate::text::ascii_lower_seq(b)
}

/// The first theme whose name equals `name` ignoring ASCII case.
pub open spec fn first_named_ignoring_case(ts: Seq<ThemeView>, name: Seq<char>) -> Option<ThemeView>
    decreases ts.len(),
{
    if ts.len() == 0 {
        None
    } else if ts[0].name is Some && eq_ignore_ascii_case(ts[0].name->Some_0, name) {
        Some(ts[0])
    } else {
        first_named_ignoring_case(ts.drop_first(), name)
    }
}

/// Whether `needle` occurs in `hay` as a contiguous run.
pub open spec fn contains_seq(hay: Seq<char>, needle: Seq<char>) -> bool {
    exists|i: int|
        0 <= i && i + needle.len() <= hay.len() && #[trigger] hay.subrange(i, i + needle.len())
            == needle
}

/// The names that contain `needle` ignoring ASCII case, in order.
pub open spec fn names_containing(names: Seq<Seq<char>>, needle: Seq<char>) -> Seq<Seq<char>>
    decreases names.len(),
{
    if names.len() == 0 {
        Seq::empty()
    } else {
        let rest = names_containing(names.drop_last(), needle);
        if contains_seq(
            crate::text::ascii_lower_seq(names.last()),
            crate::text::ascii_lower_seq(needle),
        ) {
            rest.push(names.last())
        } else {
            rest
        }
    }
}

/// At most the first five elements of `s`.
pub open spec fn first_five(s: Seq<Seq<char>>) -> Seq<Seq<char>> {
    if s.len() <= 5 {
        s
    } else {
        s.take(5)
    }
}

/// The preset names offered when no theme is named `name`: the first five
/// sorted names that contain it, ignoring ASCII case.
pub open spec fn theme_suggestions(ts: Seq<ThemeView>, name: Seq<char>) -> Seq<Seq<char>> {
    first_five(names_containing(sort_names(theme_names(ts)), name))
}

/// Looking `name` up among `ts`: an exact match first, then one that differs
/// only in ASCII case; otherwise an error with suggestions, if any.
pub open spec fn spec_find_in(ts: Seq<ThemeView>, name: Seq<char>) -> Result<ThemeView, ThemeErrorView> {
    match first_named(ts, name) {
        Some(t) => Ok(t),
        None => match first_named_ignoring_case(ts, name) {
            Some(t) => Ok(t),
            None => {
                let s = theme_suggestions(ts, name);
                if s.len() == 0 {
                    Err(ThemeErrorView::NotFound { name })
                } else {
                    Err(ThemeErrorView::DidYouMean { name, suggestions: s })
                }
            },
        },
    }
}

/// Looking `name` up among the bundled presets.
pub open spec fn spec_find_theme(name: Seq<char>) -> Result<ThemeView, ThemeErrorView> {
    match spec_load_themes() {
        Err(e) => Err(e),
        Ok(ts) => spec_find_in(ts, name),
    }
}

/// Whether `needle` occurs in `hay`.
pub fn contains_chars(hay: &[char], needle: &[char]) -> (r: bool)
    ensures
        r == contains_seq(hay@, needle@),
{
    let n = needle.len();
    if n > hay.len() {
        return false;
    }
    let mut i: usize = 0;
    while i <= hay.len() - n
        invariant
            n == needle@.len(),
            n <= hay@.len(),
            i <= hay@.len() - n + 1,
            forall|j: int| 0 <= j < i ==> #[trigger] hay@.subrange(j, j + n) != needle@,
        decreases hay@.len() - n + 1 - i,
    {
        let mut k: usize = 0;
        let mut same = true;
        while same && k < n
            invariant
                n == needle@.len(),
                i + n <= hay.len(),
                k <= n,
                forall|m: int| 0 <= m < k ==> hay@[i + m] == needle@[m],
                !same ==> k < n && hay@[i + k] != needle@[k as int],
            decreases n - k + (if same { 1int } else { 0int }),
        {
            if hay[i + k] == needle[k] {
                k += 1;
            } else {
                same = false;
            }
        }
        if same {
            assert(hay@.subrange(i as int, i + n) =~= needle@);
            return true;
        }
        assert(hay@.subrange(i as int, i + n)[k as int] != needle@[k as int]);
        i += 1;
    }
    false
}

fn index_named(ts: &Vec<Theme>, name: &str) -> (r: Option<usize>)
    ensures
        match r {
            Some(i) => i < ts@.len() && first_named(themes_view(ts@), name@) == Some(ts@[i as int]@),
            None => first_named(themes_view(ts@), name@) is None,
        },
{
    let ghost tv = themes_view(ts@);
    let mut i: usize = 0;
    assert(tv.skip(0) =~= tv);
    while i < ts.len()
        invariant
            i <= ts@.len(),
            tv == themes_view(ts@),
            first_named(tv, name@) == first_named(tv.skip(i as int), name@),
        decreases ts@.len() - i,
    {
        assert(tv.skip(i as int)[0] == ts@[i as int]@);
        assert(tv.skip(i as int).drop_first() =~= tv.skip(i + 1));
        match &ts[i].name {
            Some(n) => {
                if crate::text::str_eq(n.as_str(), name) {
                    return Some(i);
                }
            },
            None => {},
        }
        i += 1;
    }
    None
}

fn index_named_ignoring_case(ts: &Vec<Theme>, name: &str) -> (r: Option<usize>)
    ensures
        match r {
            Some(i) => i < ts@.len() && first_named_ignoring_case(themes_view(ts@), name@) == Some(
                ts@[i as int]@,
            ),
            None => first_named_ignoring_case(themes_view(ts@), name@) is None,
        },
{
    let ghost tv = themes_view(ts@);
    let nc = crate::text::chars_of(name);
    let nl = crate::text::ascii_lower_chars(nc.as_slice());
    let mut i: usize = 0;
    assert(tv.skip(0) =~= tv);
    while i < ts.len()
        invariant
            i <= ts@.len(),
            tv == themes_view(ts@),
            nl@ == crate::text::ascii_lower_seq(name@),
            first_named_ignoring_case(tv, name@) == first_named_ignoring_case(tv.skip(i as int), name@),
        decreases ts@.len() - i,
    {
        assert(tv.skip(i as int)[0] == ts@[i as int]@);
        assert(tv.skip(i as int).drop_first() =~= tv.skip(i + 1));
        match &ts[i].name {
            Some(n) => {
                let c = crate::text::chars_of(n.as_str());
                let l = crate::text::ascii_lower_chars(c.as_slice());
                if crate::text::chars_eq(l.as_slice(), nl.as_slice()) {
                    return Some(i);
                }
            },
            None => {},
        }
        i += 1;
    }
    None
}

/// The first five of `names` that contain `needle`, ignoring ASCII case.
pub fn first_five_containing(names: &Vec<String>, needle: &str) -> (r: Vec<String>)
    ensures
        strings_view(r@) == first_five(names_containing(strings_view(names@), needle@)),
{
    let ghost nv = strings_view(names@);
    let nc = crate::text::chars_of(needle);
    let nl = crate::text::ascii_lower_chars(nc.as_slice());
    let mut out: Vec<String> = Vec::new();
    let mut i: usize = 0;
    while i < names.len()
        invariant
            i <= names@.len(),
            nv == strings_view(names@),
            nl@ == crate::text::ascii_lower_seq(needle@),
            strings_view(out@) == first_five(names_containing(nv.take(i as int), needle@)),
        decreases names@.len() - i,
    {
        let ghost prev = names_containing(nv.take(i as int), needle@);
        assert(nv.take(i + 1).drop_last() =~= nv.take(i as int));
        assert(nv.take(i + 1).last() == names@[i as int]@);
        let c = crate::text::chars_of(names[i].as_str());
        let l = crate::text::ascii_lower_chars(c.as_slice());
        if contains_chars(l.as_slice(), nl.as_slice()) {
            if out.len() < 5 {
                let ghost before = out@;
                out.push(names[i].clone());
                proof {
                    assert(strings_view(before).len() == before.len());
                    assert(prev.len() < 5);
                    assert(strings_view(out@) =~= strings_view(before).push(names@[i as int]@));
                }
            } else {
                proof {
                    assert(prev.len() >= 5);
                    assert(prev.push(names@[i as int]@).take(5) =~= prev.take(5));
                }
            }
        }
        i += 1;
    }
    assert(nv.take(i as int) =~= nv);
    out
}

/// Looks `name` up among `themes`: an exact match first, then one that
/// differs only in ASCII case; otherwise suggests up to five preset names
/// (sorted ignoring case) that contain `name`.
pub fn find_theme_in(themes: Vec<Theme>, name: &str) -> (r: Result<Theme, ThemeError>)
    ensures
        theme_result_view(r) == spec_find_in(themes_view(themes@), name@),
{
    let mut themes = themes;
    let ghost tv = themes_view(themes@);
    match index_named(&themes, name) {
        Some(i) => {
            return Ok(themes.remove(i));
        },
        None => {},
    }
    match index_named_ignoring_case(&themes, name) {
        Some(i) => {
            return Ok(themes.remove(i));
        },
        None => {},
    }
    let names = sort_names_exec(theme_names_exec(&themes));
    let suggestions = first_five_containing(&names, name);
    if suggestions.len() == 0 {
        Err(ThemeError::NotFound { name: name.to_string() })
    } else {
        Err(ThemeError::DidYouMean { name: name.to_string(), suggestions })
    }
}

fn find_theme(name: &str) -> (r: Result<Theme, ThemeError>)
    ensures
        theme_result_view(r) == spec_find_theme(name@),
{
    let themes = load_themes()?;
    find_theme_in(themes, name)
}


/// A theme given inline as a JSON object, over the defaults.
pub open spec fn spec_parse_theme_json(spec: Seq<char>) -> Result<ThemeView, ThemeErrorView> {
    match crate::json::spec_json_object_fields(spec) {
        None => Err(ThemeErrorView::Json { spec }),
        Some(fields) => match theme_entries(fields) {
            None => Err(ThemeErrorView::Json { spec }),
            Some(entries) => match spec_resolve(entries) {
                Ok(t) => Ok(t),
                Err(bad) => Err(ThemeErrorView::Color { value: bad }),
            },
        },
    }
}

/// The member names a theme object gives meaning to.
pub open spec fn is_theme_key(k: Seq<char>) -> bool {
    k == "name"@ || k == "background"@ || k == "foreground"@ || k == "selection"@ || k == "cursor"@ || k == "cursorAccent"@ || k == "black"@ || k == "brightBlack"@ || k == "red"@ || k == "brightRed"@ || k == "green"@ || k == "brightGreen"@ || k == "yellow"@ || k == "brightYellow"@ || k == "blue"@ || k == "brightBlue"@ || k == "magenta"@ || k == "brightMagenta"@ || k == "cyan"@ || k == "brightCyan"@ || k == "white"@ || k == "brightWhite"@
}

/// The theme members of a JSON object's members, each a string or null:
/// other members are ignored; `None` when a theme member holds anything
/// else.
pub open spec fn theme_entries(fields: Seq<(Seq<char>, crate::json::JsonFieldView)>) -> Option<Seq<(Seq<char>, Option<Seq<char>>)>>
    decreases fields.len(),
{
    if fields.len() == 0 {
        Some(Seq::empty())
    } else {
        let (k, v) = fields[0];
        match theme_entries(fields.drop_first()) {
            None => None,
            Some(rest) => if !is_theme_key(k) {
                Some(rest)
            } else {
                match v {
                    crate::json::JsonFieldView::Str(x) => Some(seq![(k, Some(x))] + rest),
                    crate::json::JsonFieldView::Null => Some(seq![(k, None::<Seq<char>>)] + rest),
                    crate::json::JsonFieldView::Other => None,
                }
            },
        }
    }
}

proof fn lemma_theme_entries_none(fv: Seq<(Seq<char>, crate::json::JsonFieldView)>, j: int)
    requires
        0 <= j <= fv.len(),
        theme_entries(fv.skip(j)) is None,
    ensures
        theme_entries(fv) is None,
    decreases j,
{
    if j > 0 {
        assert(fv.skip(j - 1).drop_first() =~= fv.skip(j));
        assert(theme_entries(fv.skip(j - 1)) is None);
        lemma_theme_entries_none(fv, j - 1);
    } else {
        assert(fv.skip(0) =~= fv);
    }
}

fn is_theme_key_exec(k: &str) -> (r: bool)
    ensures
        r == is_theme_key(k@),
{
    crate::text::str_eq(k, "name") || crate::text::str_eq(k, "background") || crate::text::str_eq(k, "foreground") || crate::text::str_eq(k, "selection") || crate::text::str_eq(k, "cursor") || crate::text::str_eq(k, "cursorAccent") || crate::text::str_eq(k, "black") || crate::text::str_eq(k, "brightBlack") || crate::text::str_eq(k, "red") || crate::text::str_eq(k, "brightRed") || crate::text::str_eq(k, "green") || crate::text::str_eq(k, "brightGreen") || crate::text::str_eq(k, "yellow") || crate::text::str_eq(k, "brightYellow") || crate::text::str_eq(k, "blue") || crate::text::str_eq(k, "brightBlue") || crate::text::str_eq(k, "magenta") || crate::text::str_eq(k, "brightMagenta") || crate::text::str_eq(k, "cyan") || crate::text::str_eq(k, "brightCyan") || crate::text::str_eq(k, "white") || crate::text::str_eq(k, "brightWhite")
}

/// Keeps the theme members of a JSON object's members.
fn theme_entries_exec(fields: &Vec<(String, crate::json::JsonField)>) -> (r: Option<Vec<(String, Option<String>)>>)
    ensures
        match r {
            Some(v) => theme_entries(crate::json::fields_view(fields@)) == Some(crate::json::entries_view(v@)),
            None => theme_entries(crate::json::fields_view(fields@)) is None,
        },
{
    let ghost fv = crate::json::fields_view(fields@);
    let mut out: Vec<(String, Option<String>)> = Vec::new();
    let mut i: usize = fields.len();
    assert(fv.skip(fv.len() as int) =~= Seq::<(Seq<char>, crate::json::JsonFieldView)>::empty());
    while i > 0
        invariant
            i <= fields@.len(),
            fv == crate::json::fields_view(fields@),
            theme_entries(fv.skip(i as int)) == Some(crate::json::entries_view(out@)),
        decreases i,
    {
        let j = i - 1;
        assert(fv.skip(j as int).drop_first() =~= fv.skip(i as int));
        assert(fv.skip(j as int)[0] == fv[j as int]);
        let k = fields[j].0.as_str();
        let ghost before = out@;
        if is_theme_key_exec(k) {
            match &fields[j].1 {
                crate::json::JsonField::Str(x) => {
                    out.insert(0, (k.to_string(), Some(x.clone())));
                },
                crate::json::JsonField::Null => {
                    out.insert(0, (k.to_string(), None));
                },
                crate::json::JsonField::Other => {
                    proof {
                        assert(theme_entries(fv.skip(j as int)) is None);
                        lemma_theme_entries_none(fv, j as int);
                    }
                    return None;
                },
            }
            assert(crate::json::entries_view(out@) =~= seq![crate::json::entries_view(out@)[0]] + crate::json::entries_view(before));
        }
        i = j;
    }
    assert(fv.skip(0) =~= fv);
    Some(out)
}

/// The theme a `Set Theme` value names: the default when blank, an inline
/// JSON object when it starts with `{`, otherwise a preset name.
pub open spec fn spec_theme_from_spec(spec: Seq<char>) -> Result<ThemeView, ThemeErrorView> {
    let s = crate::text::trim(spec);
    if s.len() == 0 {
        Ok(default_theme())
    } else if s[0] == '{' {
        spec_parse_theme_json(s)
    } else {
        spec_find_theme(s)
    }
}

fn parse_theme_json(spec: &str) -> (r: Result<Theme, ThemeError>)
    ensures
        theme_result_view(r) == spec_parse_theme_json(spec@),
{
    match crate::json::json_object_fields(spec) {
        Err(detail) => Err(ThemeError::Json { spec: spec.to_string(), detail }),
        Ok(fields) => match theme_entries_exec(&fields) {
            None => Err(ThemeError::Json {
                spec: spec.to_string(),
                detail: "a theme colour or name is neither a string nor null".to_string(),
            }),
            Some(entries) => match resolve_entries(&entries) {
                Ok(t) => Ok(t),
                Err(e) => Err(ThemeError::Color(e)),
            },
        },
    }
}

// ---------------------------------------------------------------------------
// Every theme that resolves has colours that parse
// ---------------------------------------------------------------------------

proof fn lemma_no_invalid_color(vs: Seq<Seq<char>>)
    ensures
        first_invalid_color(vs) is None <==> forall|i: int| 0 <= i < vs.len() ==> (#[trigger] spec_parse_hex_color(vs[i])) is Some,
    decreases vs.len(),
{
    if vs.len() > 0 {
        let d = vs.drop_first();
        lemma_no_invalid_color(d);
        if forall|i: int| 0 <= i < vs.len() ==> (#[trigger] spec_parse_hex_color(vs[i])) is Some {
            assert forall|i: int| 0 <= i < d.len() implies (#[trigger] spec_parse_hex_color(d[i])) is Some by {
                assert(d[i] == vs[i + 1]);
                assert(spec_parse_hex_color(vs[i + 1]) is Some);
            }
            assert(spec_parse_hex_color(vs[0]) is Some);
        }
        if first_invalid_color(vs) is None {
            assert forall|i: int| 0 <= i < vs.len() implies (#[trigger] spec_parse_hex_color(vs[i])) is Some by {
                if i > 0 {
                    assert(vs[i] == d[i - 1]);
                    assert(spec_parse_hex_color(d[i - 1]) is Some);
                }
            }
        }
    }
}

/// Every colour of the theme parses.
pub open spec fn theme_colors_parse(t: ThemeView) -> bool {
    &&& first_invalid_color(palette_values(t)) is None
    &&& spec_parse_hex_color(t.background) is Some
    &&& spec_parse_hex_color(t.foreground) is Some
    &&& spec_parse_hex_color(t.cursor) is Some
    &&& spec_opt_color(t.selection) is Ok
    &&& spec_opt_color(t.cursor_accent) is Ok
}

proof fn lemma_checked_colors_parse(t: ThemeView)
    requires
        first_invalid_color(checked_colors(t)) is None,
    ensures
        theme_colors_parse(t),
{
    let cs = checked_colors(t);
    lemma_no_invalid_color(cs);
    let pv = palette_values(t);
    assert forall|i: int| 0 <= i < pv.len() implies (#[trigger] spec_parse_hex_color(pv[i])) is Some by {
        assert(pv[i] == cs[i]);
        assert(spec_parse_hex_color(cs[i]) is Some);
    }
    lemma_no_invalid_color(pv);
    assert(spec_parse_hex_color(cs[16]) is Some);
    assert(spec_parse_hex_color(cs[17]) is Some);
    assert(spec_parse_hex_color(cs[18]) is Some);
    match t.selection {
        Some(sel) => {
            assert(cs[19] == sel);
            assert(spec_parse_hex_color(cs[19]) is Some);
        },
        None => {},
    }
    match t.cursor_accent {
        Some(a) => {
            let k = cs.len() - 1;
            assert(cs[k] == a);
            assert(spec_parse_hex_color(cs[k]) is Some);
        },
        None => {},
    }
}

proof fn lemma_resolve_all_checked(objs: Seq<Seq<(Seq<char>, Option<Seq<char>>)>>, ts: Seq<ThemeView>)
    requires
        resolve_all(objs) == Ok::<Seq<ThemeView>, Seq<char>>(ts),
    ensures
        forall|i: int| 0 <= i < ts.len() ==> first_invalid_color(checked_colors(#[trigger] ts[i])) is None,
    decreases objs.len(),
{
    if objs.len() > 0 {
        let t0 = spec_resolve(objs[0])->Ok_0;
        let rest = resolve_all(objs.drop_first())->Ok_0;
        lemma_resolve_all_checked(objs.drop_first(), rest);
        assert(ts == seq![t0] + rest);
        assert forall|i: int| 0 <= i < ts.len() implies first_invalid_color(checked_colors(#[trigger] ts[i])) is None by {
            if i > 0 {
                assert(ts[i] == rest[i - 1]);
            }
        }
    }
}

proof fn lemma_named_checked(ts: Seq<ThemeView>, name: Seq<char>)
    requires
        forall|i: int| 0 <= i < ts.len() ==> first_invalid_color(checked_colors(#[trigger] ts[i])) is None,
    ensures
        first_named(ts, name) matches Some(t) ==> first_invalid_color(checked_colors(t)) is None,
        first_named_ignoring_case(ts, name) matches Some(t) ==> first_invalid_color(checked_colors(t)) is None,
    decreases ts.len(),
{
    if ts.len() > 0 {
        let d = ts.drop_first();
        assert forall|i: int| 0 <= i < d.len() implies first_invalid_color(checked_colors(#[trigger] d[i])) is None by {
            assert(d[i] == ts[i + 1]);
        }
        lemma_named_checked(d, name);
        assert(first_invalid_color(checked_colors(ts[0])) is None);
    }
}

proof fn lemma_hex_literal(s: Seq<char>)
    requires
        s.len() == 7,
        s[0] == '#',
        forall|i: int| 1 <= i < 7 ==> is_hex_char(#[trigger] s[i]),
    ensures
        spec_parse_hex_color(s) is Some,
{
    assert(!crate::text::is_ws(s[0]));
    assert(crate::text::trim_start(s) == s);
    assert(is_hex_char(s[6]));
    assert(!crate::text::is_ws(s.last()));
    assert(crate::text::trim_end(s) == s);
    assert(is_hex_char(s[1]) && is_hex_char(s[2]) && is_hex_char(s[3]));
    assert(is_hex_char(s[4]) && is_hex_char(s[5]));
    lemma_pair_written(s[1], s[2]);
    lemma_pair_written(s[3], s[4]);
    lemma_pair_written(s[5], s[6]);
}

proof fn lemma_default_theme_colors()
    ensures
        first_invalid_color(checked_colors(default_theme())) is None,
{
    reveal_strlit("#171717");
    reveal_strlit("#dddddd");
    reveal_strlit("#282a2e");
    reveal_strlit("#4d4d4d");
    reveal_strlit("#D74E6F");
    reveal_strlit("#FE5F86");
    reveal_strlit("#31BB71");
    reveal_strlit("#00D787");
    reveal_strlit("#D3E561");
    reveal_strlit("#EBFF71");
    reveal_strlit("#8056FF");
    reveal_strlit("#9B79FF");
    reveal_strlit("#ED61D7");
    reveal_strlit("#FF7AEA");
    reveal_strlit("#04D7D7");
    reveal_strlit("#00FEFE");
    reveal_strlit("#bfbfbf");
    reveal_strlit("#e6e6e6");
    let cs = checked_colors(default_theme());
    assert forall|i: int| 0 <= i < cs.len() implies (#[trigger] spec_parse_hex_color(cs[i])) is Some by {
        let v = cs[i];
        assert(v.len() == 7 && v[0] == '#');
        assert(forall|j: int| 1 <= j < 7 ==> is_hex_char(#[trigger] v[j]));
        lemma_hex_literal(v);
    }
    lemma_no_invalid_color(cs);
}

/// Every colour of a theme that a `Set Theme` value resolves to parses, so
/// its palette, background, foreground, cursor, selection and cursor
/// accent colours are all available.
pub proof fn lemma_resolved_theme_colors_parse(spec: Seq<char>)
    ensures
        spec_theme_from_spec(spec) matches Ok(t) ==> theme_colors_parse(t),
{
    let s = crate::text::trim(spec);
    match spec_theme_from_spec(spec) {
        Ok(t) => {
            if s.len() == 0 {
                lemma_default_theme_colors();
            } else if s[0] == '{' {
                assert(first_invalid_color(checked_colors(t)) is None);
            } else {
                let ts = spec_load_themes()->Ok_0;
                let objs = crate::json::spec_json_string_objects(BUNDLED_THEMES@)->Some_0;
                lemma_resolve_all_checked(objs, ts);
                lemma_named_checked(ts, s);
            }
            lemma_checked_colors_parse(t);
        },
        Err(_) => {},
    }
}

impl Theme {
    /// The theme a `Set Theme` value names: the default theme when the value
    /// is blank, a JSON object over the defaults when it starts with `{`,
    /// otherwise the bundled preset of that name.
    pub fn from_spec(spec: &str) -> (r: Result<Theme, ThemeError>)
        ensures
            theme_result_view(r) == spec_theme_from_spec(spec@),
    {
        let c = crate::text::chars_of(spec);
        let t = crate::text::trim_chars(c.as_slice());
        if t.len() == 0 {
            return Ok(Theme::vhs_default());
        }
        let ts = crate::text::string_from_chars(t.as_slice());
        if t[0] == '{' {
            parse_theme_json(ts.as_str())
        } else {
            find_theme(ts.as_str())
        }
    }
}

} // verus!
