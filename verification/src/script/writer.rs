//! Writing recorded events back as a `.tape` script.

use vstd::prelude::*;
use crate::decimal::nat_text;
use crate::script::ast::{Easing, Event, EventView, KeyAction, ModSet, NamedKey, ScrollDirection, events_view};

verus! {

/// The reference tape: every command, with a comment saying what it does.
pub const REF_SCRIPT: &'static str = "# --- Output & Dependencies ---\nOutput demo.gif                     # Target output file (supports .gif, .svg, .svgz, .json, .stats)\nOutput demo.json                    # Multiple outputs are supported. You can use the `--ouput demo.svg` flag also.\nOutput demo.svg                     # Recommended\nOutput demo.svgz                    # gzip-compressed svg, less widely supported\nOutput demo.stats                   # Reports some stats about the rendering process\nRequire curl                        # Assert that curl is available on system PATH\nSource common.tape                  # Inline another tape file\n\n# --- Window & Font Settings ---\nSet Shell bash                      # Configure shell execution path (e.g. bash, zsh, fish)\nSet Shell bash --norc               # EVP supports any command as the \"shell\"\nSet Shell yazi                      # You can boot right into your TUI\n\nSet Theme \"Catppuccin Mocha\"        # Apply a predefined colour theme (run `evp themes` to discover themes)\nSet Font \"JetBrains Mono\"           # Monospace font family name\nSet FontSize 20                     # Font size in pixels\nSet LineHeight 1.2                  # Line spacing multiplier\nSet LetterSpacing 0                 # Letter spacing adjustment\nSet Width 800                       # Terminal window width in pixels\nSet Height 400                      # Terminal window height in pixels\nSet Cols 100                        # Set terminal width in rows (Set Width has precedence)\nSet Rows 30                         # Set terminal height in rows (Set Height has precedence)\nSet Padding 10                      # Inner padding between terminal grid and window frame\nSet Margin 20                       # Outer margin around window frame\nSet MarginFill \"#6B50FF\"            # Background colour of outer margin area\nSet Framerate 30                    # Recording framerate in FPS\nSet TypingSpeed 50ms                # Default speed/interval for typed text\n\n# --- Child Process Environment ---\nEnv PS1 \"$ \"                        # Set environment variables for the shell process\n\n# --- Playback & Timeline Controls ---\nSleep 1s                            # Pause playback for a duration (e.g. 500ms, 1.5s, 2m)\nHide                                # Hide subsequent commands from recording output\nShow                                # Resume recording commands to output files\nScreenshot frame.png                # Capture the current terminal window frame as a PNG, SVG, JSON, TXT, or ASCII\nScreenshot frame.svg\nScreenshot frame.json\nScreenshot frame.txt\nScreenshot frame.ascii\n\n# --- Clipboard Controls ---\nCopy \"text to clipboard\"            # Copy a string into the system clipboard\nPaste                               # Paste current clipboard contents into terminal\n\n# --- Keyboard & Input Events ---\nType \"echo 'hello'\"                 # Type text at the current default TypingSpeed\nType@10ms \"fast typing\"             # Type text at an overridden speed of 10ms\nEnter                               # Press key alias (equivalent to Key \"Enter\" / Key \"Return\")\nBackspace 5                         # Repeat a key alias N times (press Backspace 5 times)\nCtrl+C                              # Press key combination modifier\nCtrl+Shift+Alt+Left                 # Even complex key codes are possible.\nPress Down                          # Explicitly hold a key down\nRelease Down                        # Explicitly release a held key\n\n# --- Mouse Controls ---\nClick 10 20                         # Left click at column 10, row 20\nShift+Click 10 20                   # Shift + Left click at column 10, row 20\nCtrl+RightClick 10 20               # Ctrl + Right click at column 10, row 20\nDoubleClick 10 20                   # Double click at column 10, row 20\nMouseMove@100ms 0 0 10 10           # Move cursor from (0,0) to (10,10) using default sigmoid (EaseInOutCubic) easing\nMouseMove@100ms@EaseInOutElastic 0 0 10 10 # Move cursor with EaseInOutElastic easing curve override\nShift+Ctrl+MouseDrag@EaseInOutQuad 0 0 10 10 # Left click and drag with EaseInOutQuad holding Shift+Ctrl\nCtrl+MouseScroll 10 20 Up           # Scroll mouse wheel Up at column 10, row 20 holding Ctrl\n\n# --- Wait / Synchronization ---\nWait /regex/                        # Wait for output matching regular expression\nWait+Screen /regex/                 # Wait scanning full screen instead of only the last line\nWait+Line /regex/                   # Explicitly wait scanning last line only (default)\nWait@1s /regex/                     # Wait with an overridden timeout of 1s (default is 15s)\nWait+Line@1s /regex/                # Wait scanning last line with 1s timeout override\nWait+Screen@1s /regex/              # Wait scanning full screen with 1s timeout override";

/// Lines put before the reference tape in a written script.
pub open spec fn header_intro() -> Seq<char> {
    "# This is a reference tape to help you write your tape files.\n"@
        + "# We recommend viewing this tape using the Elixir language type for syntax highlighting.\n"@
        + "#\n"@
}

/// Each line turned into a `# ` comment line.
pub open spec fn comment_lines(ls: Seq<Seq<char>>) -> Seq<char>
    decreases ls.len(),
{
    if ls.len() == 0 {
        Seq::empty()
    } else {
        comment_lines(ls.drop_last()) + "# "@ + ls.last() + "\n"@
    }
}

/// The commented-out reference tape that starts a written script.
pub open spec fn reference_header() -> Seq<char> {
    header_intro() + comment_lines(crate::script::parser::lines_of(REF_SCRIPT@))
}

/// Generates the commented-out reference tape header.
pub fn write_reference_header() -> (r: String)
    ensures
        r@ == reference_header(),
{
    let mut header = "# This is a reference tape to help you write your tape files.\n".to_owned();
    header.append("# We recommend viewing this tape using the Elixir language type for syntax highlighting.\n");
    header.append("#\n");
    let lines = crate::script::parser::split_lines(REF_SCRIPT);
    let ghost lv = crate::script::ast::strings_view(lines@);
    let ghost intro = header@;
    let mut i: usize = 0;
    while i < lines.len()
        invariant
            i <= lines@.len(),
            lv == crate::script::ast::strings_view(lines@),
            header@ == intro + comment_lines(lv.take(i as int)),
        decreases lines@.len() - i,
    {
        assert(lv.take(i + 1).drop_last() =~= lv.take(i as int));
        assert(lv.take(i + 1).last() == lines@[i as int]@);
        header.append("# ");
        header.append(lines[i].as_str());
        header.append("\n");
        i += 1;
    }
    assert(lv.take(i as int) =~= lv);
    header
}

/// `ts` joined with `sep`.
pub open spec fn join_sep(ts: Seq<Seq<char>>, sep: Seq<char>) -> Seq<char>
    decreases ts.len(),
{
    if ts.len() == 0 {
        Seq::empty()
    } else if ts.len() == 1 {
        ts[0]
    } else {
        join_sep(ts.drop_last(), sep) + sep + ts.last()
    }
}

/// The names of the held modifiers, in the order Ctrl, Alt, Shift, Super.
pub open spec fn mods_names(m: ModSet) -> Seq<Seq<char>> {
    (if m.ctrl { seq!["Ctrl"@] } else { Seq::empty() }) + (if m.alt { seq!["Alt"@] } else { Seq::empty() })
        + (if m.shift { seq!["Shift"@] } else { Seq::empty() }) + (if m.super_key {
        seq!["Super"@]
    } else {
        Seq::empty()
    })
}

/// `Ctrl+Shift+` style prefix for held modifiers; empty for none.
pub open spec fn mods_prefix(m: ModSet) -> Seq<char> {
    let ns = mods_names(m);
    if ns.len() == 0 {
        Seq::empty()
    } else {
        join_sep(ns, "+"@) + "+"@
    }
}

fn format_mods_prefix(m: ModSet) -> (r: String)
    ensures
        r@ == mods_prefix(m),
{
    let mut parts: Vec<&str> = Vec::new();
    let ghost mut names: Seq<Seq<char>> = Seq::empty();
    if m.ctrl {
        parts.push("Ctrl");
    }
    if m.alt {
        parts.push("Alt");
    }
    if m.shift {
        parts.push("Shift");
    }
    if m.super_key {
        parts.push("Super");
    }
    let ghost pv = parts@.map_values(|p: &str| p@);
    assert(pv =~= mods_names(m));
    if parts.len() == 0 {
        return String::new();
    }
    let mut out = parts[0].to_owned();
    let mut i: usize = 1;
    assert(pv.take(1) =~= seq![pv[0]]);
    while i < parts.len()
        invariant
            1 <= i <= parts@.len(),
            pv == parts@.map_values(|p: &str| p@),
            out@ == join_sep(pv.take(i as int), "+"@),
        decreases parts@.len() - i,
    {
        assert(pv.take(i + 1).drop_last() =~= pv.take(i as int));
        assert(pv.take(i + 1).last() == parts@[i as int]@);
        out.append("+");
        out.append(parts[i]);
        i += 1;
    }
    assert(pv.take(i as int) =~= pv);
    out.append("+");
    out
}

/// The delay that needs no `@` annotation: 50 milliseconds.
pub open spec fn default_delay() -> u64 {
    50_000_000
}

/// Whole milliseconds of a duration in nanoseconds.
pub open spec fn millis(d: u64) -> nat {
    (d / 1_000_000) as nat
}

/// The name an easing curve has in a script.
pub open spec fn easing_name(e: Easing) -> Seq<char> {
    match e {
        Easing::Linear => "Linear"@,
        Easing::InSine => "EaseInSine"@,
        Easing::OutSine => "EaseOutSine"@,
        Easing::InOutSine => "EaseInOutSine"@,
        Easing::InQuadradic => "EaseInQuad"@,
        Easing::OutQuadradic => "EaseOutQuad"@,
        Easing::InOutQuadradic => "EaseInOutQuad"@,
        Easing::InCubic => "EaseInCubic"@,
        Easing::OutCubic => "EaseOutCubic"@,
        Easing::InOutCubic => "EaseInOutCubic"@,
        Easing::InQuartic => "EaseInQuart"@,
        Easing::OutQuartic => "EaseOutQuart"@,
        Easing::InOutQuartic => "EaseInOutQuart"@,
        Easing::InQuintic => "EaseInQuint"@,
        Easing::OutQuintic => "EaseOutQuint"@,
        Easing::InOutQuintic => "EaseInOutQuint"@,
        Easing::InExponential => "EaseInExpo"@,
        Easing::OutExponential => "EaseOutExpo"@,
        Easing::InOutExponential => "EaseInOutExpo"@,
        Easing::InCircular => "EaseInCirc"@,
        Easing::OutCircular => "EaseOutCirc"@,
        Easing::InOutCircular => "EaseInOutCirc"@,
        Easing::InBack => "EaseInBack"@,
        Easing::OutBack => "EaseOutBack"@,
        Easing::InOutBack => "EaseInOutBack"@,
        Easing::InElastic => "EaseInElastic"@,
        Easing::OutElastic => "EaseOutElastic"@,
        Easing::InOutElastic => "EaseInOutElastic"@,
        Easing::InBounce => "EaseInBounce"@,
        Easing::OutBounce => "EaseOutBounce"@,
        Easing::InOutBounce => "EaseInOutBounce"@,
    }
}

fn easing_str(e: Easing) -> (r: &'static str)
    ensures
        r@ == easing_name(e),
{
    match e {
        Easing::Linear => "Linear",
        Easing::InSine => "EaseInSine",
        Easing::OutSine => "EaseOutSine",
        Easing::InOutSine => "EaseInOutSine",
        Easing::InQuadradic => "EaseInQuad",
        Easing::OutQuadradic => "EaseOutQuad",
        Easing::InOutQuadradic => "EaseInOutQuad",
        Easing::InCubic => "EaseInCubic",
        Easing::OutCubic => "EaseOutCubic",
        Easing::InOutCubic => "EaseInOutCubic",
        Easing::InQuartic => "EaseInQuart",
        Easing::OutQuartic => "EaseOutQuart",
        Easing::InOutQuartic => "EaseInOutQuart",
        Easing::InQuintic => "EaseInQuint",
        Easing::OutQuintic => "EaseOutQuint",
        Easing::InOutQuintic => "EaseInOutQuint",
        Easing::InExponential => "EaseInExpo",
        Easing::OutExponential => "EaseOutExpo",
        Easing::InOutExponential => "EaseInOutExpo",
        Easing::InCircular => "EaseInCirc",
        Easing::OutCircular => "EaseOutCirc",
        Easing::InOutCircular => "EaseInOutCirc",
        Easing::InBack => "EaseInBack",
        Easing::OutBack => "EaseOutBack",
        Easing::InOutBack => "EaseInOutBack",
        Easing::InElastic => "EaseInElastic",
        Easing::OutElastic => "EaseOutElastic",
        Easing::InOutElastic => "EaseInOutElastic",
        Easing::InBounce => "EaseInBounce",
        Easing::OutBounce => "EaseOutBounce",
        Easing::InOutBounce => "EaseInOutBounce",
    }
}

/// A mouse command name with its `@delay` (unless the default) and
/// `@easing` annotations.
pub open spec fn mouse_cmd(name: Seq<char>, delay: u64, easing: Option<Easing>) -> Seq<char> {
    name + (if delay != default_delay() {
        "@"@ + nat_text(millis(delay)) + "ms"@
    } else {
        Seq::empty()
    }) + match easing {
        Some(e) => "@"@ + easing_name(e),
        None => Seq::empty(),
    }
}

fn format_mouse_cmd(name: &str, delay: u64, easing: Option<Easing>) -> (r: String)
    ensures
        r@ == mouse_cmd(name@, delay, easing),
{
    let mut cmd = name.to_owned();
    if delay != 50_000_000 {
        cmd.append("@");
        let ms = crate::decimal::u64_text(delay / 1_000_000);
        cmd.append(ms.as_str());
        cmd.append("ms");
    }
    match easing {
        Some(e) => {
            cmd.append("@");
            cmd.append(easing_str(e));
        },
        None => {},
    }
    cmd
}

/// A text with backslashes and double quotes escaped by a backslash.
pub open spec fn escape_quoted(t: Seq<char>) -> Seq<char>
    decreases t.len(),
{
    if t.len() == 0 {
        Seq::empty()
    } else {
        let c = t.last();
        escape_quoted(t.drop_last()) + if c == '\\' {
            seq!['\\', '\\']
        } else if c == '"' {
            seq!['\\', '"']
        } else {
            seq![c]
        }
    }
}

fn escape_quoted_exec(t: &str) -> (r: String)
    ensures
        r@ == escape_quoted(t@),
{
    let cs = crate::text::chars_of(t);
    let mut out: Vec<char> = Vec::new();
    let mut i: usize = 0;
    while i < cs.len()
        invariant
            i <= cs@.len(),
            cs@ == t@,
            out@ == escape_quoted(cs@.take(i as int)),
        decreases cs@.len() - i,
    {
        assert(cs@.take(i + 1).drop_last() =~= cs@.take(i as int));
        assert(cs@.take(i + 1).last() == cs@[i as int]);
        let c = cs[i];
        let ghost before = out@;
        if c == '\\' {
            out.push('\\');
            out.push('\\');
        } else if c == '"' {
            out.push('\\');
            out.push('"');
        } else {
            out.push(c);
        }
        assert(out@ =~= escape_quoted(cs@.take(i + 1)));
        i += 1;
    }
    assert(cs@.take(i as int) =~= cs@);
    crate::text::string_from_chars(out.as_slice())
}

/// The name a key has in a script; letters are written upper-case, and
/// keys a script cannot press become a space.
pub open spec fn key_name(k: NamedKey) -> Seq<char> {
    match k {
        NamedKey::Enter => "Enter"@,
        NamedKey::Escape => "Escape"@,
        NamedKey::Tab => "Tab"@,
        NamedKey::Backspace => "Backspace"@,
        NamedKey::Delete => "Delete"@,
        NamedKey::Insert => "Insert"@,
        NamedKey::Space => "Space"@,
        NamedKey::Up => "Up"@,
        NamedKey::Down => "Down"@,
        NamedKey::Left => "Left"@,
        NamedKey::Right => "Right"@,
        NamedKey::PageUp => "PageUp"@,
        NamedKey::PageDown => "PageDown"@,
        NamedKey::Home => "Home"@,
        NamedKey::End => "End"@,
        NamedKey::Char(c) => seq![ascii_upper(c)],
        _ => " "@,
    }
}

/// ASCII upper-case of a character (other characters unchanged).
pub open spec fn ascii_upper(c: char) -> char {
    if 'a' <= c <= 'z' {
        ((c as u32) - 32) as char
    } else {
        c
    }
}

fn key_name_exec(k: NamedKey) -> (r: String)
    ensures
        r@ == key_name(k),
{
    match k {
        NamedKey::Enter => "Enter".to_owned(),
        NamedKey::Escape => "Escape".to_owned(),
        NamedKey::Tab => "Tab".to_owned(),
        NamedKey::Backspace => "Backspace".to_owned(),
        NamedKey::Delete => "Delete".to_owned(),
        NamedKey::Insert => "Insert".to_owned(),
        NamedKey::Space => "Space".to_owned(),
        NamedKey::Up => "Up".to_owned(),
        NamedKey::Down => "Down".to_owned(),
        NamedKey::Left => "Left".to_owned(),
        NamedKey::Right => "Right".to_owned(),
        NamedKey::PageUp => "PageUp".to_owned(),
        NamedKey::PageDown => "PageDown".to_owned(),
        NamedKey::Home => "Home".to_owned(),
        NamedKey::End => "End".to_owned(),
        NamedKey::Char(c) => {
            let u = if 'a' <= c && c <= 'z' {
                ((c as u8) - 32) as char
            } else {
                c
            };
            let v: Vec<char> = vec![u];
            assert(v@ =~= seq![ascii_upper(c)]);
            crate::text::string_from_chars(v.as_slice())
        },
        _ => " ".to_owned(),
    }
}

/// The decimal seconds `Sleep` is written with: `f32` display of the
/// duration in seconds.
pub uninterp spec fn spec_secs_text(nanos: u64) -> Seq<char>;

/// Formats a duration given in nanoseconds as seconds, the way
/// `Duration::as_secs_f32` displays.
///
/// Trusted: `Duration::from_nanos(nanos).as_secs_f32()` formatted with
/// `Display`; a deterministic function of `nanos`, named, not stated.
#[verifier::external_body]
fn secs_text(nanos: u64) -> (r: String)
    ensures
        r@ == spec_secs_text(nanos),
{
    format!("{}", std::time::Duration::from_nanos(nanos).as_secs_f32())
}

/// The script line of one event; events a script cannot express give
/// nothing.
pub open spec fn event_line(e: EventView) -> Seq<char> {
    match e {
        EventView::Type { text, delay } => if delay == default_delay() {
            "Type \""@ + escape_quoted(text) + "\"\n"@
        } else {
            "Type@"@ + nat_text(millis(delay)) + "ms \""@ + escape_quoted(text) + "\"\n"@
        },
        EventView::Sleep(d) => if millis(d) >= 1000 && millis(d) % 100 == 0 {
            "Sleep "@ + spec_secs_text(d) + "s\n"@
        } else {
            "Sleep "@ + nat_text(millis(d)) + "ms\n"@
        },
        EventView::Key { key, action, count, .. } => if action == KeyAction::Press {
            mods_prefix(key.mods) + key_name(key.key) + (if count > 1 {
                " "@ + nat_text(count as nat)
            } else {
                Seq::empty()
            }) + "\n"@
        } else {
            Seq::empty()
        },
        EventView::Click { col, row, mods, .. } => mods_prefix(mods) + "Click "@ + nat_text(
            col as nat,
        ) + " "@ + nat_text(row as nat) + "\n"@,
        EventView::RightClick { col, row, mods, .. } => mods_prefix(mods) + "RightClick "@
            + nat_text(col as nat) + " "@ + nat_text(row as nat) + "\n"@,
        EventView::DoubleClick { col, row, mods, .. } => mods_prefix(mods) + "DoubleClick "@
            + nat_text(col as nat) + " "@ + nat_text(row as nat) + "\n"@,
        EventView::MouseDrag { start_col, start_row, end_col, end_row, mods, delay, easing } =>
            mods_prefix(mods) + mouse_cmd("MouseDrag"@, delay, easing) + " "@ + nat_text(
            start_col as nat,
        ) + " "@ + nat_text(start_row as nat) + " "@ + nat_text(end_col as nat) + " "@ + nat_text(
            end_row as nat,
        ) + "\n"@,
        EventView::MouseMove { start_col, start_row, end_col, end_row, mods, delay, easing } =>
            mods_prefix(mods) + mouse_cmd("MouseMove"@, delay, easing) + " "@ + nat_text(
            start_col as nat,
        ) + " "@ + nat_text(start_row as nat) + " "@ + nat_text(end_col as nat) + " "@ + nat_text(
            end_row as nat,
        ) + "\n"@,
        EventView::MouseScroll { col, row, direction, mods, .. } => mods_prefix(mods)
            + "MouseScroll "@ + nat_text(col as nat) + " "@ + nat_text(row as nat) + " "@ + (
        match direction {
            ScrollDirection::Up => "Up"@,
            ScrollDirection::Down => "Down"@,
        }) + "\n"@,
        _ => Seq::empty(),
    }
}

fn num(n: u64) -> (r: String)
    ensures
        r@ == nat_text(n as nat),
{
    crate::decimal::u64_text(n)
}

fn click_line(prefix: &str, name: &str, col: u16, row: u16) -> (r: String)
    ensures
        r@ == prefix@ + name@ + nat_text(col as nat) + " "@ + nat_text(row as nat) + "\n"@,
{
    let mut s = prefix.to_owned();
    s.append(name);
    s.append(num(col as u64).as_str());
    s.append(" ");
    s.append(num(row as u64).as_str());
    s.append("\n");
    s
}

fn move_line(prefix: &str, cmd: &str, a: u16, b: u16, c: u16, d: u16) -> (r: String)
    ensures
        r@ == prefix@ + cmd@ + " "@ + nat_text(a as nat) + " "@ + nat_text(b as nat) + " "@
            + nat_text(c as nat) + " "@ + nat_text(d as nat) + "\n"@,
{
    let mut s = prefix.to_owned();
    s.append(cmd);
    s.append(" ");
    s.append(num(a as u64).as_str());
    s.append(" ");
    s.append(num(b as u64).as_str());
    s.append(" ");
    s.append(num(c as u64).as_str());
    s.append(" ");
    s.append(num(d as u64).as_str());
    s.append("\n");
    s
}

fn event_line_exec(e: &Event) -> (r: String)
    ensures
        r@ == event_line(e@),
{
    match e {
        Event::Type { text, delay } => {
            let esc = escape_quoted_exec(text.as_str());
            if *delay == 50_000_000 {
                let mut s = "Type \"".to_owned();
                s.append(esc.as_str());
                s.append("\"\n");
                s
            } else {
                let mut s = "Type@".to_owned();
                s.append(num(*delay / 1_000_000).as_str());
                s.append("ms \"");
                s.append(esc.as_str());
                s.append("\"\n");
                s
            }
        },
        Event::Sleep(d) => {
            let ms = *d / 1_000_000;
            let mut s = "Sleep ".to_owned();
            if ms >= 1000 && ms % 100 == 0 {
                s.append(secs_text(*d).as_str());
                s.append("s\n");
            } else {
                s.append(num(ms).as_str());
                s.append("ms\n");
            }
            s
        },
        Event::Key { key, action, count, .. } => {
            if *action == KeyAction::Press {
                let mut s = format_mods_prefix(key.mods);
                s.append(key_name_exec(key.key).as_str());
                if *count > 1 {
                    s.append(" ");
                    s.append(num(*count as u64).as_str());
                }
                s.append("\n");
                s
            } else {
                String::new()
            }
        },
        Event::Click { col, row, mods, .. } => click_line(
            format_mods_prefix(*mods).as_str(),
            "Click ",
            *col,
            *row,
        ),
        Event::RightClick { col, row, mods, .. } => click_line(
            format_mods_prefix(*mods).as_str(),
            "RightClick ",
            *col,
            *row,
        ),
        Event::DoubleClick { col, row, mods, .. } => click_line(
            format_mods_prefix(*mods).as_str(),
            "DoubleClick ",
            *col,
            *row,
        ),
        Event::MouseDrag { start_col, start_row, end_col, end_row, mods, delay, easing } => move_line(
            format_mods_prefix(*mods).as_str(),
            format_mouse_cmd("MouseDrag", *delay, *easing).as_str(),
            *start_col,
            *start_row,
            *end_col,
            *end_row,
        ),
        Event::MouseMove { start_col, start_row, end_col, end_row, mods, delay, easing } => move_line(
            format_mods_prefix(*mods).as_str(),
            format_mouse_cmd("MouseMove", *delay, *easing).as_str(),
            *start_col,
            *start_row,
            *end_col,
            *end_row,
        ),
        Event::MouseScroll { col, row, direction, mods, .. } => {
            let dir = match direction {
                ScrollDirection::Up => "Up",
                ScrollDirection::Down => "Down",
            };
            let mut s = format_mods_prefix(*mods);
            s.append("MouseScroll ");
            s.append(num(*col as u64).as_str());
            s.append(" ");
            s.append(num(*row as u64).as_str());
            s.append(" ");
            s.append(dir);
            s.append("\n");
            s
        },
        _ => String::new(),
    }
}


/// The lines of a list of events.
pub open spec fn events_text(es: Seq<EventView>) -> Seq<char>
    decreases es.len(),
{
    if es.len() == 0 {
        Seq::empty()
    } else {
        events_text(es.drop_last()) + event_line(es.last())
    }
}

pub open spec fn opt_str_view(o: Option<&str>) -> Option<Seq<char>> {
    match o {
        Some(s) => Some(s@),
        None => None,
    }
}

/// A whole written script: the reference header, the output and settings,
/// then one line per event that a script can express.
pub open spec fn tape_text(
    events: Seq<EventView>,
    out_path: Seq<char>,
    shell: Option<Seq<char>>,
    cols: u16,
    rows: u16,
    theme: Option<Seq<char>>,
) -> Seq<char> {
    reference_header() + "\n"@ + "Output "@ + out_path + "\n"@ + (match shell {
        Some(sh) => "Set Shell "@ + sh + "\n"@,
        None => Seq::empty(),
    }) + "Set Cols "@ + nat_text(cols as nat) + "\n"@ + "Set Rows "@ + nat_text(rows as nat)
        + "\n"@ + "Set FontSize 20\n"@ + (match theme {
        Some(t) => "Set Theme \""@ + t + "\"\n"@,
        None => Seq::empty(),
    }) + "\n"@ + events_text(events)
}

/// Writes recorded events, with the output path and settings, as a
/// complete `.tape` script.
pub fn write_tape_script(
    events: &[Event],
    out_path: &str,
    shell: Option<&str>,
    cols: u16,
    rows: u16,
    theme: Option<&str>,
) -> (r: String)
    ensures
        r@ == tape_text(events_view(events@), out_path@, opt_str_view(shell), cols, rows, opt_str_view(theme)),
{
    let mut tape = write_reference_header();
    tape.append("\n");
    tape.append("Output ");
    tape.append(out_path);
    tape.append("\n");
    match shell {
        Some(sh) => {
            tape.append("Set Shell ");
            tape.append(sh);
            tape.append("\n");
        },
        None => {},
    }
    tape.append("Set Cols ");
    tape.append(num(cols as u64).as_str());
    tape.append("\n");
    tape.append("Set Rows ");
    tape.append(num(rows as u64).as_str());
    tape.append("\n");
    tape.append("Set FontSize 20\n");
    match theme {
        Some(t) => {
            tape.append("Set Theme \"");
            tape.append(t);
            tape.append("\"\n");
        },
        None => {},
    }
    tape.append("\n");
    let ghost head = tape@;
    let ghost ev = events_view(events@);
    let mut i: usize = 0;
    while i < events.len()
        invariant
            i <= events@.len(),
            ev == events_view(events@),
            tape@ == head + events_text(ev.take(i as int)),
        decreases events@.len() - i,
    {
        assert(ev.take(i + 1).drop_last() =~= ev.take(i as int));
        assert(ev.take(i + 1).last() == events@[i as int]@);
        let line = event_line_exec(&events[i]);
        tape.append(line.as_str());
        i += 1;
    }
    assert(ev.take(i as int) =~= ev);
    tape
}

// ---------------------------------------------------------------------------
// What is written as milliseconds reads back as milliseconds
// ---------------------------------------------------------------------------

pub(crate) proof fn lemma_nat_text_digits(n: nat)
    ensures
        nat_text(n).len() > 0,
        crate::decimal::all_digits(nat_text(n)),
        crate::decimal::digits_value(nat_text(n)) == n,
    decreases n,
{
    let c = crate::decimal::digit_char(n % 10);
    assert(c as u32 == n % 10 + 48);
    assert(crate::decimal::digit_value(c) == n % 10);
    if n < 10 {
        assert(seq![c].drop_last() =~= Seq::<char>::empty());
        assert(nat_text(n) == seq![c]);
        assert(crate::decimal::digits_value(seq![c]) == crate::decimal::digits_value(seq![c].drop_last()) * 10
            + crate::decimal::digit_value(seq![c].last()));
        assert(crate::decimal::digits_value(Seq::<char>::empty()) == 0);
    } else {
        lemma_nat_text_digits(n / 10);
        let t = nat_text(n / 10);
        let d = seq![c];
        assert((t + d).drop_last() =~= t);
        assert((t + d).last() == c);
        assert(n == (n / 10) * 10 + n % 10);
        assert(nat_text(n) == t + d);
        assert(crate::decimal::digits_value(t + d) == crate::decimal::digits_value((t + d).drop_last()) * 10
            + crate::decimal::digit_value((t + d).last()));
        assert forall|i: int| 0 <= i < (t + d).len() implies crate::decimal::is_digit(#[trigger] (t + d)[i]) by {
            if i < t.len() {
                assert((t + d)[i] == t[i]);
            }
        }
    }
}

proof fn lemma_digits_no_dot(s: Seq<char>)
    requires
        crate::decimal::all_digits(s),
    ensures
        crate::text::first_index(s, '.') is None,
    decreases s.len(),
{
    if s.len() > 0 {
        assert(crate::decimal::is_digit(s[0]));
        assert forall|i: int| 0 <= i < s.drop_first().len() implies crate::decimal::is_digit(#[trigger] s.drop_first()[i]) by {
            assert(s.drop_first()[i] == s[i + 1]);
        }
        lemma_digits_no_dot(s.drop_first());
    }
}

/// A delay written as a whole number of milliseconds (`500ms`, as in
/// `Type@500ms` or `Sleep 500ms`) reads back as exactly that many
/// milliseconds.
pub proof fn lemma_written_millis_read_back(ms: nat)
    requires
        ms * 1_000_000 <= u64::MAX,
    ensures
        crate::script::parser::spec_parse_duration(nat_text(ms) + "ms"@) == Some((ms * 1_000_000) as u64),
{
    reveal_strlit("ms");
    lemma_nat_text_digits(ms);
    let t = nat_text(ms);
    let s = t + "ms"@;
    assert(crate::decimal::is_digit(t[0]));
    assert(s[0] == t[0]);
    assert(!crate::text::is_ws(s[0]));
    assert(s.last() == 's');
    assert(crate::text::trim_start(s) == s);
    assert(crate::text::trim_end(s) == s);
    assert(crate::text::trim(s) == s);
    assert(s[s.len() - 2] == 'm' && s[s.len() - 1] == 's');
    assert(s.take(s.len() - 2) =~= t);
    assert(crate::script::parser::duration_unit(s) == (t, 1nat, 6nat));
    lemma_digits_no_dot(t);
    assert(!(t[0] == '-' || t[0] == '+'));
    assert(crate::decimal::split_decimal(t) == Some((false, t, Seq::<char>::empty())));
    crate::decimal::lemma_digits_no_exp(t);
    assert(crate::decimal::split_float(t) == Some((false, t, Seq::<char>::empty(), 0int)));
    crate::decimal::lemma_shift_none(t, Seq::<char>::empty());
    assert(t + Seq::<char>::empty() =~= t);
    assert(crate::decimal::pow10(6) == 1_000_000) by {
        reveal_with_fuel(crate::decimal::pow10, 7);
    }
    assert(crate::decimal::pow10(0) == 1);
    let n = ms * 1 * 1_000_000;
    assert(crate::decimal::round_half_even(n, 1) == n);
}

/// The name, column, row and modifiers of a click.
pub open spec fn click_parts(e: EventView) -> Option<(Seq<char>, u16, u16, ModSet)> {
    match e {
        EventView::Click { col, row, mods, .. } => Some(("Click"@, col, row, mods)),
        EventView::RightClick { col, row, mods, .. } => Some(("RightClick"@, col, row, mods)),
        EventView::DoubleClick { col, row, mods, .. } => Some(("DoubleClick"@, col, row, mods)),
        _ => None,
    }
}

/// A click is written as its modifiers and name, then two decimal
/// numbers after single spaces, the column first and then the row, and a
/// line feed: reading the two numbers back gives the click's column and
/// row.
pub proof fn lemma_click_line_column_then_row(e: EventView)
    requires
        click_parts(e) is Some,
    ensures
        ({
            let (name, col, row, mods) = click_parts(e)->0;
            exists|c: Seq<char>, r: Seq<char>|
                #![trigger crate::decimal::digits_value(c), crate::decimal::digits_value(r)]
                {
                    &&& c.len() > 0 && crate::decimal::all_digits(c) && crate::decimal::digits_value(c) == col
                    &&& r.len() > 0 && crate::decimal::all_digits(r) && crate::decimal::digits_value(r) == row
                    &&& event_line(e) == mods_prefix(mods) + name + seq![' '] + c + seq![' '] + r + seq!['\n']
                }
        }),
{
    reveal_strlit("Click ");
    reveal_strlit("RightClick ");
    reveal_strlit("DoubleClick ");
    reveal_strlit("Click");
    reveal_strlit("RightClick");
    reveal_strlit("DoubleClick");
    reveal_strlit(" ");
    reveal_strlit("\n");
    let (name, col, row, mods) = click_parts(e)->0;
    let c = nat_text(col as nat);
    let r = nat_text(row as nat);
    lemma_nat_text_digits(col as nat);
    lemma_nat_text_digits(row as nat);
    let p = mods_prefix(mods);
    match e {
        EventView::Click { .. } => {
            assert(event_line(e) =~= p + name + seq![' '] + c + seq![' '] + r + seq!['\n']);
        },
        EventView::RightClick { .. } => {
            assert(event_line(e) =~= p + name + seq![' '] + c + seq![' '] + r + seq!['\n']);
        },
        EventView::DoubleClick { .. } => {
            assert(event_line(e) =~= p + name + seq![' '] + c + seq![' '] + r + seq!['\n']);
        },
        _ => {},
    }
    assert(crate::decimal::digits_value(c) == col && crate::decimal::digits_value(r) == row);
}

} // verus!
