//! Syntax tree of a `.tape` script.
//!
//! A script is read into the settings applied before recording starts and
//! a timeline of events. Durations are whole nanoseconds; times on events
//! are relative (per-event delays), and the runner turns them into
//! absolute deadlines.

use vstd::prelude::*;
use crate::style::{Theme, ThemeView, WindowBarStyle};

verus! {

/// A floating-point setting, kept as the literal that was written (one that
/// `str::parse::<f32>` accepts); its value is read where it is used.
#[derive(Debug)]
pub struct FloatText {
    pub text: String,
}

impl View for FloatText {
    type V = Seq<char>;

    open spec fn view(&self) -> Seq<char> {
        self.text@
    }
}

impl FloatText {
    pub fn copy(&self) -> (r: FloatText)
        ensures
            r@ == self@,
    {
        FloatText { text: self.text.clone() }
    }
}

/// Model of an optional string.
pub open spec fn opt_view(s: Option<String>) -> Option<Seq<char>> {
    match s {
        Some(t) => Some(t@),
        None => None,
    }
}

/// All `Set` directives, with defaults where none was given.
#[derive(Debug)]
pub struct Settings {
    pub shell: Option<String>,
    pub font_family: Option<String>,
    pub font_size: FloatText,
    /// Canvas width in pixels.
    pub width: Option<u32>,
    /// Canvas height in pixels.
    pub height: Option<u32>,
    pub cols: Option<u16>,
    pub rows: Option<u16>,
    pub padding: u32,
    pub margin: u32,
    pub margin_fill: [u8; 3],
    pub window_bar: WindowBarStyle,
    pub window_bar_size: u32,
    pub border_radius: u32,
    pub line_height: FloatText,
    pub letter_spacing: FloatText,
    pub framerate: u32,
    pub playback_speed: FloatText,
    /// Default delay between typed characters, in nanoseconds.
    pub typing_speed: u64,
    pub theme: Theme,
    pub cursor_blink: bool,
    /// Default `Wait` timeout, in nanoseconds.
    pub wait_timeout: u64,
    pub wait_pattern: String,
    pub loop_offset_pct: FloatText,
    pub mimic_vhs: bool,
}

/// Model of [`Settings`].
pub struct SettingsView {
    pub shell: Option<Seq<char>>,
    pub font_family: Option<Seq<char>>,
    pub font_size: Seq<char>,
    pub width: Option<u32>,
    pub height: Option<u32>,
    pub cols: Option<u16>,
    pub rows: Option<u16>,
    pub padding: u32,
    pub margin: u32,
    pub margin_fill: [u8; 3],
    pub window_bar: WindowBarStyle,
    pub window_bar_size: u32,
    pub border_radius: u32,
    pub line_height: Seq<char>,
    pub letter_spacing: Seq<char>,
    pub framerate: u32,
    pub playback_speed: Seq<char>,
    pub typing_speed: u64,
    pub theme: ThemeView,
    pub cursor_blink: bool,
    pub wait_timeout: u64,
    pub wait_pattern: Seq<char>,
    pub loop_offset_pct: Seq<char>,
    pub mimic_vhs: bool,
}

impl View for Settings {
    type V = SettingsView;

    open spec fn view(&self) -> SettingsView {
        SettingsView {
            shell: opt_view(self.shell),
            font_family: opt_view(self.font_family),
            font_size: self.font_size@,
            width: self.width,
            height: self.height,
            cols: self.cols,
            rows: self.rows,
            padding: self.padding,
            margin: self.margin,
            margin_fill: self.margin_fill,
            window_bar: self.window_bar,
            window_bar_size: self.window_bar_size,
            border_radius: self.border_radius,
            line_height: self.line_height@,
            letter_spacing: self.letter_spacing@,
            framerate: self.framerate,
            playback_speed: self.playback_speed@,
            typing_speed: self.typing_speed,
            theme: self.theme@,
            cursor_blink: self.cursor_blink,
            wait_timeout: self.wait_timeout,
            wait_pattern: self.wait_pattern@,
            loop_offset_pct: self.loop_offset_pct@,
            mimic_vhs: self.mimic_vhs,
        }
    }
}

/// The settings of a script with no `Set` directive.
pub open spec fn default_settings() -> SettingsView {
    SettingsView {
        shell: None,
        font_family: None,
        font_size: "22.0"@,
        width: None,
        height: None,
        cols: None,
        rows: None,
        padding: 60,
        margin: 0,
        margin_fill: crate::style::default_background_rgb(),
        window_bar: WindowBarStyle::NoBar,
        window_bar_size: crate::style::DEFAULT_WINDOW_BAR_SIZE_PX,
        border_radius: 0,
        line_height: "1.0"@,
        letter_spacing: "1.0"@,
        framerate: 50,
        playback_speed: "1.0"@,
        typing_speed: 50_000_000,
        theme: crate::style::default_theme(),
        cursor_blink: true,
        wait_timeout: 15_000_000_000,
        wait_pattern: ">$"@,
        loop_offset_pct: "0.0"@,
        mimic_vhs: false,
    }
}

impl Default for Settings {
    fn default() -> (r: Self)
        ensures
            r@ == default_settings(),
    {
        Settings {
            shell: None,
            font_family: None,
            font_size: FloatText { text: "22.0".to_owned() },
            width: None,
            height: None,
            cols: None,
            rows: None,
            padding: 60,
            margin: 0,
            margin_fill: [0x17u8, 0x17u8, 0x17u8],
            window_bar: WindowBarStyle::NoBar,
            window_bar_size: crate::style::DEFAULT_WINDOW_BAR_SIZE_PX,
            border_radius: 0,
            line_height: FloatText { text: "1.0".to_owned() },
            letter_spacing: FloatText { text: "1.0".to_owned() },
            framerate: 50,
            playback_speed: FloatText { text: "1.0".to_owned() },
            typing_speed: 50_000_000,
            theme: Theme::vhs_default(),
            cursor_blink: true,
            wait_timeout: 15_000_000_000,
            wait_pattern: ">$".to_owned(),
            loop_offset_pct: FloatText { text: "0.0".to_owned() },
            mimic_vhs: false,
        }
    }
}

impl Settings {
    /// Canvas width: the one set, else none when the column count is set
    /// (the grid decides), else 1200 pixels.
    pub fn resolved_canvas_width(&self) -> (r: Option<u32>)
        ensures
            r == match self.width {
                Some(w) => Some(w),
                None => if self.cols is Some {
                    None
                } else {
                    Some(1200u32)
                },
            },
    {
        match self.width {
            Some(w) => Some(w),
            None => if self.cols.is_some() {
                None
            } else {
                Some(1200)
            },
        }
    }

    /// Canvas height: the one set, else none when the row count is set,
    /// else 600 pixels.
    pub fn resolved_canvas_height(&self) -> (r: Option<u32>)
        ensures
            r == match self.height {
                Some(h) => Some(h),
                None => if self.rows is Some {
                    None
                } else {
                    Some(600u32)
                },
            },
    {
        match self.height {
            Some(h) => Some(h),
            None => if self.rows.is_some() {
                None
            } else {
                Some(600)
            },
        }
    }
}

/// Scope of a `Wait`.
#[derive(Debug, Clone, Copy, PartialEq, Eq, Structural)]
pub enum WaitScope {
    /// The last visible line.
    Line,
    /// The whole visible screen.
    Screen,
}

/// Modifier keys held with a key press.
#[derive(Debug, Clone, Copy, PartialEq, Eq, Structural)]
pub struct ModSet {
    pub ctrl: bool,
    pub alt: bool,
    pub shift: bool,
    pub super_key: bool,
}

/// No modifier held.
pub open spec fn no_mods() -> ModSet {
    ModSet { ctrl: false, alt: false, shift: false, super_key: false }
}

impl ModSet {
    /// No modifier held.
    pub fn none() -> (r: ModSet)
        ensures
            r == no_mods(),
    {
        ModSet { ctrl: false, alt: false, shift: false, super_key: false }
    }

    /// Whether any modifier is held.
    pub fn any(&self) -> (r: bool)
        ensures
            r == (self.ctrl || self.alt || self.shift || self.super_key),
    {
        self.ctrl || self.alt || self.shift || self.super_key
    }
}

impl Default for ModSet {
    fn default() -> (r: Self)
        ensures
            r == no_mods(),
    {
        ModSet::none()
    }
}

/// The named keys a script can press.
#[derive(Debug, Clone, Copy, PartialEq, Eq, Structural)]
pub enum NamedKey {
    Enter,
    Escape,
    Tab,
    Backspace,
    Delete,
    Insert,
    Space,
    Up,
    Down,
    Left,
    Right,
    PageUp,
    PageDown,
    Home,
    End,
    Shift,
    Control,
    Alt,
    Super,
    ScrollUp,
    ScrollDown,
    /// A single literal character (the `C` of `Ctrl+C`).
    Char(char),
}

/// A key with its modifiers.
#[derive(Debug, Clone, Copy, PartialEq, Eq, Structural)]
pub struct KeySpec {
    pub key: NamedKey,
    pub mods: ModSet,
}

/// Whether a key goes down or up.
#[derive(Debug, Clone, Copy, PartialEq, Eq, Structural)]
pub enum KeyAction {
    Press,
    Release,
}

/// Direction of a scroll-wheel event.
#[derive(Debug, Clone, Copy, PartialEq, Eq, Structural)]
pub enum ScrollDirection {
    Up,
    Down,
}

/// What a low-level mouse event does.
#[derive(Debug, Clone, Copy, PartialEq, Eq, Structural)]
pub enum MouseAction {
    Press,
    Release,
    Motion,
}

/// Mouse buttons, the wheel included.
#[derive(Debug, Clone, Copy, PartialEq, Eq, Structural)]
pub enum MouseButton {
    Left,
    Right,
    Middle,
    WheelUp,
    WheelDown,
}

/// Easing curve of a recorded mouse gesture.
#[derive(Debug, Clone, Copy, PartialEq, Eq, Structural)]
pub enum Easing {
    Linear,
    InSine,
    OutSine,
    InOutSine,
    InQuadradic,
    OutQuadradic,
    InOutQuadradic,
    InCubic,
    OutCubic,
    InOutCubic,
    InQuartic,
    OutQuartic,
    InOutQuartic,
    InQuintic,
    OutQuintic,
    InOutQuintic,
    InExponential,
    OutExponential,
    InOutExponential,
    InCircular,
    OutCircular,
    InOutCircular,
    InBack,
    OutBack,
    InOutBack,
    InElastic,
    OutElastic,
    InOutElastic,
    InBounce,
    OutBounce,
    InOutBounce,
}

/// One event of the timeline. Delays and durations are in nanoseconds.
#[derive(Debug)]
pub enum Event {
    /// Type a string, `delay` apart per character.
    Type { text: String, delay: u64 },
    /// Wait without sending input.
    Sleep(u64),
    /// A key event, repeated `count` times `delay` apart.
    Key { key: KeySpec, action: KeyAction, count: u32, delay: u64 },
    /// Wait until `pattern` shows on the last line or the screen.
    Wait { scope: WaitScope, timeout: u64, pattern: String },
    /// Capture a still image to a path.
    Screenshot(String),
    /// Put text in the tape's clipboard.
    Copy(String),
    /// Type the clipboard's text.
    Paste,
    /// Stop recording frames until `Show`.
    Hide,
    /// Resume recording frames.
    Show,
    Click { col: u16, row: u16, mods: ModSet, delay: u64 },
    RightClick { col: u16, row: u16, mods: ModSet, delay: u64 },
    DoubleClick { col: u16, row: u16, mods: ModSet, delay: u64 },
    MouseDrag {
        start_col: u16,
        start_row: u16,
        end_col: u16,
        end_row: u16,
        mods: ModSet,
        delay: u64,
        easing: Option<Easing>,
    },
    MouseMove {
        start_col: u16,
        start_row: u16,
        end_col: u16,
        end_row: u16,
        mods: ModSet,
        delay: u64,
        easing: Option<Easing>,
    },
    MouseScroll { col: u16, row: u16, direction: ScrollDirection, mods: ModSet, delay: u64 },
    /// A raw mouse input.
    MouseInput { action: MouseAction, button: Option<MouseButton>, col: u16, row: u16 },
}

/// Model of an [`Event`].
pub enum EventView {
    Type { text: Seq<char>, delay: u64 },
    Sleep(u64),
    Key { key: KeySpec, action: KeyAction, count: u32, delay: u64 },
    Wait { scope: WaitScope, timeout: u64, pattern: Seq<char> },
    Screenshot(Seq<char>),
    Copy(Seq<char>),
    Paste,
    Hide,
    Show,
    Click { col: u16, row: u16, mods: ModSet, delay: u64 },
    RightClick { col: u16, row: u16, mods: ModSet, delay: u64 },
    DoubleClick { col: u16, row: u16, mods: ModSet, delay: u64 },
    MouseDrag {
        start_col: u16,
        start_row: u16,
        end_col: u16,
        end_row: u16,
        mods: ModSet,
        delay: u64,
        easing: Option<Easing>,
    },
    MouseMove {
        start_col: u16,
        start_row: u16,
        end_col: u16,
        end_row: u16,
        mods: ModSet,
        delay: u64,
        easing: Option<Easing>,
    },
    MouseScroll { col: u16, row: u16, direction: ScrollDirection, mods: ModSet, delay: u64 },
    MouseInput { action: MouseAction, button: Option<MouseButton>, col: u16, row: u16 },
}

impl View for Event {
    type V = EventView;

    open spec fn view(&self) -> EventView {
        match self {
            Event::Type { text, delay } => EventView::Type { text: text@, delay: *delay },
            Event::Sleep(d) => EventView::Sleep(*d),
            Event::Key { key, action, count, delay } => EventView::Key {
                key: *key,
                action: *action,
                count: *count,
                delay: *delay,
            },
            Event::Wait { scope, timeout, pattern } => EventView::Wait {
                scope: *scope,
                timeout: *timeout,
                pattern: pattern@,
            },
            Event::Screenshot(p) => EventView::Screenshot(p@),
            Event::Copy(t) => EventView::Copy(t@),
            Event::Paste => EventView::Paste,
            Event::Hide => EventView::Hide,
            Event::Show => EventView::Show,
            Event::Click { col, row, mods, delay } => EventView::Click {
                col: *col,
                row: *row,
                mods: *mods,
                delay: *delay,
            },
            Event::RightClick { col, row, mods, delay } => EventView::RightClick {
                col: *col,
                row: *row,
                mods: *mods,
                delay: *delay,
            },
            Event::DoubleClick { col, row, mods, delay } => EventView::DoubleClick {
                col: *col,
                row: *row,
                mods: *mods,
                delay: *delay,
            },
            Event::MouseDrag { start_col, start_row, end_col, end_row, mods, delay, easing } =>
                EventView::MouseDrag {
                start_col: *start_col,
                start_row: *start_row,
                end_col: *end_col,
                end_row: *end_row,
                mods: *mods,
                delay: *delay,
                easing: *easing,
            },
            Event::MouseMove { start_col, start_row, end_col, end_row, mods, delay, easing } =>
                EventView::MouseMove {
                start_col: *start_col,
                start_row: *start_row,
                end_col: *end_col,
                end_row: *end_row,
                mods: *mods,
                delay: *delay,
                easing: *easing,
            },
            Event::MouseScroll { col, row, direction, mods, delay } => EventView::MouseScroll {
                col: *col,
                row: *row,
                direction: *direction,
                mods: *mods,
                delay: *delay,
            },
            Event::MouseInput { action, button, col, row } => EventView::MouseInput {
                action: *action,
                button: *button,
                col: *col,
                row: *row,
            },
        }
    }
}

pub open spec fn events_view(v: Seq<Event>) -> Seq<EventView> {
    v.map_values(|e: Event| e@)
}

pub open spec fn strings_view(v: Seq<String>) -> Seq<Seq<char>> {
    v.map_values(|s: String| s@)
}

pub open spec fn pairs_view(v: Seq<(String, String)>) -> Seq<(Seq<char>, Seq<char>)> {
    v.map_values(|p: (String, String)| (p.0@, p.1@))
}

/// A parsed script.
#[derive(Debug)]
pub struct Script {
    /// Output paths (`Output out.gif`).
    pub outputs: Vec<String>,
    /// The `Set` directives.
    pub settings: Settings,
    /// Environment variables for the shell.
    pub env: Vec<(String, String)>,
    /// Programs the script requires.
    pub require: Vec<String>,
    /// The timeline.
    pub events: Vec<Event>,
}

/// Model of a [`Script`].
pub struct ScriptView {
    pub outputs: Seq<Seq<char>>,
    pub settings: SettingsView,
    pub env: Seq<(Seq<char>, Seq<char>)>,
    pub require: Seq<Seq<char>>,
    pub events: Seq<EventView>,
}

impl View for Script {
    type V = ScriptView;

    open spec fn view(&self) -> ScriptView {
        ScriptView {
            outputs: strings_view(self.outputs@),
            settings: self.settings@,
            env: pairs_view(self.env@),
            require: strings_view(self.require@),
            events: events_view(self.events@),
        }
    }
}

/// The script with no line read yet.
pub open spec fn empty_script() -> ScriptView {
    ScriptView {
        outputs: Seq::empty(),
        settings: default_settings(),
        env: Seq::empty(),
        require: Seq::empty(),
        events: Seq::empty(),
    }
}

impl Default for Script {
    fn default() -> (r: Self)
        ensures
            r@ == empty_script(),
    {
        let r = Script {
            outputs: Vec::new(),
            settings: Settings::default(),
            env: Vec::new(),
            require: Vec::new(),
            events: Vec::new(),
        };
        assert(r@.outputs =~= Seq::<Seq<char>>::empty());
        assert(r@.env =~= Seq::<(Seq<char>, Seq<char>)>::empty());
        assert(r@.require =~= Seq::<Seq<char>>::empty());
        assert(r@.events =~= Seq::<EventView>::empty());
        r
    }
}

} // verus!
