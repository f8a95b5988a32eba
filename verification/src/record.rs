//! What an interactive recording session writes down: the decisions that
//! turn host key, paste and mouse input into tape events. Times are
//! nanoseconds since the session started.

use vstd::prelude::*;
use crate::recording::CellView;
use crate::script::ast::{
    events_view, Easing, Event, EventView, KeyAction, KeySpec, ModSet, MouseAction, MouseButton,
    NamedKey, ScrollDirection,
};

verus! {

/// The delay recorded on typed text, keys and clicks: 50 milliseconds.
pub open spec fn event_delay() -> u64 {
    50_000_000
}

/// Idle time after which a pause is written as a `Sleep`: 50 ms.
pub open spec fn sleep_threshold() -> u64 {
    50_000_000
}

/// Idle time after which buffered characters are written out: 1 s.
pub open spec fn flush_threshold() -> u64 {
    1_000_000_000
}

/// Whether a key is buffered as typed text: a character with neither
/// Ctrl, Alt nor Super held.
pub open spec fn is_simple_char(key: NamedKey, mods: ModSet) -> bool {
    key is Char && !mods.ctrl && !mods.alt && !mods.super_key
}

/// Decisions state of a recording session.
pub struct TapeRecorder {
    events: Vec<Event>,
    last_event_ns: u64,
    chars: Vec<char>,
    dragging: bool,
    drag_start: (u16, u16),
}

/// Model of a [`TapeRecorder`].
pub struct RecorderView {
    pub events: Seq<EventView>,
    pub last_event_ns: u64,
    pub chars: Seq<char>,
    pub dragging: bool,
    pub drag_start: (u16, u16),
}

impl View for TapeRecorder {
    type V = RecorderView;

    closed spec fn view(&self) -> RecorderView {
        RecorderView {
            events: events_view(self.events@),
            last_event_ns: self.last_event_ns,
            chars: self.chars@,
            dragging: self.dragging,
            drag_start: self.drag_start,
        }
    }
}

/// `a - b`, or zero when `b` is later.
pub open spec fn elapsed(now: u64, since: u64) -> u64 {
    if now >= since {
        (now - since) as u64
    } else {
        0
    }
}

/// Buffered characters written out as one `Type` event.
pub open spec fn spec_flush_chars(s: RecorderView, now: u64) -> RecorderView {
    if s.chars.len() > 0 {
        RecorderView {
            events: s.events.push(EventView::Type { text: s.chars, delay: event_delay() }),
            chars: Seq::empty(),
            last_event_ns: now,
            ..s
        }
    } else {
        s
    }
}

/// A pause longer than the threshold written as a `Sleep`.
pub open spec fn spec_note_idle(s: RecorderView, now: u64) -> RecorderView {
    let idle = elapsed(now, s.last_event_ns);
    if idle > sleep_threshold() {
        RecorderView { events: s.events.push(EventView::Sleep(idle)), ..s }
    } else {
        s
    }
}

/// A host key event. Presses of plain characters are buffered into typed
/// text; other presses are written as keys. Buffered text is written out
/// first when the key is not a plain character or after a second of
/// idleness, and a pause is written as a `Sleep` when nothing is buffered.
/// Releases write nothing.
pub open spec fn spec_key(s: RecorderView, key: NamedKey, mods: ModSet, action: KeyAction, now: u64) -> RecorderView {
    if action == KeyAction::Release {
        s
    } else {
        let simple = is_simple_char(key, mods);
        let s1 = if elapsed(now, s.last_event_ns) > flush_threshold() || !simple {
            spec_flush_chars(s, now)
        } else {
            s
        };
        let idle = elapsed(now, s1.last_event_ns);
        let s2 = if idle > sleep_threshold() && s1.chars.len() == 0 {
            RecorderView { events: s1.events.push(EventView::Sleep(idle)), last_event_ns: now, ..s1 }
        } else {
            s1
        };
        if simple {
            RecorderView { chars: s2.chars.push(key->Char_0), ..s2 }
        } else {
            RecorderView {
                events: s2.events.push(
                    EventView::Key {
                        key: KeySpec { key, mods },
                        action: KeyAction::Press,
                        count: 1,
                        delay: event_delay(),
                    },
                ),
                last_event_ns: now,
                ..s2
            }
        }
    }
}

/// Pasted text: buffered characters first, a pause, then the text typed.
pub open spec fn spec_paste(s: RecorderView, text: Seq<char>, now: u64) -> RecorderView {
    let s1 = spec_note_idle(spec_flush_chars(s, now), now);
    RecorderView {
        events: s1.events.push(EventView::Type { text, delay: event_delay() }),
        last_event_ns: now,
        ..s1
    }
}

/// The start of a mouse event inside the grid: buffered characters are
/// written out, and a left press or release starts or ends dragging.
pub open spec fn spec_begin_mouse(s: RecorderView, action: MouseAction, button: Option<MouseButton>, now: u64) -> RecorderView {
    let s1 = spec_flush_chars(s, now);
    if button == Some(MouseButton::Left) && action == MouseAction::Press {
        RecorderView { dragging: true, ..s1 }
    } else if button == Some(MouseButton::Left) && action == MouseAction::Release {
        RecorderView { dragging: false, ..s1 }
    } else {
        s1
    }
}

/// A mouse press or release (after any movement segment was written): a
/// pause first, then a left release writes a click where it was pressed or
/// a drag from there; a right release writes a right click; a wheel
/// release writes a scroll.
pub open spec fn spec_mouse_button(
    s: RecorderView,
    action: MouseAction,
    button: Option<MouseButton>,
    col: u16,
    row: u16,
    mods: ModSet,
    now: u64,
) -> RecorderView {
    let s1 = spec_note_idle(s, now);
    let s2 = if action == MouseAction::Press {
        if button == Some(MouseButton::Left) {
            RecorderView { drag_start: (col, row), ..s1 }
        } else {
            s1
        }
    } else if action == MouseAction::Release {
        if button == Some(MouseButton::Left) {
            if (col, row) == s1.drag_start {
                RecorderView {
                    events: s1.events.push(EventView::Click { col, row, mods, delay: event_delay() }),
                    ..s1
                }
            } else {
                RecorderView {
                    events: s1.events.push(
                        EventView::MouseDrag {
                            start_col: s1.drag_start.0,
                            start_row: s1.drag_start.1,
                            end_col: col,
                            end_row: row,
                            mods,
                            delay: event_delay(),
                            easing: Some(Easing::InOutElastic),
                        },
                    ),
                    ..s1
                }
            }
        } else if button == Some(MouseButton::Right) {
            RecorderView {
                events: s1.events.push(EventView::RightClick { col, row, mods, delay: event_delay() }),
                ..s1
            }
        } else if button == Some(MouseButton::WheelUp) || button == Some(MouseButton::WheelDown) {
            RecorderView {
                events: s1.events.push(
                    EventView::MouseScroll {
                        col,
                        row,
                        direction: if button == Some(MouseButton::WheelUp) {
                            ScrollDirection::Up
                        } else {
                            ScrollDirection::Down
                        },
                        mods,
                        delay: event_delay(),
                    },
                ),
                ..s1
            }
        } else {
            s1
        }
    } else {
        s1
    };
    RecorderView { last_event_ns: now, ..s2 }
}

fn elapsed_exec(now: u64, since: u64) -> (r: u64)
    ensures
        r == elapsed(now, since),
{
    if now >= since {
        now - since
    } else {
        0
    }
}

impl TapeRecorder {
    /// A session with nothing recorded yet, started at time zero.
    pub fn new() -> (r: TapeRecorder)
        ensures
            r@.events == Seq::<EventView>::empty(),
            r@.chars == Seq::<char>::empty(),
            r@.last_event_ns == 0,
            !r@.dragging,
            r@.drag_start == (0u16, 0u16),
    {
        let r = TapeRecorder {
            events: Vec::new(),
            last_event_ns: 0,
            chars: Vec::new(),
            dragging: false,
            drag_start: (0, 0),
        };
        assert(events_view(r.events@) =~= Seq::<EventView>::empty());
        r
    }

    /// Whether the left button is held.
    pub fn is_dragging(&self) -> (r: bool)
        ensures
            r == self@.dragging,
    {
        self.dragging
    }

    /// Time of the last recorded input.
    pub fn last_event_ns(&self) -> (r: u64)
        ensures
            r == self@.last_event_ns,
    {
        self.last_event_ns
    }

    fn push_event(&mut self, e: Event)
        ensures
            final(self)@ == (RecorderView { events: old(self)@.events.push(e@), ..old(self)@ }),
    {
        let ghost before = self.events@;
        self.events.push(e);
        assert(events_view(self.events@) =~= events_view(before).push(e@));
    }

    /// Appends an event decided elsewhere (a mouse movement segment).
    pub fn push(&mut self, e: Event)
        ensures
            final(self)@ == (RecorderView { events: old(self)@.events.push(e@), ..old(self)@ }),
    {
        self.push_event(e);
    }

    /// Records that input happened at `now`.
    pub fn touch(&mut self, now: u64)
        ensures
            final(self)@ == (RecorderView { last_event_ns: now, ..old(self)@ }),
    {
        self.last_event_ns = now;
    }

    /// Writes buffered characters out as one `Type` event.
    pub fn flush_chars(&mut self, now: u64)
        ensures
            final(self)@ == spec_flush_chars(old(self)@, now),
    {
        if self.chars.len() > 0 {
            let text = crate::text::string_from_chars(self.chars.as_slice());
            self.push_event(Event::Type { text, delay: 50_000_000 });
            self.chars = Vec::new();
            self.last_event_ns = now;
        }
    }

    fn note_idle(&mut self, now: u64)
        ensures
            final(self)@ == spec_note_idle(old(self)@, now),
    {
        let idle = elapsed_exec(now, self.last_event_ns);
        if idle > 50_000_000 {
            self.push_event(Event::Sleep(idle));
        }
    }

    /// A host key event at `now`.
    pub fn key(&mut self, key: NamedKey, mods: ModSet, action: KeyAction, now: u64)
        ensures
            final(self)@ == spec_key(old(self)@, key, mods, action, now),
    {
        if action == KeyAction::Release {
            return;
        }
        let simple = match key {
            NamedKey::Char(_) => !mods.ctrl && !mods.alt && !mods.super_key,
            _ => false,
        };
        if elapsed_exec(now, self.last_event_ns) > 1_000_000_000 || !simple {
            self.flush_chars(now);
        }
        let idle = elapsed_exec(now, self.last_event_ns);
        if idle > 50_000_000 && self.chars.len() == 0 {
            self.push_event(Event::Sleep(idle));
            self.last_event_ns = now;
        }
        match key {
            NamedKey::Char(c) if simple => {
                self.chars.push(c);
            },
            _ => {
                self.push_event(
                    Event::Key { key: KeySpec { key, mods }, action: KeyAction::Press, count: 1, delay: 50_000_000 },
                );
                self.last_event_ns = now;
            },
        }
    }

    /// Text pasted at `now`.
    pub fn paste(&mut self, text: &str, now: u64)
        ensures
            final(self)@ == spec_paste(old(self)@, text@, now),
    {
        self.flush_chars(now);
        self.note_idle(now);
        self.push_event(Event::Type { text: text.to_string(), delay: 50_000_000 });
        self.last_event_ns = now;
    }

    /// The start of a mouse event inside the grid; returns whether the left
    /// button is now held.
    pub fn begin_mouse(&mut self, action: MouseAction, button: Option<MouseButton>, now: u64) -> (r: bool)
        ensures
            final(self)@ == spec_begin_mouse(old(self)@, action, button, now),
            r == final(self)@.dragging,
    {
        self.flush_chars(now);
        if button == Some(MouseButton::Left) && action == MouseAction::Press {
            self.dragging = true;
        } else if button == Some(MouseButton::Left) && action == MouseAction::Release {
            self.dragging = false;
        }
        self.dragging
    }

    /// A mouse press or release at a grid cell.
    pub fn mouse_button(
        &mut self,
        action: MouseAction,
        button: Option<MouseButton>,
        col: u16,
        row: u16,
        mods: ModSet,
        now: u64,
    )
        ensures
            final(self)@ == spec_mouse_button(old(self)@, action, button, col, row, mods, now),
    {
        self.note_idle(now);
        match action {
            MouseAction::Press => {
                if button == Some(MouseButton::Left) {
                    self.drag_start = (col, row);
                }
            },
            MouseAction::Release => {
                if button == Some(MouseButton::Left) {
                    if col == self.drag_start.0 && row == self.drag_start.1 {
                        self.push_event(Event::Click { col, row, mods, delay: 50_000_000 });
                    } else {
                        let (sc, sr) = self.drag_start;
                        self.push_event(
                            Event::MouseDrag {
                                start_col: sc,
                                start_row: sr,
                                end_col: col,
                                end_row: row,
                                mods,
                                delay: 50_000_000,
                                easing: Some(Easing::InOutElastic),
                            },
                        );
                    }
                } else if button == Some(MouseButton::Right) {
                    self.push_event(Event::RightClick { col, row, mods, delay: 50_000_000 });
                } else if button == Some(MouseButton::WheelUp) {
                    self.push_event(
                        Event::MouseScroll { col, row, direction: ScrollDirection::Up, mods, delay: 50_000_000 },
                    );
                } else if button == Some(MouseButton::WheelDown) {
                    self.push_event(
                        Event::MouseScroll { col, row, direction: ScrollDirection::Down, mods, delay: 50_000_000 },
                    );
                }
            },
            MouseAction::Motion => {},
        }
        self.last_event_ns = now;
    }

    /// The recorded events, buffered characters written out first.
    pub fn finish(self, now: u64) -> (r: Vec<Event>)
        ensures
            events_view(r@) == spec_flush_chars(self@, now).events,
    {
        let mut s = self;
        s.flush_chars(now);
        s.events
    }
}

// ---------------------------------------------------------------------------
// The status header shown above the terminal while recording
// ---------------------------------------------------------------------------

/// How a character of the status header is drawn.
#[derive(Debug, Clone, Copy, PartialEq, Eq, Structural)]
pub enum HeaderStyle {
    /// The blinking dot.
    Dot,
    /// Ordinary text.
    Plain,
    /// The "click here" link that stops the recording.
    Link,
}

/// Each character of `s` in style `st`.
pub open spec fn styled(s: Seq<char>, st: HeaderStyle) -> Seq<(char, HeaderStyle)> {
    s.map_values(|c: char| (c, st))
}

/// The header's sentence between the dot and the link; `out_size` is the
/// output file's size as written for people.
pub open spec fn header_text(elapsed_secs: u64, out_filename: Seq<char>, out_size: Seq<char>) -> Seq<char> {
    " EVP recording active ("@ + crate::decimal::nat_text(elapsed_secs as nat) + "s) ["@ + out_filename + ": "@
        + out_size + "]. To stop recording, exit the program or "@
}

/// The header's characters in order, each with its style: the dot (or a
/// blank), the sentence, the link, a full stop, and the last mouse event
/// when there is one.
pub open spec fn header_chars(
    elapsed_secs: u64,
    show_dot: bool,
    mouse_info: Option<Seq<char>>,
    out_filename: Seq<char>,
    out_size: Seq<char>,
) -> Seq<(char, HeaderStyle)> {
    styled(if show_dot { "\u{25cf}"@ } else { " "@ }, HeaderStyle::Dot) + styled(
        header_text(elapsed_secs, out_filename, out_size),
        HeaderStyle::Plain,
    ) + styled("click here"@, HeaderStyle::Link) + styled(
        if mouse_info is Some { ". "@ } else { "."@ },
        HeaderStyle::Plain,
    ) + match mouse_info {
        Some(m) => styled(m, HeaderStyle::Plain),
        None => Seq::empty(),
    }
}

/// Where the `k`-th header character goes in an area `width` cells wide
/// whose top left cell is (`ax`, `ay`): the text wraps at the right edge.
pub open spec fn header_pos(ax: u16, ay: u16, width: u16, k: int) -> (u16, u16) {
    ((ax + k % (width as int)) as u16, (ay + k / (width as int)) as u16)
}

/// The characters among the first `n` that fall inside the area's
/// `height` rows, with their cells.
pub open spec fn header_cells(
    chars: Seq<(char, HeaderStyle)>,
    ax: u16,
    ay: u16,
    width: u16,
    height: u16,
    n: int,
) -> Seq<(u16, u16, char, HeaderStyle)>
    decreases n,
{
    if n <= 0 {
        Seq::empty()
    } else {
        let prev = header_cells(chars, ax, ay, width, height, n - 1);
        let (x, y) = header_pos(ax, ay, width, n - 1);
        if y < ay + height {
            prev.push((x, y, chars[n - 1].0, chars[n - 1].1))
        } else {
            prev
        }
    }
}

/// The cells of the link among the first `n` characters.
pub open spec fn link_cells(chars: Seq<(char, HeaderStyle)>, ax: u16, ay: u16, width: u16, n: int) -> Seq<(u16, u16)>
    decreases n,
{
    if n <= 0 {
        Seq::empty()
    } else {
        let prev = link_cells(chars, ax, ay, width, n - 1);
        if chars[n - 1].1 == HeaderStyle::Link {
            prev.push(header_pos(ax, ay, width, n - 1))
        } else {
            prev
        }
    }
}

/// Where the header's characters went: the rows it takes, the cells of
/// the link, and each character drawn inside the area.
pub struct HeaderLayout {
    pub height: u16,
    pub click_cells: Vec<(u16, u16)>,
    pub cells: Vec<(u16, u16, char, HeaderStyle)>,
}

/// Whether the header's cell coordinates fit in a `u16`.
pub open spec fn header_fits(ax: u16, ay: u16, width: u16, n: int) -> bool {
    &&& ax + width <= u16::MAX
    &&& ay + (n - 1) / (width as int) + 1 <= u16::MAX
}

proof fn lemma_wrap_step(k: int, w: int)
    requires
        w > 0,
        k >= 1,
    ensures
        (k - 1) % w == w - 1 ==> k % w == 0 && k / w == (k - 1) / w + 1,
        (k - 1) % w != w - 1 ==> k % w == (k - 1) % w + 1 && k / w == (k - 1) / w,
{
    vstd::arithmetic::div_mod::lemma_fundamental_div_mod(k - 1, w);
    let q = (k - 1) / w;
    let r = (k - 1) % w;
    assert(0 <= r < w) by {
        vstd::arithmetic::div_mod::lemma_mod_bound(k - 1, w);
    }
    assert(k - 1 == w * q + r);
    assert(w * q == q * w) by (nonlinear_arith);
    if r == w - 1 {
        assert(k == (q + 1) * w + 0) by (nonlinear_arith)
            requires
                k - 1 == q * w + r,
                r == w - 1,
        ;
        vstd::arithmetic::div_mod::lemma_fundamental_div_mod_converse(k, w, q + 1, 0);
    } else {
        assert(k == q * w + (r + 1));
        vstd::arithmetic::div_mod::lemma_fundamental_div_mod_converse(k, w, q, r + 1);
    }
}

proof fn lemma_styled_concat(a: Seq<char>, b: Seq<char>, st: HeaderStyle)
    ensures
        styled(a + b, st) =~= styled(a, st) + styled(b, st),
{
}

fn push_styled(out: &mut Vec<(char, HeaderStyle)>, s: &str, st: HeaderStyle)
    ensures
        final(out)@ == old(out)@ + styled(s@, st),
{
    let cs = crate::text::chars_of(s);
    let ghost start = out@;
    let mut i: usize = 0;
    while i < cs.len()
        invariant
            i <= cs@.len(),
            cs@ == s@,
            out@ == start + styled(cs@.take(i as int), st),
        decreases cs@.len() - i,
    {
        out.push((cs[i], st));
        assert(styled(cs@.take(i + 1), st) =~= styled(cs@.take(i as int), st).push((cs@[i as int], st)));
        i += 1;
    }
    assert(cs@.take(i as int) =~= cs@);
}

/// Lays the recording header out over an area `width` cells wide and
/// `height` rows high whose top left cell is (`ax`, `ay`); `out_size` is
/// the output file's size as the caller writes it for people. The text wraps
/// at the right edge; characters below the area are not drawn. An area
/// of width 0 takes no rows.
pub fn layout_header(
    ax: u16,
    ay: u16,
    width: u16,
    height: u16,
    elapsed_secs: u64,
    show_dot: bool,
    mouse_info: Option<&str>,
    out_filename: &str,
    out_size: &str,
) -> (r: HeaderLayout)
    requires
        width > 0 ==> header_fits(
            ax,
            ay,
            width,
            header_chars(
                elapsed_secs,
                show_dot,
                match mouse_info {
                    Some(m) => Some(m@),
                    None => None,
                },
                out_filename@,
                out_size@,
            ).len() as int,
        ),
    ensures
        ({
            let chars = header_chars(
                elapsed_secs,
                show_dot,
                match mouse_info {
                    Some(m) => Some(m@),
                    None => None,
                },
                out_filename@,
                out_size@,
            );
            let n = chars.len() as int;
            if width == 0 {
                r.height == 0 && r.click_cells@.len() == 0 && r.cells@.len() == 0
            } else {
                &&& r.height == (n - 1) / (width as int) + 1
                &&& r.click_cells@ == link_cells(chars, ax, ay, width, n)
                &&& r.cells@ == header_cells(chars, ax, ay, width, height, n)
            }
        }),
{
    let ghost mi = match mouse_info {
        Some(m) => Some(m@),
        None => None,
    };
    if width == 0 {
        return HeaderLayout { height: 0, click_cells: Vec::new(), cells: Vec::new() };
    }
    let mut chars: Vec<(char, HeaderStyle)> = Vec::new();
    push_styled(&mut chars, if show_dot { "\u{25cf}" } else { " " }, HeaderStyle::Dot);
    push_styled(&mut chars, " EVP recording active (", HeaderStyle::Plain);
    push_styled(&mut chars, crate::decimal::u64_text(elapsed_secs).as_str(), HeaderStyle::Plain);
    push_styled(&mut chars, "s) [", HeaderStyle::Plain);
    push_styled(&mut chars, out_filename, HeaderStyle::Plain);
    push_styled(&mut chars, ": ", HeaderStyle::Plain);
    push_styled(&mut chars, out_size, HeaderStyle::Plain);
    push_styled(&mut chars, "]. To stop recording, exit the program or ", HeaderStyle::Plain);
    push_styled(&mut chars, "click here", HeaderStyle::Link);
    push_styled(&mut chars, if mouse_info.is_some() { ". " } else { "." }, HeaderStyle::Plain);
    match mouse_info {
        Some(m) => push_styled(&mut chars, m, HeaderStyle::Plain),
        None => {},
    }
    let ghost hc = header_chars(elapsed_secs, show_dot, mi, out_filename@, out_size@);
    proof {
        let p = HeaderStyle::Plain;
        let t = header_text(elapsed_secs, out_filename@, out_size@);
        let s1 = " EVP recording active ("@;
        let s2 = crate::decimal::nat_text(elapsed_secs as nat);
        let s3 = "s) ["@;
        let s4 = out_filename@;
        let s5 = ": "@;
        let s6 = out_size@;
        let s7 = "]. To stop recording, exit the program or "@;
        lemma_styled_concat(s1, s2, p);
        lemma_styled_concat(s1 + s2, s3, p);
        lemma_styled_concat(s1 + s2 + s3, s4, p);
        lemma_styled_concat(s1 + s2 + s3 + s4, s5, p);
        lemma_styled_concat(s1 + s2 + s3 + s4 + s5, s6, p);
        lemma_styled_concat(s1 + s2 + s3 + s4 + s5 + s6, s7, p);
        assert(chars@ =~= hc);
    }
    let n = chars.len();
    let mut click_cells: Vec<(u16, u16)> = Vec::new();
    let mut cells: Vec<(u16, u16, char, HeaderStyle)> = Vec::new();
    let mut x: u16 = ax;
    let mut y: u16 = ay;
    let mut k: usize = 0;
    assert(n >= 1);
    while k < n
        invariant
            k <= n,
            n == chars@.len(),
            chars@ == hc,
            n >= 1,
            width > 0,
            header_fits(ax, ay, width, n as int),
            k == 0 ==> x == ax && y == ay,
            k >= 1 ==> x == ax + ((k - 1) % (width as int)) + 1 && y == ay + (k - 1) / (width as int),
            click_cells@ == link_cells(hc, ax, ay, width, k as int),
            cells@ == header_cells(hc, ax, ay, width, height, k as int),
        decreases n - k,
    {
        proof {
            if k >= 1 {
                lemma_wrap_step(k as int, width as int);
                vstd::arithmetic::div_mod::lemma_mod_bound((k - 1) as int, width as int);
            }
            vstd::arithmetic::div_mod::lemma_div_is_ordered(k as int, (n - 1) as int, width as int);
            vstd::arithmetic::div_mod::lemma_mod_bound(k as int, width as int);
            if k == 0 {
                assert(0int % (width as int) == 0 && 0int / (width as int) == 0) by {
                    vstd::arithmetic::div_mod::lemma_fundamental_div_mod_converse(0, width as int, 0, 0);
                }
            }
        }
        if x >= ax + width {
            x = ax;
            y = y + 1;
        }
        assert((x, y) == header_pos(ax, ay, width, k as int));
        let (c, st) = chars[k];
        if (y as u32) < ay as u32 + height as u32 {
            cells.push((x, y, c, st));
        }
        if st == HeaderStyle::Link {
            click_cells.push((x, y));
        }
        x = x + 1;
        k += 1;
    }
    HeaderLayout { height: (y - ay) + 1, click_cells, cells }
}

/// Whether the host mouse pointer is over the header's link.
pub fn header_hovered(click_cells: &Vec<(u16, u16)>, pos: (u16, u16)) -> (r: bool)
    ensures
        r == click_cells@.contains(pos),
{
    let mut i: usize = 0;
    while i < click_cells.len()
        invariant
            i <= click_cells@.len(),
            forall|j: int| 0 <= j < i ==> click_cells@[j] != pos,
        decreases click_cells@.len() - i,
    {
        if click_cells[i].0 == pos.0 && click_cells[i].1 == pos.1 {
            assert(click_cells@[i as int] == pos);
            return true;
        }
        i += 1;
    }
    false
}

/// Whether the header's dot shows: during the first half of each second.
pub fn header_dot_shows(elapsed_ms: u128) -> (r: bool)
    ensures
        r == (elapsed_ms % 1000 < 500),
{
    elapsed_ms % 1000 < 500
}

// ---------------------------------------------------------------------------
// Mouse movement segments
// ---------------------------------------------------------------------------

/// Longest pause, in nanoseconds, inside one movement segment.
pub open spec fn segment_pause() -> u64 {
    500_000_000
}

/// Shortest delay, in nanoseconds, written for a movement.
pub open spec fn min_move_delay() -> u64 {
    50_000_000
}

/// The pointer positions of one continuous movement, with their times in
/// nanoseconds; positions are pixels when `track_pixels` holds, else cells.
pub struct MouseSegmentTracker {
    pub points: Vec<(u16, u16, u64)>,
    pub is_drag: bool,
    pub mods: ModSet,
    pub track_pixels: bool,
    pub cell_width: u32,
    pub cell_height: u32,
}

/// The points after one more: a pause longer than half a second starts a
/// new segment (the old one is handed back to be written); staying on the
/// same position only refreshes its time.
pub open spec fn spec_add_point(points: Seq<(u16, u16, u64)>, col: u16, row: u16, now: u64) -> (Seq<(u16, u16, u64)>, Option<Seq<(u16, u16, u64)>>) {
    if points.len() == 0 {
        (seq![(col, row, now)], None)
    } else if elapsed(now, points.last().2) > segment_pause() {
        (seq![(col, row, now)], Some(points))
    } else if points.last().0 == col && points.last().1 == row {
        (points.drop_last().push((col, row, now)), None)
    } else {
        (points.push((col, row, now)), None)
    }
}

impl MouseSegmentTracker {
    /// An empty segment.
    pub fn new(is_drag: bool, mods: ModSet, track_pixels: bool, cell_width: u32, cell_height: u32) -> (r: Self)
        ensures
            r.points@.len() == 0,
            r.is_drag == is_drag,
            r.mods == mods,
            r.track_pixels == track_pixels,
            r.cell_width == cell_width,
            r.cell_height == cell_height,
    {
        MouseSegmentTracker { points: Vec::new(), is_drag, mods, track_pixels, cell_width, cell_height }
    }

    /// Adds the pointer's position at `now`. Returns the finished
    /// segment's points when a pause ended it; they are to be written with
    /// [`segment_event`].
    pub fn add_point(&mut self, col: u16, row: u16, now: u64) -> (r: Option<Vec<(u16, u16, u64)>>)
        ensures
            (final(self).points@, match r {
                Some(v) => Some(v@),
                None => None,
            }) == spec_add_point(old(self).points@, col, row, now),
            final(self).is_drag == old(self).is_drag,
            final(self).mods == old(self).mods,
            final(self).track_pixels == old(self).track_pixels,
            final(self).cell_width == old(self).cell_width,
            final(self).cell_height == old(self).cell_height,
    {
        let n = self.points.len();
        if n == 0 {
            self.points.push((col, row, now));
            assert(self.points@ =~= seq![(col, row, now)]);
            return None;
        }
        let last = self.points[n - 1];
        if elapsed_exec(now, last.2) > 500_000_000 {
            let mut done: Vec<(u16, u16, u64)> = Vec::new();
            std::mem::swap(&mut done, &mut self.points);
            self.points.push((col, row, now));
            assert(self.points@ =~= seq![(col, row, now)]);
            return Some(done);
        }
        if last.0 == col && last.1 == row {
            self.points.pop();
        }
        self.points.push((col, row, now));
        None
    }

    /// Ends the segment: hands back its points and starts empty.
    pub fn flush(&mut self) -> (r: Vec<(u16, u16, u64)>)
        ensures
            r@ == old(self).points@,
            final(self).points@.len() == 0,
            final(self).is_drag == old(self).is_drag,
            final(self).mods == old(self).mods,
            final(self).track_pixels == old(self).track_pixels,
            final(self).cell_width == old(self).cell_width,
            final(self).cell_height == old(self).cell_height,
    {
        let mut done: Vec<(u16, u16, u64)> = Vec::new();
        std::mem::swap(&mut done, &mut self.points);
        done
    }
}

/// A pointer position in cells: pixel positions are divided by the cell
/// size.
pub open spec fn to_cell(p: (u16, u16, u64), track_pixels: bool, cell_w: u32, cell_h: u32) -> (u16, u16) {
    if track_pixels {
        (((p.0 as u32) / cell_w) as u16, ((p.1 as u32) / cell_h) as u16)
    } else {
        (p.0, p.1)
    }
}

/// The event a finished segment is written as. `points` are its recorded
/// points, `simplified` the ones kept after simplifying the path and
/// `easing` the curve that fits it best: nothing for fewer than two of
/// either; else a drag or a move from the first kept point to the last,
/// lasting as long as they are apart in time but at least 50 ms.
pub open spec fn spec_segment_event(
    points: Seq<(u16, u16, u64)>,
    simplified: Seq<(u16, u16, u64)>,
    is_drag: bool,
    mods: ModSet,
    track_pixels: bool,
    cell_w: u32,
    cell_h: u32,
    easing: Easing,
) -> Option<EventView> {
    if points.len() < 2 || simplified.len() < 2 {
        None
    } else {
        let s = to_cell(simplified[0], track_pixels, cell_w, cell_h);
        let e = to_cell(simplified.last(), track_pixels, cell_w, cell_h);
        let d = elapsed(simplified.last().2, simplified[0].2);
        let delay = if d < min_move_delay() { min_move_delay() } else { d };
        if is_drag {
            Some(
                EventView::MouseDrag {
                    start_col: s.0,
                    start_row: s.1,
                    end_col: e.0,
                    end_row: e.1,
                    mods,
                    delay,
                    easing: Some(easing),
                },
            )
        } else {
            Some(
                EventView::MouseMove {
                    start_col: s.0,
                    start_row: s.1,
                    end_col: e.0,
                    end_row: e.1,
                    mods,
                    delay,
                    easing: Some(easing),
                },
            )
        }
    }
}

/// Writes a finished segment as one event; see [`spec_segment_event`].
pub fn segment_event(
    points: &Vec<(u16, u16, u64)>,
    simplified: &Vec<(u16, u16, u64)>,
    is_drag: bool,
    mods: ModSet,
    track_pixels: bool,
    cell_w: u32,
    cell_h: u32,
    easing: Easing,
) -> (r: Option<Event>)
    requires
        track_pixels ==> cell_w > 0 && cell_h > 0,
    ensures
        match r {
            Some(e) => spec_segment_event(points@, simplified@, is_drag, mods, track_pixels, cell_w, cell_h, easing) == Some(e@),
            None => spec_segment_event(points@, simplified@, is_drag, mods, track_pixels, cell_w, cell_h, easing) is None,
        },
{
    if points.len() < 2 || simplified.len() < 2 {
        return None;
    }
    let first = simplified[0];
    let last = simplified[simplified.len() - 1];
    let (sc, sr) = if track_pixels {
        ((first.0 as u32 / cell_w) as u16, (first.1 as u32 / cell_h) as u16)
    } else {
        (first.0, first.1)
    };
    let (ec, er) = if track_pixels {
        ((last.0 as u32 / cell_w) as u16, (last.1 as u32 / cell_h) as u16)
    } else {
        (last.0, last.1)
    };
    let d = elapsed_exec(last.2, first.2);
    let delay = if d < 50_000_000 { 50_000_000 } else { d };
    if is_drag {
        Some(Event::MouseDrag { start_col: sc, start_row: sr, end_col: ec, end_row: er, mods, delay, easing: Some(easing) })
    } else {
        Some(Event::MouseMove { start_col: sc, start_row: sr, end_col: ec, end_row: er, mods, delay, easing: Some(easing) })
    }
}

// ---------------------------------------------------------------------------
// The live preview of the terminal grid
// ---------------------------------------------------------------------------

/// The displayed width of a character, in columns, as `unicode-width`
/// reports it; `None` for a control character.
pub uninterp spec fn spec_char_width(c: char) -> Option<usize>;

/// Trusted: `unicode_width::UnicodeWidthChar::width`. Its result depends on
/// the character alone; the crate's source shows that characters below
/// U+0020 and from U+007F up to U+00A0 are control characters (`None`), that
/// the rest of ASCII is one column wide, and that from U+00A0 on every
/// character has a width. The width of those comes from the crate's
/// Unicode tables and is left unsaid.
#[verifier::external_body]
fn char_width(c: char) -> (r: Option<usize>)
    ensures
        r == spec_char_width(c),
        (c < '\u{20}' || ('\u{7f}' <= c && c < '\u{a0}')) ==> r is None,
        ('\u{20}' <= c && c < '\u{7f}') ==> r == Some(1usize),
        c >= '\u{a0}' ==> r is Some,
{
    unicode_width::UnicodeWidthChar::width(c)
}

/// Whether a cell shows a double-width character, whose right half is the
/// next cell.
pub open spec fn is_wide_cell(c: CellView) -> bool {
    c.text.len() > 0 && spec_char_width(c.text[0]) == Some(2usize)
}

/// The indices of the cells of row `r` from column `c` on that the preview
/// draws: every cell of the row that exists, except the one right after a
/// double-width character.
pub open spec fn preview_from(cells: Seq<CellView>, cols: int, r: int, c: int, prev_wide: bool) -> Seq<int>
    decreases cols - c,
{
    if c >= cols || c < 0 || r * cols + c >= cells.len() {
        Seq::empty()
    } else if prev_wide {
        preview_from(cells, cols, r, c + 1, false)
    } else {
        seq![r * cols + c] + preview_from(cells, cols, r, c + 1, is_wide_cell(cells[r * cols + c]))
    }
}

/// The cells of row `r` the live preview draws, left to right.
pub fn preview_row_cells(cells: &Vec<crate::recording::CellSnap>, cols: u16, r: u16) -> (v: Vec<usize>)
    ensures
        v@.map_values(|i: usize| i as int) == preview_from(crate::recording::cells_view(cells@), cols as int, r as int, 0, false),
{
    let ghost cv = crate::recording::cells_view(cells@);
    let mut out: Vec<usize> = Vec::new();
    let mut prev_wide = false;
    let mut c: u16 = 0;
    assert(r as int * cols as int + cols as int <= 0xffff * 0xffff + 0xffff) by (nonlinear_arith)
        requires
            r <= 0xffff,
            cols <= 0xffff,
    ;
    let base: usize = r as usize * cols as usize;
    while c < cols
        invariant
            c <= cols,
            base == r as int * cols as int,
            base + cols <= 0xffff * 0xffff + 0xffff,
            cv == crate::recording::cells_view(cells@),
            out@.map_values(|i: usize| i as int) + preview_from(cv, cols as int, r as int, c as int, prev_wide)
                == preview_from(cv, cols as int, r as int, 0, false),
        decreases cols - c,
    {
        let idx = base + c as usize;
        if idx >= cells.len() {
            assert(preview_from(cv, cols as int, r as int, c as int, prev_wide) =~= Seq::<int>::empty());
            assert(out@.map_values(|i: usize| i as int) + Seq::<int>::empty() =~= out@.map_values(|i: usize| i as int));
            return out;
        }
        let ghost before = out@;
        if prev_wide {
            prev_wide = false;
        } else {
            out.push(idx);
            assert(out@.map_values(|i: usize| i as int) =~= before.map_values(|i: usize| i as int).push(idx as int));
            let t = crate::text::chars_of(cells[idx].text.as_str());
            assert(cv[idx as int] == cells@[idx as int]@);
            prev_wide = if t.len() > 0 {
                match char_width(t[0]) {
                    Some(wd) => wd == 2,
                    None => false,
                }
            } else {
                false
            };
            assert(prev_wide == is_wide_cell(cv[idx as int]));
            assert(before.map_values(|i: usize| i as int).push(idx as int) + preview_from(
                cv,
                cols as int,
                r as int,
                c + 1,
                prev_wide,
            ) =~= before.map_values(|i: usize| i as int) + (seq![idx as int] + preview_from(
                cv,
                cols as int,
                r as int,
                c + 1,
                prev_wide,
            )));
        }
        c += 1;
    }
    assert(preview_from(cv, cols as int, r as int, c as int, prev_wide) =~= Seq::<int>::empty());
    assert(out@.map_values(|i: usize| i as int) + Seq::<int>::empty() =~= out@.map_values(|i: usize| i as int));
    out
}

/// Where the host terminal's cursor goes in the preview: at the frame's
/// cursor when it shows on the grid, moved down past the header and the
/// divider line below it.
pub fn preview_cursor(cursor: Option<(u16, u16)>, cols: u16, rows: u16, header_height: u16) -> (r: Option<(u16, u16)>)
    requires
        rows as int + header_height as int <= u16::MAX,
    ensures
        r == match cursor {
            Some((c, w)) => if c < cols && w < rows {
                Some((c, (w + header_height + 1) as u16))
            } else {
                None
            },
            None => None,
        },
{
    match cursor {
        Some((c, w)) => {
            if c < cols && w < rows {
                Some((c, w + header_height + 1))
            } else {
                None
            }
        },
        None => None,
    }
}

} // verus!
