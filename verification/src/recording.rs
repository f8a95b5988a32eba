//! Recording artifact: a sequence of terminal frames captured at a fixed
//! framerate. Dense [`RawFrame`]s are folded into a [`Recording`] that keeps
//! keyframes in full and every other frame as the list of cells that changed
//! against the frame before it.

use vstd::prelude::*;
use crate::style::FrameStyle;
use crate::render_common::ViewportConfig;

verus! {

broadcast use vstd::array::group_array_axioms;

/// Packed style flags of a [`CellSnap`].
pub const STYLE_BOLD: u8 = 1;
pub const STYLE_ITALIC: u8 = 2;
pub const STYLE_UNDERLINE: u8 = 4;
pub const STYLE_INVERSE: u8 = 8;
pub const STYLE_STRIKETHROUGH: u8 = 16;
/// SGR 2 faint/dim: foreground blended halfway toward the background.
pub const STYLE_DIM: u8 = 32;

/// Whether two colours are equal.
pub fn rgb_eq(a: [u8; 3], b: [u8; 3]) -> (r: bool)
    ensures
        r == (a == b),
{
    broadcast use vstd::array::group_array_axioms;

    let r = a[0] == b[0] && a[1] == b[1] && a[2] == b[2];
    if r {
        assert(a =~= b);
    }
    r
}

/// Whether two optional colours are equal.
pub fn opt_rgb_eq(a: Option<[u8; 3]>, b: Option<[u8; 3]>) -> (r: bool)
    ensures
        r == (a == b),
{
    match (a, b) {
        (Some(x), Some(y)) => rgb_eq(x, y),
        (None, None) => true,
        _ => false,
    }
}

/// Whether two optional grid positions are equal.
pub fn opt_pos_eq(a: Option<(u16, u16)>, b: Option<(u16, u16)>) -> (r: bool)
    ensures
        r == (a == b),
{
    match (a, b) {
        (Some(x), Some(y)) => x.0 == y.0 && x.1 == y.1,
        (None, None) => true,
        _ => false,
    }
}

/// View of an optional string as an optional character sequence.
pub open spec fn opt_str_view(s: Option<String>) -> Option<Seq<char>> {
    match s {
        Some(t) => Some(t@),
        None => None,
    }
}

/// Copies an optional string.
pub fn clone_opt_string(s: &Option<String>) -> (r: Option<String>)
    ensures
        opt_str_view(r) == opt_str_view(*s),
{
    match s {
        Some(t) => Some(t.clone()),
        None => None,
    }
}

/// Whether two optional strings hold the same characters.
pub fn opt_string_eq(a: &Option<String>, b: &Option<String>) -> (r: bool)
    ensures
        r == (opt_str_view(*a) == opt_str_view(*b)),
{
    match (a, b) {
        (Some(x), Some(y)) => crate::text::str_eq(x.as_str(), y.as_str()),
        (None, None) => true,
        _ => false,
    }
}

/// A single coloured cell.
#[derive(Debug)]
pub struct CellSnap {
    /// Grapheme cluster in this cell; empty for a blank cell or for the
    /// continuation of a wide character to its left.
    pub text: String,
    pub fg: [u8; 3],
    pub bg: [u8; 3],
    /// Packed style flags (`STYLE_*`).
    pub flags: u8,
}

/// Mathematical model of a [`CellSnap`].
#[verifier::ext_equal]
pub struct CellView {
    pub text: Seq<char>,
    pub fg: [u8; 3],
    pub bg: [u8; 3],
    pub flags: u8,
}

impl View for CellSnap {
    type V = CellView;

    open spec fn view(&self) -> CellView {
        CellView { text: self.text@, fg: self.fg, bg: self.bg, flags: self.flags }
    }
}

/// Model of a sequence of cells.
pub open spec fn cells_view(cells: Seq<CellSnap>) -> Seq<CellView> {
    cells.map_values(|c: CellSnap| c@)
}

impl CellSnap {
    /// A blank cell in the given default colours.
    pub fn blank(default_fg: [u8; 3], default_bg: [u8; 3]) -> (r: Self)
        ensures
            r@ == (CellView { text: Seq::empty(), fg: default_fg, bg: default_bg, flags: 0 }),
    {
        CellSnap { text: String::new(), fg: default_fg, bg: default_bg, flags: 0 }
    }

    /// A copy of this cell.
    pub fn clone_cell(&self) -> (r: Self)
        ensures
            r@ == self@,
    {
        CellSnap { text: self.text.clone(), fg: self.fg, bg: self.bg, flags: self.flags }
    }

    /// Whether two cells look the same (same text, colours and flags).
    pub fn same_as(&self, other: &CellSnap) -> (r: bool)
        ensures
            r == (self@ == other@),
    {
        crate::text::str_eq(self.text.as_str(), other.text.as_str()) && rgb_eq(self.fg, other.fg)
            && rgb_eq(self.bg, other.bg) && self.flags == other.flags
    }
}

/// Copies a vector of cells.
pub fn clone_cells(cells: &Vec<CellSnap>) -> (r: Vec<CellSnap>)
    ensures
        cells_view(r@) == cells_view(cells@),
{
    let mut out: Vec<CellSnap> = Vec::new();
    let mut i: usize = 0;
    while i < cells.len()
        invariant
            i <= cells@.len(),
            out@.len() == i,
            forall|j: int| 0 <= j < i ==> #[trigger] out@[j]@ == cells@[j]@,
        decreases cells@.len() - i,
    {
        let c = cells[i].clone_cell();
        out.push(c);
        i += 1;
    }
    assert(cells_view(out@) =~= cells_view(cells@));
    out
}

/// Whether two cell vectors are equal cell by cell.
pub fn cells_eq(a: &Vec<CellSnap>, b: &Vec<CellSnap>) -> (r: bool)
    ensures
        r == (cells_view(a@) == cells_view(b@)),
{
    if a.len() != b.len() {
        assert(cells_view(a@).len() != cells_view(b@).len());
        return false;
    }
    let mut i: usize = 0;
    while i < a.len()
        invariant
            a@.len() == b@.len(),
            i <= a@.len(),
            forall|j: int| 0 <= j < i ==> a@[j]@ == b@[j]@,
        decreases a@.len() - i,
    {
        if !a[i].same_as(&b[i]) {
            assert(cells_view(a@)[i as int] != cells_view(b@)[i as int]);
            return false;
        }
        i += 1;
    }
    assert(cells_view(a@) =~= cells_view(b@));
    true
}

/// Mouse pointer state shown with a frame.
#[derive(Debug, Clone, Copy, PartialEq, Eq, Structural)]
pub enum MouseState {
    Moving,
    Clicking,
    Dragging,
}

/// Mouse pointer position in (fractional) cell coordinates, held as the bit
/// patterns of the two `f32` coordinates, plus the pointer state.
#[derive(Debug, Clone, Copy, PartialEq, Eq, Structural)]
pub struct MouseCursor {
    pub x_bits: u32,
    pub y_bits: u32,
    pub state: MouseState,
}

/// Whether two optional mouse cursors are equal.
pub fn opt_mouse_eq(a: Option<MouseCursor>, b: Option<MouseCursor>) -> (r: bool)
    ensures
        r == (a == b),
{
    match (a, b) {
        (Some(x), Some(y)) => x.x_bits == y.x_bits && x.y_bits == y.y_bits && x.state == y.state,
        (None, None) => true,
        _ => false,
    }
}

/// Pointer shape requested by the program through OSC 22.
#[derive(Debug, Clone, Copy, PartialEq, Eq, Structural)]
pub enum PointerShape {
    Default,
    Text,
    Pointer,
    Grabbing,
}

/// The pointer shape named by `name` (`Default` for any unknown name).
pub open spec fn shape_named(name: Seq<char>) -> PointerShape {
    if name == "text"@ {
        PointerShape::Text
    } else if name == "pointer"@ {
        PointerShape::Pointer
    } else if name == "grabbing"@ {
        PointerShape::Grabbing
    } else {
        PointerShape::Default
    }
}

/// The CSS name of a pointer shape.
pub open spec fn shape_name(p: PointerShape) -> Seq<char> {
    match p {
        PointerShape::Default => "default"@,
        PointerShape::Text => "text"@,
        PointerShape::Pointer => "pointer"@,
        PointerShape::Grabbing => "grabbing"@,
    }
}

impl PointerShape {
    /// The CSS name of this pointer shape.
    pub fn as_str(&self) -> (r: &'static str)
        ensures
            r@ == shape_name(*self),
    {
        match self {
            PointerShape::Default => "default",
            PointerShape::Text => "text",
            PointerShape::Pointer => "pointer",
            PointerShape::Grabbing => "grabbing",
        }
    }

    /// The pointer shape with the given CSS name; unknown names give
    /// `Default`.
    pub fn from_name(s: &str) -> (r: PointerShape)
        ensures
            r == shape_named(s@),
    {
        if crate::text::str_eq(s, "text") {
            PointerShape::Text
        } else if crate::text::str_eq(s, "pointer") {
            PointerShape::Pointer
        } else if crate::text::str_eq(s, "grabbing") {
            PointerShape::Grabbing
        } else {
            PointerShape::Default
        }
    }
}

impl std::str::FromStr for PointerShape {
    type Err = std::convert::Infallible;

    fn from_str(s: &str) -> (r: Result<Self, Self::Err>)
        ensures
            r == Ok::<PointerShape, std::convert::Infallible>(shape_named(s@)),
    {
        Ok(PointerShape::from_name(s))
    }
}

/// Naming a shape and reading the name back gives the shape again.
pub proof fn lemma_shape_name_round_trip(p: PointerShape)
    ensures
        shape_named(shape_name(p)) == p,
{
    reveal_strlit("default");
    reveal_strlit("text");
    reveal_strlit("pointer");
    reveal_strlit("grabbing");
    match p {
        PointerShape::Default => {
            assert("default"@.len() == 7);
            assert("text"@.len() == 4);
            assert("pointer"@.len() == 7);
            assert("grabbing"@.len() == 8);
            assert("default"@[0] != "pointer"@[0]);
        },
        PointerShape::Text => {},
        PointerShape::Pointer => {
            assert("pointer"@.len() != "text"@.len());
        },
        PointerShape::Grabbing => {
            assert("grabbing"@.len() != "text"@.len());
            assert("grabbing"@.len() != "pointer"@.len());
        },
    }
}

/// A complete terminal grid plus cursor state, captured at one point in
/// time.
#[derive(Debug)]
pub struct RawFrame {
    /// Time relative to recording start, in milliseconds.
    pub t_ms: u32,
    pub cols: u16,
    pub rows: u16,
    /// `cols * rows` cells in row-major order.
    pub cells: Vec<CellSnap>,
    /// Cursor (col, row) in viewport coordinates; `None` when hidden.
    pub cursor: Option<(u16, u16)>,
    pub default_fg: [u8; 3],
    pub default_bg: [u8; 3],
    pub cursor_color: Option<[u8; 3]>,
    pub cursor_accent: Option<[u8; 3]>,
    pub mouse_cursor: Option<MouseCursor>,
    pub pointer_shape: PointerShape,
    pub title: Option<String>,
}

/// Mathematical model of a [`RawFrame`].
#[verifier::ext_equal]
pub struct RawFrameView {
    pub t_ms: u32,
    pub cols: u16,
    pub rows: u16,
    pub cells: Seq<CellView>,
    pub cursor: Option<(u16, u16)>,
    pub default_fg: [u8; 3],
    pub default_bg: [u8; 3],
    pub cursor_color: Option<[u8; 3]>,
    pub cursor_accent: Option<[u8; 3]>,
    pub mouse_cursor: Option<MouseCursor>,
    pub pointer_shape: PointerShape,
    pub title: Option<Seq<char>>,
}

impl View for RawFrame {
    type V = RawFrameView;

    open spec fn view(&self) -> RawFrameView {
        RawFrameView {
            t_ms: self.t_ms,
            cols: self.cols,
            rows: self.rows,
            cells: cells_view(self.cells@),
            cursor: self.cursor,
            default_fg: self.default_fg,
            default_bg: self.default_bg,
            cursor_color: self.cursor_color,
            cursor_accent: self.cursor_accent,
            mouse_cursor: self.mouse_cursor,
            pointer_shape: self.pointer_shape,
            title: opt_str_view(self.title),
        }
    }
}

impl RawFrame {
    /// Whether two frames would render identically: every field but the
    /// timestamp is equal.
    pub fn is_visually_identical(&self, other: &RawFrame) -> (r: bool)
        ensures
            r == (self@ == RawFrameView { t_ms: self@.t_ms, ..other@ }),
    {
        let a = self.cols == other.cols && self.rows == other.rows;
        let b = opt_pos_eq(self.cursor, other.cursor);
        let c = rgb_eq(self.default_fg, other.default_fg) && rgb_eq(self.default_bg, other.default_bg);
        let d = opt_rgb_eq(self.cursor_color, other.cursor_color) && opt_rgb_eq(self.cursor_accent, other.cursor_accent);
        let e = opt_string_eq(&self.title, &other.title);
        let f = opt_mouse_eq(self.mouse_cursor, other.mouse_cursor);
        let g = self.pointer_shape == other.pointer_shape;
        let h = cells_eq(&self.cells, &other.cells);
        let r = a && b && c && d && e && f && g && h;
        if r {
            assert(self@.cells == other@.cells);
            assert(self@.title == other@.title);
            assert(self@.pointer_shape == other@.pointer_shape);
            assert(self@.mouse_cursor == other@.mouse_cursor);
            assert(self@.default_fg == other@.default_fg);
            assert(self@.default_bg == other@.default_bg);
            assert(self@.cursor_color == other@.cursor_color);
            assert(self@.cursor_accent == other@.cursor_accent);
            assert(self@.cursor == other@.cursor);
            assert(self@.cols == other@.cols && self@.rows == other@.rows);
        }
        r
    }
}

/// A single cell diff entry.
#[derive(Debug)]
pub struct CellChange {
    /// Linear cell index `row * cols + col`.
    pub idx: u32,
    pub cell: CellSnap,
}

/// Model of a [`CellChange`].
#[verifier::ext_equal]
pub struct ChangeView {
    pub idx: u32,
    pub cell: CellView,
}

impl View for CellChange {
    type V = ChangeView;

    open spec fn view(&self) -> ChangeView {
        ChangeView { idx: self.idx, cell: self.cell@ }
    }
}

pub open spec fn changes_view(changes: Seq<CellChange>) -> Seq<ChangeView> {
    changes.map_values(|c: CellChange| c@)
}

/// A frame of a [`Recording`]: a full keyframe, or the cells that changed
/// against the previous frame.
#[derive(Debug)]
pub enum Frame {
    Key {
        t_ms: u32,
        cursor: Option<(u16, u16)>,
        default_fg: [u8; 3],
        default_bg: [u8; 3],
        cursor_color: Option<[u8; 3]>,
        cursor_accent: Option<[u8; 3]>,
        mouse_cursor: Option<MouseCursor>,
        pointer_shape: Option<PointerShape>,
        title: Option<String>,
        cells: Vec<CellSnap>,
    },
    Diff {
        t_ms: u32,
        cursor: Option<(u16, u16)>,
        default_fg: [u8; 3],
        default_bg: [u8; 3],
        cursor_color: Option<[u8; 3]>,
        cursor_accent: Option<[u8; 3]>,
        mouse_cursor: Option<MouseCursor>,
        pointer_shape: Option<PointerShape>,
        title: Option<String>,
        changes: Vec<CellChange>,
    },
}

/// Model of a [`Frame`]: keyframes carry `cells` (and no changes), diff
/// frames carry `changes` (and no cells).
#[verifier::ext_equal]
pub struct FrameView {
    pub is_key: bool,
    pub t_ms: u32,
    pub cursor: Option<(u16, u16)>,
    pub default_fg: [u8; 3],
    pub default_bg: [u8; 3],
    pub cursor_color: Option<[u8; 3]>,
    pub cursor_accent: Option<[u8; 3]>,
    pub mouse_cursor: Option<MouseCursor>,
    pub pointer_shape: Option<PointerShape>,
    pub title: Option<Seq<char>>,
    pub cells: Seq<CellView>,
    pub changes: Seq<ChangeView>,
}

impl View for Frame {
    type V = FrameView;

    open spec fn view(&self) -> FrameView {
        match self {
            Frame::Key {
                t_ms,
                cursor,
                default_fg,
                default_bg,
                cursor_color,
                cursor_accent,
                mouse_cursor,
                pointer_shape,
                title,
                cells,
            } => FrameView {
                is_key: true,
                t_ms: *t_ms,
                cursor: *cursor,
                default_fg: *default_fg,
                default_bg: *default_bg,
                cursor_color: *cursor_color,
                cursor_accent: *cursor_accent,
                mouse_cursor: *mouse_cursor,
                pointer_shape: *pointer_shape,
                title: opt_str_view(*title),
                cells: cells_view(cells@),
                changes: Seq::empty(),
            },
            Frame::Diff {
                t_ms,
                cursor,
                default_fg,
                default_bg,
                cursor_color,
                cursor_accent,
                mouse_cursor,
                pointer_shape,
                title,
                changes,
            } => FrameView {
                is_key: false,
                t_ms: *t_ms,
                cursor: *cursor,
                default_fg: *default_fg,
                default_bg: *default_bg,
                cursor_color: *cursor_color,
                cursor_accent: *cursor_accent,
                mouse_cursor: *mouse_cursor,
                pointer_shape: *pointer_shape,
                title: opt_str_view(*title),
                cells: Seq::empty(),
                changes: changes_view(changes@),
            },
        }
    }
}

pub open spec fn frames_view(frames: Seq<Frame>) -> Seq<FrameView> {
    frames.map_values(|f: Frame| f@)
}

/// A pointer shape as stored in a frame: the default shape is left out.
pub open spec fn shape_field(p: PointerShape) -> Option<PointerShape> {
    if p == PointerShape::Default {
        None
    } else {
        Some(p)
    }
}

/// A pointer shape as read back from a frame.
pub open spec fn shape_of_field(p: Option<PointerShape>) -> PointerShape {
    match p {
        Some(s) => s,
        None => PointerShape::Default,
    }
}

impl Frame {
    pub fn title(&self) -> (r: Option<&str>)
        ensures
            match r {
                Some(t) => self@.title == Some(t@),
                None => self@.title is None,
            },
    {
        match self {
            Frame::Key { title, .. } => match title {
                Some(t) => Some(t.as_str()),
                None => None,
            },
            Frame::Diff { title, .. } => match title {
                Some(t) => Some(t.as_str()),
                None => None,
            },
        }
    }

    pub fn t_ms(&self) -> (r: u32)
        ensures
            r == self@.t_ms,
    {
        match self {
            Frame::Key { t_ms, .. } => *t_ms,
            Frame::Diff { t_ms, .. } => *t_ms,
        }
    }

    /// Cursor position recorded with this frame, if visible.
    pub fn cursor(&self) -> (r: Option<(u16, u16)>)
        ensures
            r == self@.cursor,
    {
        match self {
            Frame::Key { cursor, .. } => *cursor,
            Frame::Diff { cursor, .. } => *cursor,
        }
    }

    pub fn cursor_color(&self) -> (r: Option<[u8; 3]>)
        ensures
            r == self@.cursor_color,
    {
        match self {
            Frame::Key { cursor_color, .. } => *cursor_color,
            Frame::Diff { cursor_color, .. } => *cursor_color,
        }
    }

    pub fn cursor_accent(&self) -> (r: Option<[u8; 3]>)
        ensures
            r == self@.cursor_accent,
    {
        match self {
            Frame::Key { cursor_accent, .. } => *cursor_accent,
            Frame::Diff { cursor_accent, .. } => *cursor_accent,
        }
    }

    pub fn mouse_cursor(&self) -> (r: Option<MouseCursor>)
        ensures
            r == self@.mouse_cursor,
    {
        match self {
            Frame::Key { mouse_cursor, .. } => *mouse_cursor,
            Frame::Diff { mouse_cursor, .. } => *mouse_cursor,
        }
    }

    pub fn pointer_shape(&self) -> (r: PointerShape)
        ensures
            r == shape_of_field(self@.pointer_shape),
    {
        let p = match self {
            Frame::Key { pointer_shape, .. } => *pointer_shape,
            Frame::Diff { pointer_shape, .. } => *pointer_shape,
        };
        match p {
            Some(s) => s,
            None => PointerShape::Default,
        }
    }
}

/// The changes between the first `n` cells of `prev` and `cur`: one entry
/// (in index order) for each position where they differ.
pub open spec fn diff_cells(prev: Seq<CellView>, cur: Seq<CellView>, n: nat) -> Seq<ChangeView>
    decreases n,
{
    if n == 0 {
        Seq::empty()
    } else {
        let rest = diff_cells(prev, cur, (n - 1) as nat);
        if prev[n - 1] != cur[n - 1] {
            rest.push(ChangeView { idx: (n - 1) as u32, cell: cur[n - 1] })
        } else {
            rest
        }
    }
}

/// The changes from `prev` to `cur` over the positions both have.
pub open spec fn cell_diff(prev: Seq<CellView>, cur: Seq<CellView>) -> Seq<ChangeView> {
    diff_cells(prev, cur, if prev.len() <= cur.len() { prev.len() } else { cur.len() })
}

proof fn lemma_diff_cells_exact(prev: Seq<CellView>, cur: Seq<CellView>, n: nat)
    requires
        n <= prev.len(),
        n <= cur.len(),
        n <= u32::MAX,
    ensures
        ({
            let ch = diff_cells(prev, cur, n);
            &&& forall|k: int| 0 <= k < ch.len() ==> (#[trigger] ch[k]).idx < n && prev[ch[k].idx as int] != cur[ch[k].idx as int]
                && ch[k].cell == cur[ch[k].idx as int]
            &&& forall|k: int, l: int| 0 <= k < l < ch.len() ==> (#[trigger] ch[k]).idx < (#[trigger] ch[l]).idx
            &&& forall|i: int| 0 <= i < n && prev[i] != cur[i] ==> exists|k: int| 0 <= k < ch.len() && (#[trigger] ch[k]).idx == i
        }),
    decreases n,
{
    if n > 0 {
        let m = (n - 1) as nat;
        lemma_diff_cells_exact(prev, cur, m);
        let rest = diff_cells(prev, cur, m);
        let ch = diff_cells(prev, cur, n);
        if prev[m as int] != cur[m as int] {
            assert(ch == rest.push(ChangeView { idx: m as u32, cell: cur[m as int] }));
            assert forall|i: int| 0 <= i < n && prev[i] != cur[i] implies exists|k: int| 0 <= k < ch.len() && (#[trigger] ch[k]).idx == i by {
                if i == m {
                    assert(ch[rest.len() as int].idx == i);
                } else {
                    let k = choose|k: int| 0 <= k < rest.len() && (#[trigger] rest[k]).idx == i;
                    assert(ch[k] == rest[k]);
                }
            }
            assert forall|k: int, l: int| 0 <= k < l < ch.len() implies (#[trigger] ch[k]).idx < (#[trigger] ch[l]).idx by {
                assert(ch[k] == rest[k]);
                if l < rest.len() {
                    assert(ch[l] == rest[l]);
                }
            }
            assert forall|k: int| 0 <= k < ch.len() implies (#[trigger] ch[k]).idx < n && prev[ch[k].idx as int] != cur[ch[k].idx as int]
                && ch[k].cell == cur[ch[k].idx as int] by {
                if k < rest.len() {
                    assert(ch[k] == rest[k]);
                }
            }
        } else {
            assert forall|i: int| 0 <= i < n && prev[i] != cur[i] implies exists|k: int| 0 <= k < ch.len() && (#[trigger] ch[k]).idx == i by {
                let k = choose|k: int| 0 <= k < rest.len() && (#[trigger] rest[k]).idx == i;
                assert(ch[k] == rest[k]);
            }
        }
    }
}

/// A diff frame lists exactly the cells that changed: for grids of one
/// size, its changes are, in ascending index order, one entry for each
/// position whose cell differs from the previous frame's, carrying the new
/// cell, and nothing else.
pub proof fn lemma_diff_lists_changed_cells(prev: Seq<CellView>, cur: Seq<CellView>)
    requires
        prev.len() == cur.len(),
        cur.len() <= u32::MAX,
    ensures
        ({
            let ch = cell_diff(prev, cur);
            &&& forall|k: int| 0 <= k < ch.len() ==> (#[trigger] ch[k]).idx < cur.len() && prev[ch[k].idx as int] != cur[ch[k].idx as int]
                && ch[k].cell == cur[ch[k].idx as int]
            &&& forall|k: int, l: int| 0 <= k < l < ch.len() ==> (#[trigger] ch[k]).idx < (#[trigger] ch[l]).idx
            &&& forall|i: int| 0 <= i < cur.len() && prev[i] != cur[i] ==> exists|k: int| 0 <= k < ch.len() && (#[trigger] ch[k]).idx == i
        }),
{
    lemma_diff_cells_exact(prev, cur, cur.len());
    assert(cell_diff(prev, cur) == diff_cells(prev, cur, cur.len()));
}

/// The keyframe that records `f` in full.
pub open spec fn key_frame_of(f: RawFrameView) -> FrameView {
    FrameView {
        is_key: true,
        t_ms: f.t_ms,
        cursor: f.cursor,
        default_fg: f.default_fg,
        default_bg: f.default_bg,
        cursor_color: f.cursor_color,
        cursor_accent: f.cursor_accent,
        mouse_cursor: f.mouse_cursor,
        pointer_shape: shape_field(f.pointer_shape),
        title: f.title,
        cells: f.cells,
        changes: Seq::empty(),
    }
}

/// The diff frame that records `f` as changes against `prev`.
pub open spec fn diff_frame_of(prev: RawFrameView, f: RawFrameView) -> FrameView {
    FrameView {
        is_key: false,
        t_ms: f.t_ms,
        cursor: f.cursor,
        default_fg: f.default_fg,
        default_bg: f.default_bg,
        cursor_color: f.cursor_color,
        cursor_accent: f.cursor_accent,
        mouse_cursor: f.mouse_cursor,
        pointer_shape: shape_field(f.pointer_shape),
        title: f.title,
        cells: Seq::empty(),
        changes: cell_diff(prev.cells, f.cells),
    }
}

/// Number of diff frames written since the last keyframe, after encoding
/// `pushed`.
pub open spec fn since_key(interval: u32, pushed: Seq<RawFrameView>) -> u32
    decreases pushed.len(), 0nat,
{
    if pushed.len() == 0 {
        0
    } else {
        let before = pushed.drop_last();
        if starts_key(interval, before, pushed.last()) {
            0
        } else {
            (since_key(interval, before) + 1) as u32
        }
    }
}

/// Whether `f`, pushed after `before`, is recorded as a keyframe: the first
/// frame, a frame whose grid size changed, or the frame `interval` frames
/// after the last keyframe (so keyframes fall `interval` frames apart).
pub open spec fn starts_key(interval: u32, before: Seq<RawFrameView>, f: RawFrameView) -> bool
    decreases before.len(), 1nat,
{
    before.len() == 0 || before.last().cols != f.cols || before.last().rows != f.rows
        || since_key(interval, before) + 1 >= interval
}

/// The recording frames produced from the raw frames `pushed`.
pub open spec fn encoded(interval: u32, pushed: Seq<RawFrameView>) -> Seq<FrameView>
    decreases pushed.len(),
{
    if pushed.len() == 0 {
        Seq::empty()
    } else {
        let before = pushed.drop_last();
        let f = pushed.last();
        encoded(interval, before).push(
            if starts_key(interval, before, f) {
                key_frame_of(f)
            } else {
                diff_frame_of(before.last(), f)
            },
        )
    }
}

/// Configuration used while folding raw frames into a [`Recording`].
#[derive(Debug, Clone, Copy)]
pub struct RecordingConfig {
    pub viewport: ViewportConfig,
    /// Keyframes fall every this many frames: frame `i` of a run of
    /// frames of one size is a keyframe when `i` is a multiple of it (every
    /// frame is one when it is 0 or 1). A change of size also starts one.
    pub keyframe_interval: u32,
}

/// The full recording artifact.
#[derive(Debug)]
pub struct Recording {
    pub cols: u16,
    pub rows: u16,
    pub framerate: u32,
    pub cell_width_px: u32,
    pub cell_height_px: u32,
    /// Bit pattern of the `f32` em-square size used for font metrics.
    pub font_size_px_bits: u32,
    pub char_height_px: u32,
    pub ascent_px: u32,
    /// Bit pattern of the `f32` letter spacing.
    pub letter_spacing_bits: u32,
    pub frame_style: FrameStyle,
    pub frames: Vec<Frame>,
}

/// Incrementally folds dense [`RawFrame`]s into a diff-compressed
/// [`Recording`].
pub struct RecordingBuilder {
    cfg: RecordingConfig,
    frames: Vec<Frame>,
    last_dense: Option<RawFrame>,
    frames_since_key: u32,
    pushed: Ghost<Seq<RawFrameView>>,
}

/// Copies the changes between two cell grids into a change list.
fn diff_exec(prev: &Vec<CellSnap>, cur: &Vec<CellSnap>) -> (r: Vec<CellChange>)
    ensures
        changes_view(r@) == cell_diff(cells_view(prev@), cells_view(cur@)),
{
    let n: usize = if prev.len() <= cur.len() { prev.len() } else { cur.len() };
    let ghost pv = cells_view(prev@);
    let ghost cv = cells_view(cur@);
    let mut out: Vec<CellChange> = Vec::new();
    let mut idx: usize = 0;
    while idx < n
        invariant
            n <= prev@.len(),
            n <= cur@.len(),
            idx <= n,
            pv == cells_view(prev@),
            cv == cells_view(cur@),
            changes_view(out@) == diff_cells(pv, cv, idx as nat),
        decreases n - idx,
    {
        let ghost before = out@;
        if !prev[idx].same_as(&cur[idx]) {
            let ch = CellChange { idx: idx as u32, cell: cur[idx].clone_cell() };
            out.push(ch);
            assert(changes_view(out@) =~= changes_view(before).push(ch@));
        }
        idx += 1;
    }
    out
}

impl RecordingBuilder {
    /// The raw frames pushed so far.
    pub closed spec fn pushed(&self) -> Seq<RawFrameView> {
        self.pushed@
    }

    /// The configuration this builder was made with.
    pub closed spec fn config(&self) -> RecordingConfig {
        self.cfg
    }

    /// The builder's frames encode exactly the frames pushed so far.
    pub closed spec fn wf(&self) -> bool {
        &&& frames_view(self.frames@) == encoded(self.cfg.keyframe_interval, self.pushed@)
        &&& self.frames_since_key == since_key(self.cfg.keyframe_interval, self.pushed@)
        &&& match self.last_dense {
            None => self.pushed@.len() == 0,
            Some(f) => self.pushed@.len() > 0 && f@ == self.pushed@.last(),
        }
    }

    pub fn new(cfg: RecordingConfig) -> (r: Self)
        ensures
            r.wf(),
            r.pushed() == Seq::<RawFrameView>::empty(),
            r.config() == cfg,
    {
        let r = RecordingBuilder {
            cfg,
            frames: Vec::new(),
            last_dense: None,
            frames_since_key: 0,
            pushed: Ghost(Seq::empty()),
        };
        assert(frames_view(r.frames@) =~= Seq::<FrameView>::empty());
        r
    }

    /// Appends one raw frame: as a keyframe when it is the first frame, when
    /// the grid size changed, or when it comes `keyframe_interval` frames
    /// after the last keyframe; otherwise as the cells that changed against
    /// the previous frame.
    pub fn push_raw(&mut self, frame: RawFrame)
        requires
            old(self).wf(),
        ensures
            final(self).wf(),
            final(self).pushed() == old(self).pushed().push(frame@),
            final(self).config() == old(self).config(),
    {
        let ghost old_pushed = self.pushed@;
        let ghost new_pushed = old_pushed.push(frame@);
        let interval = self.cfg.keyframe_interval;
        assert(new_pushed.drop_last() =~= old_pushed);
        assert(new_pushed.last() == frame@);
        let is_key = match &self.last_dense {
            None => true,
            Some(prev) => prev.cols != frame.cols || prev.rows != frame.rows
                || interval == 0 || self.frames_since_key >= interval - 1,
        };
        assert(is_key == starts_key(interval, old_pushed, frame@));
        let shape = if frame.pointer_shape == PointerShape::Default {
            None
        } else {
            Some(frame.pointer_shape)
        };
        let ghost old_frames = self.frames@;
        let new_frame = if is_key {
            Frame::Key {
                t_ms: frame.t_ms,
                cursor: frame.cursor,
                default_fg: frame.default_fg,
                default_bg: frame.default_bg,
                cursor_color: frame.cursor_color,
                cursor_accent: frame.cursor_accent,
                mouse_cursor: frame.mouse_cursor,
                pointer_shape: shape,
                title: clone_opt_string(&frame.title),
                cells: clone_cells(&frame.cells),
            }
        } else {
            let changes = match &self.last_dense {
                Some(prev) => diff_exec(&prev.cells, &frame.cells),
                None => Vec::new(),
            };
            Frame::Diff {
                t_ms: frame.t_ms,
                cursor: frame.cursor,
                default_fg: frame.default_fg,
                default_bg: frame.default_bg,
                cursor_color: frame.cursor_color,
                cursor_accent: frame.cursor_accent,
                mouse_cursor: frame.mouse_cursor,
                pointer_shape: shape,
                title: clone_opt_string(&frame.title),
                changes,
            }
        };
        proof {
            if is_key {
                assert(new_frame@ =~= key_frame_of(frame@));
            } else {
                assert(new_frame@ =~= diff_frame_of(old_pushed.last(), frame@));
            }
        }
        self.frames.push(new_frame);
        if is_key {
            self.frames_since_key = 0;
        } else {
            self.frames_since_key = self.frames_since_key + 1;
        }
        self.last_dense = Some(frame);
        self.pushed = Ghost(new_pushed);
        assert(frames_view(self.frames@) =~= frames_view(old_frames).push(new_frame@));
    }

    /// The finished recording.
    pub fn finish(self) -> (r: Recording)
        requires
            self.wf(),
        ensures
            frames_view(r.frames@) == encoded(self.config().keyframe_interval, self.pushed()),
            r.cols == self.config().viewport.cols,
            r.rows == self.config().viewport.rows,
            r.framerate == self.config().viewport.framerate,
            r.cell_width_px == self.config().viewport.cell_width_px,
            r.cell_height_px == self.config().viewport.cell_height_px,
            r.font_size_px_bits == self.config().viewport.font_size_px_bits,
            r.char_height_px == self.config().viewport.char_height_px,
            r.ascent_px == self.config().viewport.ascent_px,
            r.letter_spacing_bits == self.config().viewport.letter_spacing_bits,
            r.frame_style == self.config().viewport.frame_style,
    {
        Recording {
            cols: self.cfg.viewport.cols,
            rows: self.cfg.viewport.rows,
            framerate: self.cfg.viewport.framerate,
            cell_width_px: self.cfg.viewport.cell_width_px,
            cell_height_px: self.cfg.viewport.cell_height_px,
            font_size_px_bits: self.cfg.viewport.font_size_px_bits,
            char_height_px: self.cfg.viewport.char_height_px,
            ascent_px: self.cfg.viewport.ascent_px,
            letter_spacing_bits: self.cfg.viewport.letter_spacing_bits,
            frame_style: self.cfg.viewport.frame_style,
            frames: self.frames,
        }
    }
}

/// Index of the most recent keyframe at or before `i`.
pub open spec fn last_key(frames: Seq<FrameView>, i: int) -> Option<int>
    decreases i + 1,
{
    if i < 0 {
        None
    } else if frames[i].is_key {
        Some(i)
    } else {
        last_key(frames, i - 1)
    }
}

/// `cells` after writing each change in order (changes outside the grid are
/// ignored).
pub open spec fn apply_changes(cells: Seq<CellView>, changes: Seq<ChangeView>) -> Seq<CellView>
    decreases changes.len(),
{
    if changes.len() == 0 {
        cells
    } else {
        let base = apply_changes(cells, changes.drop_last());
        let c = changes.last();
        if (c.idx as int) < base.len() {
            base.update(c.idx as int, c.cell)
        } else {
            base
        }
    }
}

/// The cells of keyframe `k` after replaying the changes of frames
/// `k + 1 ..= j`.
pub open spec fn replay(frames: Seq<FrameView>, k: int, j: int) -> Seq<CellView>
    decreases j - k,
{
    if j <= k {
        frames[k].cells
    } else {
        apply_changes(replay(frames, k, j - 1), frames[j].changes)
    }
}

/// The dense frame at `index` of a recording with the given grid size and
/// frames: the grid of the most recent keyframe (which must hold
/// `cols * rows` cells) with every later diff replayed, and the remaining
/// fields of frame `index`.
pub open spec fn spec_reconstruct(cols: u16, rows: u16, frames: Seq<FrameView>, index: int) -> Option<
    RawFrameView,
> {
    if !(0 <= index < frames.len()) {
        None
    } else {
        match last_key(frames, index) {
            None => None,
            Some(k) => if frames[k].cells.len() != cols * rows {
                None
            } else {
                let f = frames[index];
                Some(
                    RawFrameView {
                        t_ms: f.t_ms,
                        cols,
                        rows,
                        cells: replay(frames, k, index),
                        cursor: f.cursor,
                        default_fg: f.default_fg,
                        default_bg: f.default_bg,
                        cursor_color: f.cursor_color,
                        cursor_accent: f.cursor_accent,
                        mouse_cursor: f.mouse_cursor,
                        pointer_shape: shape_of_field(f.pointer_shape),
                        title: f.title,
                    },
                )
            },
        }
    }
}

pub open spec fn opt_frame_view(r: Option<RawFrame>) -> Option<RawFrameView> {
    match r {
        Some(f) => Some(f@),
        None => None,
    }
}

/// Writes `changes` into `cells`, in order, skipping indices outside the grid.
fn apply_changes_exec(cells: &mut Vec<CellSnap>, changes: &Vec<CellChange>)
    ensures
        cells_view(final(cells)@) == apply_changes(cells_view(old(cells)@), changes_view(changes@)),
{
    let ghost init = cells_view(cells@);
    let ghost chv = changes_view(changes@);
    let mut i: usize = 0;
    while i < changes.len()
        invariant
            i <= changes@.len(),
            chv == changes_view(changes@),
            cells_view(cells@) == apply_changes(init, chv.take(i as int)),
        decreases changes@.len() - i,
    {
        let ghost before = cells@;
        assert(chv.take(i + 1).drop_last() =~= chv.take(i as int));
        let idx = changes[i].idx as usize;
        if idx < cells.len() {
            let c = changes[i].cell.clone_cell();
            cells.set(idx, c);
            assert(cells_view(cells@) =~= cells_view(before).update(idx as int, c@));
        }
        i += 1;
    }
    assert(chv.take(i as int) =~= chv);
}

/// Number of cells in a `cols` x `rows` grid.
pub fn grid_len(cols: u16, rows: u16) -> (r: usize)
    ensures
        r == cols * rows,
{
    assert(cols as int * rows as int <= 65535 * 65535) by (nonlinear_arith)
        requires
            cols <= 65535,
            rows <= 65535,
    ;
    cols as usize * rows as usize
}

/// Copies the fields of a frame other than its cells into a dense frame.
fn dense_from(f: &Frame, cols: u16, rows: u16, cells: Vec<CellSnap>) -> (r: RawFrame)
    ensures
        r@ == (RawFrameView {
            t_ms: f@.t_ms,
            cols,
            rows,
            cells: cells_view(cells@),
            cursor: f@.cursor,
            default_fg: f@.default_fg,
            default_bg: f@.default_bg,
            cursor_color: f@.cursor_color,
            cursor_accent: f@.cursor_accent,
            mouse_cursor: f@.mouse_cursor,
            pointer_shape: shape_of_field(f@.pointer_shape),
            title: f@.title,
        }),
{
    match f {
        Frame::Key {
            t_ms,
            cursor,
            default_fg,
            default_bg,
            cursor_color,
            cursor_accent,
            mouse_cursor,
            pointer_shape,
            title,
            ..
        } | Frame::Diff {
            t_ms,
            cursor,
            default_fg,
            default_bg,
            cursor_color,
            cursor_accent,
            mouse_cursor,
            pointer_shape,
            title,
            ..
        } => {
            let shape = match pointer_shape {
                Some(p) => *p,
                None => PointerShape::Default,
            };
            RawFrame {
                t_ms: *t_ms,
                cols,
                rows,
                cells,
                cursor: *cursor,
                default_fg: *default_fg,
                default_bg: *default_bg,
                cursor_color: *cursor_color,
                cursor_accent: *cursor_accent,
                mouse_cursor: *mouse_cursor,
                pointer_shape: shape,
                title: clone_opt_string(title),
            }
        },
    }
}

impl Recording {
    /// Reconstructs the dense frame at `index` by replaying diffs from the
    /// most recent keyframe at or before it.
    pub fn reconstruct(&self, index: usize) -> (r: Option<RawFrame>)
        ensures
            opt_frame_view(r) == spec_reconstruct(self.cols, self.rows, frames_view(self.frames@), index as int),
    {
        let ghost fv = frames_view(self.frames@);
        if index >= self.frames.len() {
            return None;
        }
        let mut i: usize = index;
        let mut key_i: usize = 0;
        loop
            invariant_except_break
                i <= index < self.frames@.len(),
                fv == frames_view(self.frames@),
                last_key(fv, index as int) == last_key(fv, i as int),
            ensures
                key_i <= index < self.frames@.len(),
                fv == frames_view(self.frames@),
                last_key(fv, index as int) == Some(key_i as int),
            decreases i,
        {
            if matches!(self.frames[i], Frame::Key { .. }) {
                assert(fv[i as int].is_key);
                key_i = i;
                break;
            }
            assert(!fv[i as int].is_key);
            if i == 0 {
                assert(last_key(fv, -1) is None);
                return None;
            }
            i -= 1;
        }
        let mut cells = match &self.frames[key_i] {
            Frame::Key { cells, .. } => clone_cells(cells),
            Frame::Diff { .. } => Vec::new(),
        };
        let total: usize = grid_len(self.cols, self.rows);
        if cells.len() != total {
            return None;
        }
        let mut j: usize = key_i;
        while j < index
            invariant
                key_i <= j <= index < self.frames@.len(),
                fv == frames_view(self.frames@),
                cells_view(cells@) == replay(fv, key_i as int, j as int),
            decreases index - j,
        {
            j += 1;
            match &self.frames[j] {
                Frame::Diff { changes, .. } => apply_changes_exec(&mut cells, changes),
                Frame::Key { .. } => {
                    assert(fv[j as int].changes =~= Seq::<ChangeView>::empty());
                },
            }
        }
        Some(dense_from(&self.frames[index], self.cols, self.rows, cells))
    }
}

/// The recording frame that encodes `f` when pushed after `before`.
pub open spec fn frame_for(interval: u32, before: Seq<RawFrameView>, f: RawFrameView) -> FrameView {
    if starts_key(interval, before, f) {
        key_frame_of(f)
    } else {
        diff_frame_of(before.last(), f)
    }
}

proof fn lemma_encoded_len(interval: u32, pushed: Seq<RawFrameView>)
    ensures
        encoded(interval, pushed).len() == pushed.len(),
    decreases pushed.len(),
{
    if pushed.len() > 0 {
        lemma_encoded_len(interval, pushed.drop_last());
    }
}

proof fn lemma_encoded_index(interval: u32, pushed: Seq<RawFrameView>, j: int)
    requires
        0 <= j < pushed.len(),
    ensures
        encoded(interval, pushed).len() == pushed.len(),
        encoded(interval, pushed)[j] == frame_for(interval, pushed.take(j), pushed[j]),
    decreases pushed.len(),
{
    let before = pushed.drop_last();
    lemma_encoded_len(interval, pushed);
    lemma_encoded_len(interval, before);
    assert(encoded(interval, pushed) == encoded(interval, before).push(
        frame_for(interval, before, pushed.last()),
    ));
    if j == pushed.len() - 1 {
        assert(pushed.take(j) =~= before);
    } else {
        lemma_encoded_index(interval, before, j);
        assert(before.take(j) =~= pushed.take(j));
    }
}

proof fn lemma_since_key_uniform(interval: u32, pushed: Seq<RawFrameView>)
    requires
        interval >= 1,
        pushed.len() > 0,
        forall|t: int| 0 <= t < pushed.len() ==> (#[trigger] pushed[t]).cols == pushed[0].cols && pushed[t].rows == pushed[0].rows,
    ensures
        since_key(interval, pushed) == (pushed.len() - 1) % (interval as int),
        starts_key(interval, pushed.drop_last(), pushed.last()) <==> (pushed.len() - 1) % (interval as int) == 0,
    decreases pushed.len(),
{
    let k = interval as int;
    let n = pushed.len() as int;
    let before = pushed.drop_last();
    if n == 1 {
        assert(0int % k == 0) by {
            vstd::arithmetic::div_mod::lemma_fundamental_div_mod_converse(0, k, 0, 0);
        }
        assert(before.len() == 0);
        assert(starts_key(interval, before, pushed.last()));
        assert(since_key(interval, pushed) == 0);
    } else {
        assert forall|t: int| 0 <= t < before.len() implies (#[trigger] before[t]).cols == before[0].cols
            && before[t].rows == before[0].rows by {
            assert(before[t] == pushed[t]);
        }
        lemma_since_key_uniform(interval, before);
        assert(before.last() == pushed[n - 2]);
        assert(pushed.last() == pushed[n - 1]);
        let q = (n - 2) / k;
        let r = (n - 2) % k;
        vstd::arithmetic::div_mod::lemma_fundamental_div_mod(n - 2, k);
        assert(0 <= r < k) by {
            vstd::arithmetic::div_mod::lemma_mod_bound(n - 2, k);
        }
        if r + 1 == k {
            assert(n - 1 == (q + 1) * k + 0) by (nonlinear_arith)
                requires
                    n - 2 == k * q + r,
                    r + 1 == k,
            ;
            vstd::arithmetic::div_mod::lemma_fundamental_div_mod_converse(n - 1, k, q + 1, 0);
            assert(since_key(interval, before) == r);
            assert(starts_key(interval, before, pushed.last()));
            assert(since_key(interval, pushed) == 0);
        } else {
            assert(n - 1 == q * k + (r + 1)) by (nonlinear_arith)
                requires
                    n - 2 == k * q + r,
            ;
            vstd::arithmetic::div_mod::lemma_fundamental_div_mod_converse(n - 1, k, q, r + 1);
            assert(since_key(interval, before) == r);
            assert(!starts_key(interval, before, pushed.last()));
            assert(since_key(interval, pushed) == (r + 1) as u32);
        }
    }
}

/// Frames of one grid size are recorded with a keyframe every `interval`
/// frames: frame `i` is a keyframe exactly when `i` is a multiple of
/// `interval` (an interval of zero makes every frame a keyframe).
pub proof fn lemma_keyframes_every_interval(interval: u32, pushed: Seq<RawFrameView>, i: int)
    requires
        0 <= i < pushed.len(),
        forall|t: int| 0 <= t < pushed.len() ==> (#[trigger] pushed[t]).cols == pushed[0].cols && pushed[t].rows == pushed[0].rows,
    ensures
        encoded(interval, pushed).len() == pushed.len(),
        encoded(interval, pushed)[i].is_key <==> (interval == 0 || i % (interval as int) == 0),
{
    lemma_encoded_index(interval, pushed, i);
    let p = pushed.take(i + 1);
    assert(p.drop_last() =~= pushed.take(i));
    assert(p.last() == pushed[i]);
    if interval >= 1 {
        assert forall|t: int| 0 <= t < p.len() implies (#[trigger] p[t]).cols == p[0].cols && p[t].rows == p[0].rows by {
            assert(p[t] == pushed[t]);
            assert(p[0] == pushed[0]);
        }
        lemma_since_key_uniform(interval, p);
    }
    assert(frame_for(interval, pushed.take(i), pushed[i]).is_key == starts_key(interval, pushed.take(i), pushed[i]));
}

proof fn lemma_last_key(frames: Seq<FrameView>, i: int)
    requires
        0 <= i < frames.len(),
        frames[0].is_key,
    ensures
        last_key(frames, i) matches Some(k) && 0 <= k <= i && frames[k].is_key && (forall|j: int|
            k < j <= i ==> !#[trigger] frames[j].is_key),
    decreases i,
{
    if !frames[i].is_key {
        lemma_last_key(frames, i - 1);
    }
}

proof fn lemma_apply_diff(prev: Seq<CellView>, cur: Seq<CellView>, n: nat)
    requires
        prev.len() == cur.len(),
        n <= prev.len(),
        prev.len() <= 0x1_0000_0000,
    ensures
        apply_changes(prev, diff_cells(prev, cur, n)).len() == prev.len(),
        forall|t: int|
            0 <= t < prev.len() ==> #[trigger] apply_changes(prev, diff_cells(prev, cur, n))[t] == (
            if t < n {
                cur[t]
            } else {
                prev[t]
            }),
    decreases n,
{
    if n > 0 {
        lemma_apply_diff(prev, cur, (n - 1) as nat);
        let rest = diff_cells(prev, cur, (n - 1) as nat);
        if prev[n - 1] != cur[n - 1] {
            let c = ChangeView { idx: (n - 1) as u32, cell: cur[n - 1] };
            assert(rest.push(c).drop_last() =~= rest);
            assert(c.idx as int == n - 1);
        }
    }
}

proof fn lemma_replay(interval: u32, cols: u16, rows: u16, pushed: Seq<RawFrameView>, k: int, j: int)
    requires
        0 <= k <= j < pushed.len(),
        forall|t: int|
            0 <= t < pushed.len() ==> (#[trigger] pushed[t]).cols == cols && pushed[t].rows == rows
                && pushed[t].cells.len() == cols * rows,
        encoded(interval, pushed)[k].is_key,
        forall|t: int| k < t <= j ==> !(#[trigger] encoded(interval, pushed)[t]).is_key,
    ensures
        replay(encoded(interval, pushed), k, j) == pushed[j].cells,
    decreases j - k,
{
    let frames = encoded(interval, pushed);
    lemma_encoded_index(interval, pushed, j);
    if j == k {
        if !starts_key(interval, pushed.take(j), pushed[j]) {
            assert(!frames[j].is_key);
        }
    } else {
        lemma_replay(interval, cols, rows, pushed, k, j - 1);
        assert(!frames[j].is_key);
        let prev = pushed.take(j).last();
        assert(prev == pushed[j - 1]);
        assert(frames[j].changes == cell_diff(prev.cells, pushed[j].cells));
        assert(cols * rows <= 65535 * 65535) by (nonlinear_arith)
            requires
                cols <= 65535,
                rows <= 65535,
        ;
        lemma_apply_diff(prev.cells, pushed[j].cells, prev.cells.len());
        assert(apply_changes(prev.cells, frames[j].changes) =~= pushed[j].cells);
    }
}

/// Round trip of the diff encoding: when every raw frame pushed into a
/// [`RecordingBuilder`] has the recording's grid size and a full grid of
/// cells, reconstructing any index of the encoded frames gives back exactly
/// the raw frame pushed at that index.
pub proof fn lemma_reconstruct_inverts_encoding(
    interval: u32,
    cols: u16,
    rows: u16,
    pushed: Seq<RawFrameView>,
    i: int,
)
    requires
        0 <= i < pushed.len(),
        forall|t: int|
            0 <= t < pushed.len() ==> (#[trigger] pushed[t]).cols == cols && pushed[t].rows == rows
                && pushed[t].cells.len() == cols * rows,
    ensures
        spec_reconstruct(cols, rows, encoded(interval, pushed), i) == Some(pushed[i]),
{
    let frames = encoded(interval, pushed);
    lemma_encoded_index(interval, pushed, 0);
    lemma_encoded_index(interval, pushed, i);
    assert(pushed.take(0).len() == 0);
    assert(frames[0].is_key);
    lemma_last_key(frames, i);
    let k = last_key(frames, i)->0;
    lemma_encoded_index(interval, pushed, k);
    if !starts_key(interval, pushed.take(k), pushed[k]) {
        assert(!frames[k].is_key);
    }
    assert(frames[k].cells == pushed[k].cells);
    lemma_replay(interval, cols, rows, pushed, k, i);
    let f = frames[i];
    assert(shape_of_field(f.pointer_shape) == pushed[i].pointer_shape);
    let r = spec_reconstruct(cols, rows, frames, i)->0;
    assert(r =~= pushed[i]);
}

} // verus!
