//! The palette GIF renderer's integer work: replaying recorded frames into
//! a running screen state, painting and inverting rectangles of an RGB
//! byte buffer, and mapping pixels to their nearest palette colour.

use vstd::prelude::*;
use crate::recording::{apply_changes, cells_view, changes_view, CellSnap, CellView, ChangeView, Frame, FrameView};

verus! {

// ---------------------------------------------------------------------------
// Nearest palette colour
// ---------------------------------------------------------------------------

/// Squared distance between pixel `p` of `rgb` and colour `j` of `palette`.
pub open spec fn dist2(rgb: Seq<u8>, p: int, palette: Seq<u8>, j: int) -> int {
    let dr = rgb[3 * p] - palette[3 * j];
    let dg = rgb[3 * p + 1] - palette[3 * j + 1];
    let db = rgb[3 * p + 2] - palette[3 * j + 2];
    dr * dr + dg * dg + db * db
}

/// Whether `j` is the first of the palette's 256 colours nearest to pixel
/// `p`.
pub open spec fn is_nearest(rgb: Seq<u8>, p: int, palette: Seq<u8>, j: int) -> bool {
    &&& 0 <= j < 256
    &&& forall|k: int| 0 <= k < 256 ==> dist2(rgb, p, palette, j) <= #[trigger] dist2(rgb, p, palette, k)
    &&& forall|k: int| 0 <= k < j ==> dist2(rgb, p, palette, j) < #[trigger] dist2(rgb, p, palette, k)
}

fn dist2_exec(rgb: &[u8], p: usize, palette: &[u8], j: usize) -> (r: u32)
    requires
        3 * p + 2 < rgb@.len(),
        3 * j + 2 < palette@.len(),
    ensures
        r == dist2(rgb@, p as int, palette@, j as int),
{
    let rl = rgb.len();
    let pl = palette.len();
    assert(3 * p + 2 < rl && 3 * j + 2 < pl);
    let dr = rgb[3 * p] as i32 - palette[3 * j] as i32;
    let dg = rgb[3 * p + 1] as i32 - palette[3 * j + 1] as i32;
    let db = rgb[3 * p + 2] as i32 - palette[3 * j + 2] as i32;
    assert(0 <= dr * dr <= 65025 && 0 <= dg * dg <= 65025 && 0 <= db * db <= 65025) by (nonlinear_arith)
        requires
            -255 <= dr <= 255,
            -255 <= dg <= 255,
            -255 <= db <= 255,
    ;
    (dr * dr + dg * dg + db * db) as u32
}

/// Maps each pixel of an RGB buffer to the index of its nearest colour in
/// a palette of 256 RGB colours; of equally near colours, the first.
pub fn quantize_with_palette(rgb: &[u8], palette: &[u8]) -> (r: Vec<u8>)
    requires
        rgb@.len() % 3 == 0,
        palette@.len() == 768,
    ensures
        r@.len() == rgb@.len() / 3,
        forall|p: int| 0 <= p < r@.len() ==> is_nearest(rgb@, p, palette@, #[trigger] r@[p] as int),
{
    let n = rgb.len() / 3;
    let mut indexed: Vec<u8> = Vec::new();
    let mut i: usize = 0;
    while i < n
        invariant
            n == rgb@.len() / 3,
            rgb@.len() % 3 == 0,
            palette@.len() == 768,
            i <= n,
            indexed@.len() == i,
            forall|p: int| 0 <= p < i ==> is_nearest(rgb@, p, palette@, #[trigger] indexed@[p] as int),
        decreases n - i,
    {
        let mut best_idx: u8 = 0;
        let mut best_dist: u32 = u32::MAX;
        let mut j: usize = 0;
        while j < 256
            invariant
                i < n,
                n == rgb@.len() / 3,
                rgb@.len() % 3 == 0,
                palette@.len() == 768,
                j <= 256,
                j == 0 ==> best_dist == u32::MAX && best_idx == 0,
                j > 0 ==> best_idx < j && best_dist == dist2(rgb@, i as int, palette@, best_idx as int),
                forall|k: int| 0 <= k < j ==> best_dist <= #[trigger] dist2(rgb@, i as int, palette@, k),
                forall|k: int| 0 <= k < best_idx ==> best_dist < #[trigger] dist2(rgb@, i as int, palette@, k),
            decreases 256 - j,
        {
            let d = dist2_exec(rgb, i, palette, j);
            assert(d <= 195075) by (nonlinear_arith)
                requires
                    d == dist2(rgb@, i as int, palette@, j as int),
                    0 <= rgb@[3 * i as int] < 256,
                    0 <= rgb@[3 * i + 1] < 256,
                    0 <= rgb@[3 * i + 2] < 256,
                    0 <= palette@[3 * j as int] < 256,
                    0 <= palette@[3 * j + 1] < 256,
                    0 <= palette@[3 * j + 2] < 256,
            ;
            if d < best_dist {
                best_dist = d;
                best_idx = j as u8;
            }
            j += 1;
        }
        indexed.push(best_idx);
        i += 1;
    }
    indexed
}

// ---------------------------------------------------------------------------
// RGB byte buffers
// ---------------------------------------------------------------------------

/// What happens to the bytes of a pixel.
#[derive(Debug, Clone, Copy, PartialEq, Eq)]
pub enum ByteOp {
    /// Set to a colour.
    Fill([u8; 3]),
    /// Replace each channel `v` by `255 - v`.
    Invert,
}

/// Whether row `yy` of the scan, columns `x .. x + n`, visits pixel `p`
/// of a buffer `w` pixels wide: at most once, as the columns differ.
pub open spec fn row_hit(p: int, w: u32, x: int, yy: int, n: int) -> nat {
    if x <= p - yy * w < x + n { 1 } else { 0 }
}

/// How often a scan of rows `y .. y + k`, columns `x .. x + rw`, visits
/// pixel `p`; more than once only when the rectangle is wider than the
/// buffer and its rows overlap.
pub open spec fn visits(p: int, w: u32, x: int, y: int, rw: int, k: int) -> nat
    decreases k,
{
    if k <= 0 {
        0
    } else {
        visits(p, w, x, y, rw, k - 1) + row_hit(p, w, x, y + k - 1, rw)
    }
}

/// Byte `b` of a pixel visited `n` times: a fill sets it once visited;
/// an inversion flips it on each visit.
pub open spec fn op_byte(op: ByteOp, old: u8, b: int, n: nat) -> u8 {
    match op {
        ByteOp::Fill(c) => if n > 0 { c[b % 3] } else { old },
        ByteOp::Invert => if n % 2 == 1 { (255 - old) as u8 } else { old },
    }
}

/// `buf` after the operation is applied at each visit of the scan of
/// rows `y .. y + rh`, columns `x .. x + rw`, to the pixels whose three
/// bytes lie inside it.
pub open spec fn rgb_painted(buf: Seq<u8>, w: u32, x: u32, y: u32, rw: u32, rh: u32, op: ByteOp) -> Seq<u8> {
    Seq::new(
        buf.len(),
        |b: int|
            if 3 * (b / 3) + 2 < buf.len() {
                op_byte(op, buf[b], b, visits(b / 3, w, x as int, y as int, rw as int, rh as int))
            } else {
                buf[b]
            },
    )
}

/// Inverting the same rectangle twice gives back the buffer it started
/// from.
pub proof fn lemma_invert_twice_restores(buf: Seq<u8>, w: u32, x: u32, y: u32, rw: u32, rh: u32)
    ensures
        rgb_painted(rgb_painted(buf, w, x, y, rw, rh, ByteOp::Invert), w, x, y, rw, rh, ByteOp::Invert) == buf,
{
    let once = rgb_painted(buf, w, x, y, rw, rh, ByteOp::Invert);
    let twice = rgb_painted(once, w, x, y, rw, rh, ByteOp::Invert);
    assert forall|b: int| 0 <= b < buf.len() implies #[trigger] twice[b] == buf[b] by {
        if 3 * (b / 3) + 2 < buf.len() {
            let n = visits(b / 3, w, x as int, y as int, rw as int, rh as int);
            if n % 2 == 1 {
                assert(once[b] == (255 - buf[b]) as u8);
                assert(twice[b] == (255 - once[b]) as u8);
            }
        }
    }
    assert(twice =~= buf);
}

/// Whether every byte index of the rectangle fits in a `u32`.
pub open spec fn rgb_rect_fits(w: u32, x: u32, y: u32, rw: u32, rh: u32) -> bool {
    &&& y + rh <= u32::MAX
    &&& rh > 0 ==> x + rw <= u32::MAX
    &&& (rh > 0 && rw > 0) ==> ((y + rh - 1) * w + (x + rw - 1)) * 3 <= u32::MAX
}

fn apply_op(buf: &mut Vec<u8>, w: u32, x: u32, y: u32, rw: u32, rh: u32, op: ByteOp)
    requires
        rgb_rect_fits(w, x, y, rw, rh),
    ensures
        final(buf)@ == rgb_painted(old(buf)@, w, x, y, rw, rh, op),
{
    let ghost start = buf@;
    let y_end = y + rh;
    let mut yy: u32 = y;
    while yy < y_end
        invariant
            y <= yy <= y_end,
            y_end == y + rh,
            rgb_rect_fits(w, x, y, rw, rh),
            buf@.len() == start.len(),
            forall|b: int| 0 <= b < start.len() ==> #[trigger] buf@[b] == if 3 * (b / 3) + 2 < start.len() {
                op_byte(op, start[b], b, visits(b / 3, w, x as int, y as int, rw as int, yy - y))
            } else {
                start[b]
            },
        decreases y_end - yy,
    {
        let x_end = x + rw;
        let mut xx: u32 = x;
        while xx < x_end
            invariant
                y <= yy < y_end,
                y_end == y + rh,
                x <= xx <= x_end,
                x_end == x + rw,
                rgb_rect_fits(w, x, y, rw, rh),
                buf@.len() == start.len(),
                forall|b: int| 0 <= b < start.len() ==> #[trigger] buf@[b] == if 3 * (b / 3) + 2 < start.len() {
                    op_byte(
                        op,
                        start[b],
                        b,
                        visits(b / 3, w, x as int, y as int, rw as int, yy - y) + row_hit(b / 3, w, x as int, yy as int, xx - x),
                    )
                } else {
                    start[b]
                },
            decreases x_end - xx,
        {
            proof {
                assert(yy * w <= (y + rh - 1) * w) by (nonlinear_arith)
                    requires
                        yy <= y + rh - 1,
                ;
                assert(yy * w >= 0) by (nonlinear_arith);
            }
            let i = (yy * w + xx) * 3;
            let ghost p = yy * w + xx;
            let ghost before = buf@;
            let iu = i as usize;
            if iu < buf.len() && buf.len() - iu > 2 {
                match op {
                    ByteOp::Fill(c) => {
                        buf.set(iu, c[0]);
                        buf.set(iu + 1, c[1]);
                        buf.set(iu + 2, c[2]);
                    },
                    ByteOp::Invert => {
                        let v0 = 255 - buf[iu];
                        buf.set(iu, v0);
                        let v1 = 255 - buf[iu + 1];
                        buf.set(iu + 1, v1);
                        let v2 = 255 - buf[iu + 2];
                        buf.set(iu + 2, v2);
                    },
                }
            }
            assert forall|b: int| 0 <= b < start.len() implies #[trigger] buf@[b] == if 3 * (b / 3) + 2 < start.len() {
                op_byte(
                    op,
                    start[b],
                    b,
                    visits(b / 3, w, x as int, y as int, rw as int, yy - y) + row_hit(b / 3, w, x as int, yy as int, xx + 1 - x),
                )
            } else {
                start[b]
            } by {
                let q = b / 3;
                if q == p {
                    assert(row_hit(q, w, x as int, yy as int, xx + 1 - x) == 1);
                    assert(row_hit(q, w, x as int, yy as int, xx - x) == 0);
                    assert(i <= b < i + 3);
                    assert(b % 3 == b - i);
                } else {
                    assert(row_hit(q, w, x as int, yy as int, xx + 1 - x) == row_hit(q, w, x as int, yy as int, xx - x));
                    assert(b < i || b >= i + 3);
                    assert(buf@[b] == before[b]);
                }
            }
            xx += 1;
        }
        yy += 1;
    }
    assert(buf@ =~= rgb_painted(start, w, x, y, rw, rh, op));
}

/// Paints the rectangle `x .. x + rw` by `y .. y + rh` of an RGB byte
/// buffer `w` pixels wide in `color`; pixels past the buffer's end are
/// skipped.
pub fn fill_rect(buf: &mut Vec<u8>, w: u32, x: u32, y: u32, rw: u32, rh: u32, color: [u8; 3])
    requires
        rgb_rect_fits(w, x, y, rw, rh),
    ensures
        final(buf)@ == rgb_painted(old(buf)@, w, x, y, rw, rh, ByteOp::Fill(color)),
{
    apply_op(buf, w, x, y, rw, rh, ByteOp::Fill(color));
}

/// Inverts each channel of the rectangle's pixels, once per visit of the
/// scan (a rectangle wider than the buffer can revisit a pixel).
pub fn invert_rect(buf: &mut Vec<u8>, w: u32, x: u32, y: u32, rw: u32, rh: u32)
    requires
        rgb_rect_fits(w, x, y, rw, rh),
    ensures
        final(buf)@ == rgb_painted(old(buf)@, w, x, y, rw, rh, ByteOp::Invert),
{
    apply_op(buf, w, x, y, rw, rh, ByteOp::Invert);
}

// ---------------------------------------------------------------------------
// Replaying recorded frames
// ---------------------------------------------------------------------------

/// The screen as the palette renderer tracks it across frames.
#[derive(Debug)]
pub struct FrameState {
    pub t_ms: u32,
    pub cursor: Option<(u16, u16)>,
    pub default_fg: [u8; 3],
    pub default_bg: [u8; 3],
    pub cells: Vec<CellSnap>,
}

/// Model of a [`FrameState`].
#[verifier::ext_equal]
pub struct FrameStateView {
    pub t_ms: u32,
    pub cursor: Option<(u16, u16)>,
    pub default_fg: [u8; 3],
    pub default_bg: [u8; 3],
    pub cells: Seq<CellView>,
}

impl View for FrameState {
    type V = FrameStateView;

    open spec fn view(&self) -> FrameStateView {
        FrameStateView {
            t_ms: self.t_ms,
            cursor: self.cursor,
            default_fg: self.default_fg,
            default_bg: self.default_bg,
            cells: cells_view(self.cells@),
        }
    }
}

pub open spec fn opt_state_view(s: Option<FrameState>) -> Option<FrameStateView> {
    match s {
        Some(st) => Some(st@),
        None => None,
    }
}

/// Index of the first change that falls outside a grid of `len` cells;
/// the number of changes when none does.
pub open spec fn first_outside(len: int, changes: Seq<ChangeView>) -> int
    decreases changes.len(),
{
    if changes.len() == 0 {
        0
    } else {
        let k = first_outside(len, changes.drop_last());
        if k < changes.len() - 1 {
            k
        } else if (changes.last().idx as int) < len {
            changes.len() as int
        } else {
            changes.len() - 1
        }
    }
}

/// The state after a frame, and whether the frame applied: a keyframe
/// replaces the state; a diff frame needs a state, takes the frame's
/// time, cursor and colours, and writes its changes in order, stopping
/// (and failing) at the first one outside the grid.
pub open spec fn spec_apply_frame(state: Option<FrameStateView>, f: FrameView) -> (Option<FrameStateView>, bool) {
    if f.is_key {
        (
            Some(
                FrameStateView { t_ms: f.t_ms, cursor: f.cursor, default_fg: f.default_fg, default_bg: f.default_bg, cells: f.cells },
            ),
            true,
        )
    } else {
        match state {
            None => (None, false),
            Some(st) => {
                let k = first_outside(st.cells.len() as int, f.changes);
                (
                    Some(
                        FrameStateView {
                            t_ms: f.t_ms,
                            cursor: f.cursor,
                            default_fg: f.default_fg,
                            default_bg: f.default_bg,
                            cells: apply_changes(st.cells, f.changes.take(k)),
                        },
                    ),
                    k == f.changes.len(),
                )
            },
        }
    }
}

proof fn lemma_first_outside_bounds(len: int, changes: Seq<ChangeView>)
    ensures
        0 <= first_outside(len, changes) <= changes.len(),
        forall|j: int| 0 <= j < first_outside(len, changes) ==> (#[trigger] changes[j]).idx < len,
        first_outside(len, changes) < changes.len() ==> changes[first_outside(len, changes)].idx >= len,
    decreases changes.len(),
{
    if changes.len() > 0 {
        lemma_first_outside_bounds(len, changes.drop_last());
        assert forall|j: int| 0 <= j < first_outside(len, changes) implies (#[trigger] changes[j]).idx < len by {
            if j < changes.len() - 1 {
                assert(changes.drop_last()[j] == changes[j]);
            }
        }
        let k = first_outside(len, changes.drop_last());
        if k < changes.len() - 1 {
            assert(changes.drop_last()[k] == changes[k]);
        }
    }
}

proof fn lemma_apply_changes_len(cells: Seq<CellView>, changes: Seq<ChangeView>)
    ensures
        apply_changes(cells, changes).len() == cells.len(),
    decreases changes.len(),
{
    if changes.len() > 0 {
        lemma_apply_changes_len(cells, changes.drop_last());
    }
}

/// Brings the running state up to `frame`. Returns the state when the
/// frame applied, `None` when a diff frame came first or wrote outside
/// the grid (its earlier changes stay written).
pub fn apply_frame(state: &mut Option<FrameState>, frame: &Frame) -> (r: bool)
    ensures
        opt_state_view(*final(state)) == spec_apply_frame(opt_state_view(*old(state)), frame@).0,
        r == spec_apply_frame(opt_state_view(*old(state)), frame@).1,
{
    match frame {
        Frame::Key { t_ms, cursor, default_fg, default_bg, cells, .. } => {
            *state = Some(
                FrameState {
                    t_ms: *t_ms,
                    cursor: *cursor,
                    default_fg: *default_fg,
                    default_bg: *default_bg,
                    cells: crate::recording::clone_cells(cells),
                },
            );
            true
        },
        Frame::Diff { t_ms, cursor, default_fg, default_bg, changes, .. } => {
            let mut st = match state.take() {
                Some(s) => s,
                None => {
                    return false;
                },
            };
            let ghost start = st@.cells;
            let ghost cv = changes_view(changes@);
            st.t_ms = *t_ms;
            st.cursor = *cursor;
            st.default_fg = *default_fg;
            st.default_bg = *default_bg;
            let mut i: usize = 0;
            let mut ok = true;
            proof {
                lemma_first_outside_bounds(start.len() as int, cv);
            }
            while i < changes.len()
                invariant
                    i <= changes@.len(),
                    cv == changes_view(changes@),
                    0 <= first_outside(start.len() as int, cv) <= cv.len(),
                    forall|j: int| 0 <= j < first_outside(start.len() as int, cv) ==> (#[trigger] cv[j]).idx < start.len(),
                    first_outside(start.len() as int, cv) < cv.len() ==> cv[first_outside(start.len() as int, cv)].idx >= start.len(),
                    ok ==> i <= first_outside(start.len() as int, cv),
                    !ok ==> i == first_outside(start.len() as int, cv) && i < cv.len(),
                    st@.cells == apply_changes(start, cv.take(i as int)),
                    st@.cells.len() == start.len(),
                    st.t_ms == *t_ms && st.cursor == *cursor && st.default_fg == *default_fg && st.default_bg == *default_bg,
                ensures
                    ok ==> i == changes@.len(),
                    !ok ==> i == first_outside(start.len() as int, cv) && i < cv.len(),
                    st@.cells == apply_changes(start, cv.take(i as int)),
                    st.t_ms == *t_ms && st.cursor == *cursor && st.default_fg == *default_fg && st.default_bg == *default_bg,
                decreases changes@.len() - i + (if ok { 1int } else { 0int }),
            {
                if !ok {
                    break;
                }
                let idx = changes[i].idx as usize;
                assert(cv[i as int] == changes@[i as int]@);
                assert(cv.take(i + 1).drop_last() =~= cv.take(i as int));
                assert(cv.take(i + 1).last() == cv[i as int]);
                if idx < st.cells.len() {
                    let c = changes[i].cell.clone_cell();
                    st.cells.set(idx, c);
                    assert(cells_view(st.cells@) =~= apply_changes(start, cv.take(i as int)).update(idx as int, cv[i as int].cell));
                    proof {
                        lemma_apply_changes_len(start, cv.take(i + 1));
                    }
                    i += 1;
                } else {
                    ok = false;
                }
            }
            proof {
                lemma_apply_changes_len(start, cv.take(i as int));
                if ok {
                    assert(first_outside(start.len() as int, cv) == cv.len());
                }
            }
            *state = Some(st);
            ok
        },
    }
}

} // verus!
