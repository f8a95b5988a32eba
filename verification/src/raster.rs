//! Integer parts of the GIF rasteriser: painting rectangles, dots and the
//! rounded-corner mask into an RGBA pixel buffer, deciding which cells a
//! frame must redraw, and placing the cursor block.

use vstd::prelude::*;
use crate::recording::{CellView, RawFrame, RawFrameView};
use crate::render_common::ViewportConfig;
use crate::svg::{cell_x, cell_y, CellGeometry};

verus! {

// ---------------------------------------------------------------------------
// Pixels
// ---------------------------------------------------------------------------

/// An opaque pixel of the given colour.
pub open spec fn opaque(c: [u8; 3]) -> [u8; 4] {
    [c[0], c[1], c[2], 255u8]
}

fn opaque_exec(c: [u8; 3]) -> (r: [u8; 4])
    ensures
        r == opaque(c),
{
    [c[0], c[1], c[2], 255u8]
}

/// Index of pixel (`xx`, `yy`) in a buffer `w` pixels wide.
pub open spec fn px_index(w: u32, yy: int, xx: int) -> int {
    yy * w + xx
}

/// Which pixels of a scanned rectangle get painted.
#[derive(Debug, Clone, Copy, PartialEq, Eq)]
pub enum Shape {
    /// All of them.
    Whole,
    /// Those within `r` of (`cx`, `cy`).
    Disc { cx: u32, cy: u32, r: u32 },
    /// Those outside the frame's rounded corners.
    OutsideCorners { left: u32, top: u32, right: u32, bottom: u32, radius: u32 },
}

/// Whether a frame spanning `left ..= right` by `top ..= bottom`, with
/// corners rounded to `radius`, covers pixel (`x`, `y`).
pub open spec fn inside_rounded(x: int, y: int, left: int, top: int, right: int, bottom: int, radius: int) -> bool {
    if radius == 0 {
        true
    } else if (x >= left + radius && x <= right - radius) || (y >= top + radius && y <= bottom - radius) {
        true
    } else {
        let cx = if x < left + radius && (y < top + radius || y > bottom - radius) { left + radius } else { right - radius };
        let cy = if y < top + radius && (x < left + radius || x > right - radius) { top + radius } else { bottom - radius };
        (x - cx) * (x - cx) + (y - cy) * (y - cy) <= radius * radius
    }
}

/// Whether the shape paints pixel (`x`, `y`).
pub open spec fn shape_has(s: Shape, x: int, y: int) -> bool {
    match s {
        Shape::Whole => true,
        Shape::Disc { cx, cy, r } => (x - cx) * (x - cx) + (y - cy) * (y - cy) <= r * r,
        Shape::OutsideCorners { left, top, right, bottom, radius } => !inside_rounded(
            x,
            y,
            left as int,
            top as int,
            right as int,
            bottom as int,
            radius as int,
        ),
    }
}

/// Whether buffer index `i` is a pixel of the rectangle, rows `y .. y + rh`
/// and columns `x .. x + rw` of a buffer `w` pixels wide, that the shape
/// paints.
pub open spec fn in_shape(i: int, w: u32, x: int, y: int, rw: int, rh: int, s: Shape) -> bool {
    exists|yy: int, xx: int| y <= yy < y + rh && x <= xx < x + rw && shape_has(s, xx, yy) && #[trigger] px_index(w, yy, xx) == i
}

/// Whether every pixel index of the rectangle, and its far edges, fit in
/// a `u32`.
pub open spec fn rect_fits(w: u32, x: u32, y: u32, rw: u32, rh: u32) -> bool {
    &&& y + rh <= u32::MAX
    &&& rh > 0 ==> x + rw <= u32::MAX
    &&& (rh > 0 && rw > 0) ==> (y + rh - 1) * w + (x + rw - 1) <= u32::MAX
}

/// Whether the shape's own arithmetic stays in range.
pub open spec fn shape_fits(s: Shape) -> bool {
    match s {
        Shape::Whole => true,
        Shape::Disc { cx, cy, r } => r * r <= u32::MAX,
        Shape::OutsideCorners { left, top, right, bottom, radius } => true,
    }
}

/// `buf` with the shape's pixels of the rectangle that lie inside it
/// painted opaque `color`.
pub open spec fn painted(buf: Seq<[u8; 4]>, w: u32, x: u32, y: u32, rw: u32, rh: u32, s: Shape, color: [u8; 3]) -> Seq<[u8; 4]> {
    Seq::new(
        buf.len(),
        |i: int| if in_shape(i, w, x as int, y as int, rw as int, rh as int, s) { opaque(color) } else { buf[i] },
    )
}

proof fn lemma_index_bound(w: u32, yy: int, xx: int, ymax: int, xmax: int)
    requires
        0 <= yy <= ymax,
        0 <= xx <= xmax,
    ensures
        px_index(w, yy, xx) <= ymax * w + xmax,
        px_index(w, yy, xx) >= 0,
{
    assert(yy * w <= ymax * w) by (nonlinear_arith)
        requires
            0 <= yy <= ymax,
            w >= 0,
    ;
    assert(yy * w >= 0) by (nonlinear_arith)
        requires
            0 <= yy,
            w >= 0,
    ;
}

fn inside_rounded_exec(x: u32, y: u32, left: u32, top: u32, right: u32, bottom: u32, radius: u32) -> (r: bool)
    ensures
        r == inside_rounded(x as int, y as int, left as int, top as int, right as int, bottom as int, radius as int),
{
    if radius == 0 {
        return true;
    }
    let x = x as i128;
    let y = y as i128;
    let left = left as i128;
    let top = top as i128;
    let right = right as i128;
    let bottom = bottom as i128;
    let radius = radius as i128;
    if (x >= left + radius && x <= right - radius) || (y >= top + radius && y <= bottom - radius) {
        return true;
    }
    let cx = if x < left + radius && (y < top + radius || y > bottom - radius) { left + radius } else { right - radius };
    let cy = if y < top + radius && (x < left + radius || x > right - radius) { top + radius } else { bottom - radius };
    let dx = x - cx;
    let dy = y - cy;
    assert(-0x2_0000_0000 <= dx <= 0x2_0000_0000 && -0x2_0000_0000 <= dy <= 0x2_0000_0000);
    assert(0 <= dx * dx <= 0x4_0000_0000_0000_0000 && 0 <= dy * dy <= 0x4_0000_0000_0000_0000) by (nonlinear_arith)
        requires
            -0x2_0000_0000 <= dx <= 0x2_0000_0000,
            -0x2_0000_0000 <= dy <= 0x2_0000_0000,
    ;
    assert(0 <= radius * radius <= 0x1_0000_0000_0000_0000) by (nonlinear_arith)
        requires
            0 <= radius <= 0xffff_ffff,
    ;
    dx * dx + dy * dy <= radius * radius
}

fn shape_has_exec(s: Shape, x: u32, y: u32) -> (r: bool)
    requires
        shape_fits(s),
    ensures
        r == shape_has(s, x as int, y as int),
{
    match s {
        Shape::Whole => true,
        Shape::Disc { cx, cy, r } => {
            let r2 = (r * r) as i64;
            let dx = x as i64 - cx as i64;
            let dy = y as i64 - cy as i64;
            assert(0 <= dx * dx <= 0x1_0000_0000_0000_0000 && 0 <= dy * dy <= 0x1_0000_0000_0000_0000) by (nonlinear_arith)
                requires
                    -0xffff_ffff <= dx <= 0xffff_ffff,
                    -0xffff_ffff <= dy <= 0xffff_ffff,
            ;
            let dx2 = dx as i128 * dx as i128;
            let dy2 = dy as i128 * dy as i128;
            dx2 + dy2 <= r2 as i128
        },
        Shape::OutsideCorners { left, top, right, bottom, radius } => !inside_rounded_exec(x, y, left, top, right, bottom, radius),
    }
}

/// Paints the pixels of the rectangle `x .. x + rw` by `y .. y + rh` that
/// the shape takes, opaque `color`; indices past the buffer's end are
/// skipped.
fn paint_shape(buf: &mut Vec<[u8; 4]>, w: u32, x: u32, y: u32, rw: u32, rh: u32, s: Shape, color: [u8; 3])
    requires
        rect_fits(w, x, y, rw, rh),
        shape_fits(s),
    ensures
        final(buf)@ == painted(old(buf)@, w, x, y, rw, rh, s, color),
{
    let ghost start = buf@;
    let px = opaque_exec(color);
    let y_end = y + rh;
    let mut yy: u32 = y;
    while yy < y_end
        invariant
            y <= yy <= y_end,
            y_end == y + rh,
            rect_fits(w, x, y, rw, rh),
            shape_fits(s),
            px == opaque(color),
            buf@.len() == start.len(),
            forall|i: int| 0 <= i < start.len() ==> #[trigger] buf@[i] == if in_shape(i, w, x as int, y as int, rw as int, yy - y, s) {
                px
            } else {
                start[i]
            },
        decreases y_end - yy,
    {
        let x_end = x + rw;
        let mut xx: u32 = x;
        while xx < x_end
            invariant
                y <= yy < y_end,
                y_end == y + rh,
                x <= xx <= x_end,
                x_end == x + rw,
                rect_fits(w, x, y, rw, rh),
                shape_fits(s),
                px == opaque(color),
                buf@.len() == start.len(),
                forall|i: int| 0 <= i < start.len() ==> #[trigger] buf@[i] == if in_shape(i, w, x as int, y as int, rw as int, yy - y, s)
                    || in_shape(i, w, x as int, yy as int, xx - x, 1, s) {
                    px
                } else {
                    start[i]
                },
            decreases x_end - xx,
        {
            proof {
                lemma_index_bound(w, yy as int, xx as int, (y + rh - 1) as int, (x + rw - 1) as int);
            }
            let i = yy * w + xx;
            let ghost before = buf@;
            let hit = shape_has_exec(s, xx, yy);
            if hit && (i as usize) < buf.len() {
                buf.set(i as usize, px);
            }
            assert forall|j: int| 0 <= j < start.len() implies #[trigger] buf@[j] == if in_shape(j, w, x as int, y as int, rw as int, yy - y, s)
                || in_shape(j, w, x as int, yy as int, xx + 1 - x, 1, s) {
                px
            } else {
                start[j]
            } by {
                if j == i && hit {
                    assert(px_index(w, yy as int, xx as int) == j);
                } else {
                    if in_shape(j, w, x as int, yy as int, xx + 1 - x, 1, s) {
                        let (a, b) = choose|a: int, b: int|
                            yy <= a < yy + 1 && x <= b < xx + 1 && shape_has(s, b, a) && #[trigger] px_index(w, a, b) == j;
                        assert(px_index(w, a, b) == j);
                        assert(b != xx);
                        assert(in_shape(j, w, x as int, yy as int, xx - x, 1, s));
                    }
                    assert(buf@[j] == before[j]);
                }
            }
            xx += 1;
        }
        assert forall|j: int| 0 <= j < start.len() implies #[trigger] buf@[j] == if in_shape(j, w, x as int, y as int, rw as int, yy + 1 - y, s) {
            px
        } else {
            start[j]
        } by {
            if in_shape(j, w, x as int, y as int, rw as int, yy - y, s) {
                let (a, b) = choose|a: int, b: int|
                    y <= a < y + (yy - y) && x <= b < x + rw && shape_has(s, b, a) && #[trigger] px_index(w, a, b) == j;
                assert(px_index(w, a, b) == j);
            }
            if in_shape(j, w, x as int, yy as int, xx - x, 1, s) {
                let (a, b) = choose|a: int, b: int| yy <= a < yy + 1 && x <= b < xx && shape_has(s, b, a) && #[trigger] px_index(w, a, b) == j;
                assert(px_index(w, a, b) == j);
            }
            if in_shape(j, w, x as int, y as int, rw as int, yy + 1 - y, s) {
                let (a, b) = choose|a: int, b: int|
                    y <= a < y + (yy + 1 - y) && x <= b < x + rw && shape_has(s, b, a) && #[trigger] px_index(w, a, b) == j;
                if a < yy {
                    assert(in_shape(j, w, x as int, y as int, rw as int, yy - y, s));
                } else {
                    assert(in_shape(j, w, x as int, yy as int, xx - x, 1, s));
                }
            }
        }
        yy += 1;
    }
    assert(buf@ =~= painted(start, w, x, y, rw, rh, s, color));
}

/// Paints the rectangle `x .. x + rw` by `y .. y + rh` opaque `color`;
/// pixel indices past the buffer's end are skipped.
pub fn fill_rect(buf: &mut Vec<[u8; 4]>, w: u32, x: u32, y: u32, rw: u32, rh: u32, color: [u8; 3])
    requires
        rect_fits(w, x, y, rw, rh),
    ensures
        final(buf)@ == painted(old(buf)@, w, x, y, rw, rh, Shape::Whole, color),
{
    paint_shape(buf, w, x, y, rw, rh, Shape::Whole, color);
}

/// Whether a dot's bounding square and its pixel indices fit in a `u32`.
pub open spec fn disc_fits(w: u32, cx: u32, cy: u32, radius: u32) -> bool {
    &&& radius * radius <= u32::MAX
    &&& cx + radius + 1 <= u32::MAX
    &&& cy + radius + 1 <= u32::MAX
    &&& rect_fits(
        w,
        if cx >= radius { (cx - radius) as u32 } else { 0 },
        if cy >= radius { (cy - radius) as u32 } else { 0 },
        (cx + radius + 1 - if cx >= radius { cx - radius } else { 0 }) as u32,
        (cy + radius + 1 - if cy >= radius { cy - radius } else { 0 }) as u32,
    )
}

/// Paints the pixels within `radius` of (`cx`, `cy`) opaque `color`.
pub fn fill_circle(buf: &mut Vec<[u8; 4]>, w: u32, cx: u32, cy: u32, radius: u32, color: [u8; 3])
    requires
        disc_fits(w, cx, cy, radius),
    ensures
        final(buf)@ == painted(
            old(buf)@,
            w,
            if cx >= radius { (cx - radius) as u32 } else { 0 },
            if cy >= radius { (cy - radius) as u32 } else { 0 },
            (cx + radius + 1 - if cx >= radius { cx - radius } else { 0 }) as u32,
            (cy + radius + 1 - if cy >= radius { cy - radius } else { 0 }) as u32,
            Shape::Disc { cx, cy, r: radius },
            color,
        ),
{
    let x0 = cx.saturating_sub(radius);
    let y0 = cy.saturating_sub(radius);
    paint_shape(buf, w, x0, y0, cx + radius + 1 - x0, cy + radius + 1 - y0, Shape::Disc { cx, cy, r: radius }, color);
}

/// Paints the frame's pixels that its rounded corners leave out opaque
/// `fill`; the corner radius is at most half the frame's width and height.
pub fn mask_outside_rounded_rect(buf: &mut Vec<[u8; 4]>, w: u32, cfg: &ViewportConfig, radius: u32, fill: [u8; 3])
    requires
        rect_fits(w, cfg.frame_x, cfg.frame_y, cfg.frame_w, cfg.frame_h),
    ensures
        final(buf)@ == painted(
            old(buf)@,
            w,
            cfg.frame_x,
            cfg.frame_y,
            cfg.frame_w,
            cfg.frame_h,
            Shape::OutsideCorners {
                left: cfg.frame_x,
                top: cfg.frame_y,
                right: (cfg.frame_x + cfg.frame_w - 1) as u32,
                bottom: (cfg.frame_y + cfg.frame_h - 1) as u32,
                radius: crate::svg::clip_radius(radius, cfg.frame_w, cfg.frame_h),
            },
            fill,
        ),
{
    let r1 = if radius <= cfg.frame_w / 2 { radius } else { cfg.frame_w / 2 };
    let r2 = if r1 <= cfg.frame_h / 2 { r1 } else { cfg.frame_h / 2 };
    if cfg.frame_w == 0 || cfg.frame_h == 0 {
        let ghost b = buf@;
        let ghost sh = Shape::OutsideCorners {
            left: cfg.frame_x,
            top: cfg.frame_y,
            right: (cfg.frame_x + cfg.frame_w - 1) as u32,
            bottom: (cfg.frame_y + cfg.frame_h - 1) as u32,
            radius: crate::svg::clip_radius(radius, cfg.frame_w, cfg.frame_h),
        };
        assert forall|i: int| 0 <= i < b.len() implies !#[trigger] in_shape(
            i,
            w,
            cfg.frame_x as int,
            cfg.frame_y as int,
            cfg.frame_w as int,
            cfg.frame_h as int,
            sh,
        ) by {}
        assert(b =~= painted(b, w, cfg.frame_x, cfg.frame_y, cfg.frame_w, cfg.frame_h, sh, fill));
        return;
    }
    let s = Shape::OutsideCorners {
        left: cfg.frame_x,
        top: cfg.frame_y,
        right: cfg.frame_x + cfg.frame_w - 1,
        bottom: cfg.frame_y + cfg.frame_h - 1,
        radius: r2,
    };
    paint_shape(buf, w, cfg.frame_x, cfg.frame_y, cfg.frame_w, cfg.frame_h, s, fill);
}

// ---------------------------------------------------------------------------
// Frame background and window bar
// ---------------------------------------------------------------------------

/// `buf` with one filled window-control dot painted.
pub open spec fn painted_dot(buf: Seq<[u8; 4]>, w: u32, cx: u32, cy: u32, r: u32, color: [u8; 3]) -> Seq<[u8; 4]> {
    painted(
        buf,
        w,
        if cx >= r { (cx - r) as u32 } else { 0 },
        if cy >= r { (cy - r) as u32 } else { 0 },
        (cx + r + 1 - if cx >= r { cx - r } else { 0 }) as u32,
        (cy + r + 1 - if cy >= r { cy - r } else { 0 }) as u32,
        Shape::Disc { cx, cy, r },
        color,
    )
}

/// The window-control dot `i` of the viewport.
pub open spec fn bar_dot(cfg: ViewportConfig, i: int) -> crate::svg::WindowBarCircle {
    crate::svg::window_dot(cfg.frame_style.window_bar, cfg.bar_h, cfg.frame_x, cfg.frame_y, cfg.frame_w, i)
}

/// `buf` with the three window-control dots painted, filled in their
/// colours whatever the bar's style.
pub open spec fn painted_bar(buf: Seq<[u8; 4]>, w: u32, cfg: ViewportConfig) -> Seq<[u8; 4]> {
    let d0 = bar_dot(cfg, 0);
    let d1 = bar_dot(cfg, 1);
    let d2 = bar_dot(cfg, 2);
    painted_dot(
        painted_dot(painted_dot(buf, w, d0.cx, d0.cy, d0.r, crate::svg::dot_color(0)), w, d1.cx, d1.cy, d1.r, crate::svg::dot_color(1)),
        w,
        d2.cx,
        d2.cy,
        d2.r,
        crate::svg::dot_color(2),
    )
}

/// Whether the window bar's dots can be painted without overflow.
pub open spec fn bar_fits(w: u32, cfg: ViewportConfig) -> bool {
    &&& crate::svg::window_bar_fits(cfg.frame_style.window_bar, cfg.bar_h, cfg.frame_x, cfg.frame_y, cfg.frame_w)
    &&& forall|i: int| 0 <= i < 3 ==> disc_fits(w, (#[trigger] bar_dot(cfg, i)).cx, bar_dot(cfg, i).cy, bar_dot(cfg, i).r)
}

/// Paints the window bar's three dots.
pub fn draw_window_bar(buf: &mut Vec<[u8; 4]>, w: u32, cfg: &ViewportConfig)
    requires
        !(cfg.frame_style.window_bar is NoBar),
        bar_fits(w, *cfg),
    ensures
        final(buf)@ == painted_bar(old(buf)@, w, *cfg),
{
    let dots = crate::svg::window_bar_circles(cfg.frame_style.window_bar, cfg.bar_h, cfg.frame_x, cfg.frame_y, cfg.frame_w);
    assert(dots@[0] == bar_dot(*cfg, 0) && dots@[1] == bar_dot(*cfg, 1) && dots@[2] == bar_dot(*cfg, 2));
    assert(disc_fits(w, bar_dot(*cfg, 0).cx, bar_dot(*cfg, 0).cy, bar_dot(*cfg, 0).r));
    assert(disc_fits(w, bar_dot(*cfg, 1).cx, bar_dot(*cfg, 1).cy, bar_dot(*cfg, 1).r));
    assert(disc_fits(w, bar_dot(*cfg, 2).cx, bar_dot(*cfg, 2).cy, bar_dot(*cfg, 2).r));
    let d0 = dots[0];
    fill_circle(buf, w, d0.cx, d0.cy, d0.r, [255u8, 95u8, 86u8]);
    let d1 = dots[1];
    fill_circle(buf, w, d1.cx, d1.cy, d1.r, [255u8, 189u8, 46u8]);
    let d2 = dots[2];
    fill_circle(buf, w, d2.cx, d2.cy, d2.r, [39u8, 201u8, 63u8]);
}

/// A buffer of `len` opaque black pixels, the first `old.len()` of them
/// (at most) kept from `old`.
pub open spec fn resized(old: Seq<[u8; 4]>, len: int) -> Seq<[u8; 4]> {
    Seq::new(len as nat, |i: int| if i < old.len() { old[i] } else { [0u8, 0u8, 0u8, 255u8] })
}

/// The frame's static background: margin fill over the whole canvas, the
/// default background over the frame, then the window bar's dots.
pub open spec fn painted_base(buf: Seq<[u8; 4]>, cfg: ViewportConfig, default_bg: [u8; 3]) -> Seq<[u8; 4]> {
    let b0 = resized(buf, cfg.canvas_w * cfg.canvas_h);
    let b1 = painted(b0, cfg.canvas_w, 0, 0, cfg.canvas_w, cfg.canvas_h, Shape::Whole, cfg.frame_style.margin_fill);
    let b2 = painted(b1, cfg.canvas_w, cfg.frame_x, cfg.frame_y, cfg.frame_w, cfg.frame_h, Shape::Whole, default_bg);
    if cfg.frame_style.window_bar is NoBar { b2 } else { painted_bar(b2, cfg.canvas_w, cfg) }
}

/// Whether the canvas and everything painted on its background stay in
/// `u32` pixel arithmetic.
pub open spec fn base_fits(cfg: ViewportConfig) -> bool {
    &&& cfg.canvas_w * cfg.canvas_h <= u32::MAX
    &&& rect_fits(cfg.canvas_w, 0, 0, cfg.canvas_w, cfg.canvas_h)
    &&& rect_fits(cfg.canvas_w, cfg.frame_x, cfg.frame_y, cfg.frame_w, cfg.frame_h)
    &&& (cfg.frame_style.window_bar is NoBar || bar_fits(cfg.canvas_w, cfg))
}

/// Repaints the whole background of a frame into `buf`, resized to the
/// canvas.
pub fn paint_base(buf: &mut Vec<[u8; 4]>, cfg: &ViewportConfig, default_bg: [u8; 3])
    requires
        base_fits(*cfg),
    ensures
        final(buf)@ == painted_base(old(buf)@, *cfg, default_bg),
{
    let expected_len = (cfg.canvas_w * cfg.canvas_h) as usize;
    let ghost b = buf@;
    if buf.len() > expected_len {
        buf.truncate(expected_len);
    } else {
        while buf.len() < expected_len
            invariant
                b.len() <= buf@.len() <= expected_len,
                forall|i: int| 0 <= i < buf@.len() ==> #[trigger] buf@[i] == if i < b.len() { b[i] } else { [0u8, 0u8, 0u8, 255u8] },
            decreases expected_len - buf@.len(),
        {
            buf.push([0u8, 0u8, 0u8, 255u8]);
        }
    }
    assert(buf@ =~= resized(b, cfg.canvas_w * cfg.canvas_h));
    fill_rect(buf, cfg.canvas_w, 0, 0, cfg.canvas_w, cfg.canvas_h, cfg.frame_style.margin_fill);
    fill_rect(buf, cfg.canvas_w, cfg.frame_x, cfg.frame_y, cfg.frame_w, cfg.frame_h, default_bg);
    if cfg.frame_style.window_bar.enabled() {
        draw_window_bar(buf, cfg.canvas_w, cfg);
    }
}

// ---------------------------------------------------------------------------
// What a frame redraws
// ---------------------------------------------------------------------------

/// Whether a frame must be drawn from scratch: there is no previous frame,
/// the kept buffer has the wrong size, or the default colours changed.
pub open spec fn needs_full_redraw(f: RawFrameView, prev: Option<RawFrameView>, buf_len: int, expected_len: int) -> bool {
    match prev {
        None => true,
        Some(p) => buf_len != expected_len || p.default_bg != f.default_bg || p.default_fg != f.default_fg,
    }
}

/// The indices below `n` at which two cell grids differ, in order.
pub open spec fn changed_cells(a: Seq<CellView>, b: Seq<CellView>, n: int) -> Seq<int>
    decreases n,
{
    if n <= 0 {
        Seq::empty()
    } else {
        let prev = changed_cells(a, b, n - 1);
        if a[n - 1] != b[n - 1] { prev.push(n - 1) } else { prev }
    }
}

/// The row and column of cell `i` in a grid `cols` wide.
pub open spec fn cell_pos(i: int, cols: u16) -> (u16, u16) {
    ((i / cols as int) as u16, (i % cols as int) as u16)
}

/// The cells a frame redraws over the previous one: those that differ,
/// among the cells both frames have.
pub open spec fn redraw_cells(f: RawFrameView, p: RawFrameView) -> Seq<(u16, u16)> {
    let n = if f.cells.len() <= p.cells.len() { f.cells.len() } else { p.cells.len() };
    changed_cells(f.cells, p.cells, n as int).map_values(|i: int| cell_pos(i, f.cols))
}

/// `None` when the frame must be drawn in full, else the (row, column)
/// of each cell that changed since the previous frame.
pub fn redraw_plan(frame: &RawFrame, prev: &Option<RawFrame>, buf_len: usize, canvas_w: u32, canvas_h: u32) -> (r: Option<Vec<(u16, u16)>>)
    requires
        canvas_w * canvas_h <= u32::MAX,
        frame.cols > 0 || match prev {
            Some(p) => redraw_cells(frame@, p@).len() == 0,
            None => true,
        },
    ensures
        r is None <==> needs_full_redraw(frame@, match prev { Some(p) => Some(p@), None => None }, buf_len as int, canvas_w * canvas_h),
        r matches Some(v) ==> v@ == redraw_cells(frame@, prev->0@),
{
    let expected_len = (canvas_w * canvas_h) as usize;
    match prev {
        None => None,
        Some(p) => {
            if buf_len != expected_len || !crate::recording::rgb_eq(p.default_bg, frame.default_bg) || !crate::recording::rgb_eq(
                p.default_fg,
                frame.default_fg,
            ) {
                return None;
            }
            let n = if frame.cells.len() <= p.cells.len() { frame.cells.len() } else { p.cells.len() };
            let ghost fc = frame@.cells;
            let ghost pc = p@.cells;
            let mut out: Vec<(u16, u16)> = Vec::new();
            let mut idx: usize = 0;
            proof {
                lemma_changed_cells_prefix(fc, pc, n as int);
            }
            while idx < n
                invariant
                    idx <= n,
                    n <= frame.cells@.len(),
                    n <= p.cells@.len(),
                    fc == frame@.cells,
                    pc == p@.cells,
                    frame.cols > 0 || changed_cells(fc, pc, n as int).len() == 0,
                    forall|k: int| 0 <= k <= n ==> changed_cells(fc, pc, k).len() <= changed_cells(fc, pc, n as int).len(),
                    out@ == changed_cells(fc, pc, idx as int).map_values(|i: int| cell_pos(i, frame.cols)),
                decreases n - idx,
            {
                assert(fc[idx as int] == frame.cells@[idx as int]@);
                assert(pc[idx as int] == p.cells@[idx as int]@);
                let ghost before = out@;
                if !frame.cells[idx].same_as(&p.cells[idx]) {
                    assert(changed_cells(fc, pc, idx + 1).len() > 0);
                    assert(changed_cells(fc, pc, idx + 1).len() <= changed_cells(fc, pc, n as int).len());
                    let cols = frame.cols as usize;
                    out.push(((idx / cols) as u16, (idx % cols) as u16));
                    assert(out@ =~= changed_cells(fc, pc, idx + 1).map_values(|i: int| cell_pos(i, frame.cols)));
                } else {
                    assert(out@ =~= changed_cells(fc, pc, idx + 1).map_values(|i: int| cell_pos(i, frame.cols)));
                }
                idx += 1;
            }
            Some(out)
        },
    }
}

proof fn lemma_changed_cells_prefix(a: Seq<CellView>, b: Seq<CellView>, n: int)
    ensures
        forall|k: int| 0 <= k <= n ==> changed_cells(a, b, k).len() <= changed_cells(a, b, n).len(),
    decreases n,
{
    if n > 0 {
        lemma_changed_cells_prefix(a, b, n - 1);
    }
}

/// Whether two cells look different: in their text, colours or style.
pub open spec fn cells_differ(a: CellView, b: CellView) -> bool {
    a.text != b.text || a.fg != b.fg || a.bg != b.bg || a.flags != b.flags
}

proof fn lemma_changed_cells_exact(a: Seq<CellView>, b: Seq<CellView>, n: int)
    requires
        0 <= n <= a.len(),
        n <= b.len(),
    ensures
        ({
            let ch = changed_cells(a, b, n);
            &&& forall|k: int| 0 <= k < ch.len() ==> 0 <= #[trigger] ch[k] < n && cells_differ(a[ch[k]], b[ch[k]])
            &&& forall|k: int, l: int| 0 <= k < l < ch.len() ==> #[trigger] ch[k] < #[trigger] ch[l]
            &&& forall|i: int| 0 <= i < n && cells_differ(a[i], b[i]) ==> #[trigger] ch.contains(i)
        }),
    decreases n,
{
    if n > 0 {
        lemma_changed_cells_exact(a, b, n - 1);
        let prev = changed_cells(a, b, n - 1);
        let ch = changed_cells(a, b, n);
        let x = a[n - 1];
        let y = b[n - 1];
        if x != y {
            assert(cells_differ(x, y)) by {
                if !cells_differ(x, y) {
                    assert(x.text == y.text && x.fg == y.fg && x.bg == y.bg && x.flags == y.flags);
                    assert(x == y);
                }
            }
            assert(ch == prev.push(n - 1));
            assert forall|i: int| 0 <= i < n && cells_differ(a[i], b[i]) implies #[trigger] ch.contains(i) by {
                if i == n - 1 {
                    assert(ch[prev.len() as int] == i);
                } else {
                    assert(prev.contains(i));
                    let k = choose|k: int| 0 <= k < prev.len() && prev[k] == i;
                    assert(ch[k] == i);
                }
            }
            assert forall|k: int, l: int| 0 <= k < l < ch.len() implies #[trigger] ch[k] < #[trigger] ch[l] by {
                assert(ch[k] == prev[k]);
                if l < prev.len() {
                    assert(ch[l] == prev[l]);
                }
            }
            assert forall|k: int| 0 <= k < ch.len() implies 0 <= #[trigger] ch[k] < n && cells_differ(a[ch[k]], b[ch[k]]) by {
                if k < prev.len() {
                    assert(ch[k] == prev[k]);
                }
            }
        } else {
            assert(ch == prev);
            assert forall|i: int| 0 <= i < n && cells_differ(a[i], b[i]) implies #[trigger] ch.contains(i) by {
                assert(i != n - 1);
            }
        }
    }
}

/// A frame redraws exactly the cells that look different from the
/// previous frame's: the plan lists, in ascending cell order, the
/// position of each cell (among those both frames have) whose text,
/// colours or style changed, and no other.
pub proof fn lemma_redraw_cells_are_the_changed_ones(f: RawFrameView, p: RawFrameView)
    ensures
        ({
            let n = if f.cells.len() <= p.cells.len() { f.cells.len() as int } else { p.cells.len() as int };
            let ix = changed_cells(f.cells, p.cells, n);
            &&& redraw_cells(f, p) == ix.map_values(|i: int| cell_pos(i, f.cols))
            &&& forall|k: int, l: int| 0 <= k < l < ix.len() ==> #[trigger] ix[k] < #[trigger] ix[l]
            &&& forall|k: int| 0 <= k < ix.len() ==> 0 <= #[trigger] ix[k] < n
            &&& forall|i: int| 0 <= i < n ==> (#[trigger] ix.contains(i) <==> cells_differ(f.cells[i], p.cells[i]))
        }),
{
    let n = if f.cells.len() <= p.cells.len() { f.cells.len() as int } else { p.cells.len() as int };
    let ix = changed_cells(f.cells, p.cells, n);
    lemma_changed_cells_exact(f.cells, p.cells, n);
    assert forall|i: int| 0 <= i < n implies (#[trigger] ix.contains(i) <==> cells_differ(f.cells[i], p.cells[i])) by {
        if ix.contains(i) {
            let k = choose|k: int| 0 <= k < ix.len() && ix[k] == i;
            assert(cells_differ(f.cells[ix[k]], p.cells[ix[k]]));
        }
    }
    assert(redraw_cells(f, p) == ix.map_values(|i: int| cell_pos(i, f.cols)));
}

// ---------------------------------------------------------------------------
// Cursor block
// ---------------------------------------------------------------------------

/// Where the text cursor is drawn: the cell's index, its pixel rectangle,
/// the block's colour and the colour of the glyph drawn over it.
#[derive(Debug, Clone, Copy, PartialEq, Eq)]
pub struct CursorOverlay {
    pub cell: usize,
    pub x: u32,
    pub y: u32,
    pub w: u32,
    pub h: u32,
    pub bg: [u8; 3],
    pub fg: [u8; 3],
}

/// The cursor block of a frame: at its cursor's cell when the cursor shows
/// and lies on the grid, in the cursor colour (else the default
/// foreground), with glyphs in the accent colour (else the default
/// background).
pub open spec fn spec_cursor_overlay(f: RawFrameView, g: CellGeometry) -> Option<CursorOverlay> {
    match f.cursor {
        Some((c, r)) => if c < f.cols && r < f.rows {
            Some(
                CursorOverlay {
                    cell: (r * f.cols + c) as usize,
                    x: cell_x(g, c) as u32,
                    y: cell_y(g, r) as u32,
                    w: g.cell_w,
                    h: g.cell_h,
                    bg: match f.cursor_color {
                        Some(cc) => cc,
                        None => f.default_fg,
                    },
                    fg: match f.cursor_accent {
                        Some(a) => a,
                        None => f.default_bg,
                    },
                },
            )
        } else {
            None
        },
        None => None,
    }
}

/// Whether the cursor's cell exists and its pixels can be addressed.
pub open spec fn cursor_fits(f: RawFrameView, g: CellGeometry, w: u32) -> bool {
    match f.cursor {
        Some((c, r)) => c < f.cols && r < f.rows ==> {
            &&& r * f.cols + c < f.cells.len()
            &&& cell_x(g, c) <= u32::MAX
            &&& cell_y(g, r) <= u32::MAX
            &&& rect_fits(w, cell_x(g, c) as u32, cell_y(g, r) as u32, g.cell_w, g.cell_h)
        },
        None => true,
    }
}

/// Paints the frame's cursor block into `buf` and says where it went.
pub fn draw_cursor_block(buf: &mut Vec<[u8; 4]>, frame: &RawFrame, g: CellGeometry, w: u32) -> (r: Option<CursorOverlay>)
    requires
        cursor_fits(frame@, g, w),
    ensures
        r == spec_cursor_overlay(frame@, g),
        final(buf)@ == match r {
            Some(o) => painted(old(buf)@, w, o.x, o.y, o.w, o.h, Shape::Whole, o.bg),
            None => old(buf)@,
        },
{
    match frame.cursor {
        Some((c, r)) => {
            if c < frame.cols && r < frame.rows {
                assert(r * frame.cols + c <= 0xffff * 0xffff + 0xffff) by (nonlinear_arith)
                    requires
                        r <= 0xffff,
                        frame.cols <= 0xffff,
                        c <= 0xffff,
                ;
                let cell = r as usize * frame.cols as usize + c as usize;
                let x = g.content_x + c as u32 * g.cell_w;
                let y = g.content_y + r as u32 * g.cell_h;
                let bg = match frame.cursor_color {
                    Some(cc) => cc,
                    None => frame.default_fg,
                };
                let fg = match frame.cursor_accent {
                    Some(a) => a,
                    None => frame.default_bg,
                };
                fill_rect(buf, w, x, y, g.cell_w, g.cell_h, bg);
                Some(CursorOverlay { cell, x, y, w: g.cell_w, h: g.cell_h, bg, fg })
            } else {
                None
            }
        },
        None => None,
    }
}

// ---------------------------------------------------------------------------
// Which frames reach the GIF, and when
// ---------------------------------------------------------------------------

/// Whether the GIF would show two frames alike: everything but the time
/// and the mouse pointer's shape is equal.
pub open spec fn gif_alike(a: RawFrameView, b: RawFrameView) -> bool {
    a == RawFrameView { t_ms: a.t_ms, pointer_shape: a.pointer_shape, ..b }
}

/// Whether two frames would look the same in the GIF.
pub fn gif_identical(a: &RawFrame, b: &RawFrame) -> (r: bool)
    ensures
        r == gif_alike(a@, b@),
{
    let r = a.cols == b.cols && a.rows == b.rows && crate::recording::cells_eq(&a.cells, &b.cells)
        && crate::recording::opt_pos_eq(a.cursor, b.cursor) && crate::recording::opt_mouse_eq(a.mouse_cursor, b.mouse_cursor)
        && crate::recording::opt_string_eq(&a.title, &b.title) && crate::recording::rgb_eq(a.default_bg, b.default_bg)
        && crate::recording::rgb_eq(a.default_fg, b.default_fg) && crate::recording::opt_rgb_eq(a.cursor_color, b.cursor_color)
        && crate::recording::opt_rgb_eq(a.cursor_accent, b.cursor_accent);
    if r {
        assert(a@ =~= RawFrameView { t_ms: a@.t_ms, pointer_shape: a@.pointer_shape, ..b@ });
    }
    r
}

/// The times the GIF encoder has seen: the last frame that arrived, the
/// last one it showed, and whether it showed any.
#[derive(Debug, Clone, Copy, PartialEq, Eq)]
pub struct GifTimer {
    pub last_seen_t_ms: u32,
    pub last_emitted_t_ms: u32,
    pub emitted_any: bool,
}

impl GifTimer {
    /// Nothing seen yet.
    pub fn new() -> (r: GifTimer)
        ensures
            r == (GifTimer { last_seen_t_ms: 0, last_emitted_t_ms: 0, emitted_any: false }),
    {
        GifTimer { last_seen_t_ms: 0, last_emitted_t_ms: 0, emitted_any: false }
    }

    /// A frame arrives at `t_ms`, `alike` when it looks like the last frame
    /// shown. Returns the time in milliseconds at which to show it: the
    /// first frame at 0, a frame alike the last one not at all.
    pub fn frame(&mut self, alike: bool, t_ms: u32) -> (r: Option<u32>)
        ensures
            final(self).last_seen_t_ms == t_ms,
            (old(self).emitted_any && alike) ==> r is None && final(self).last_emitted_t_ms == old(self).last_emitted_t_ms
                && final(self).emitted_any,
            !(old(self).emitted_any && alike) ==> r == Some(if old(self).emitted_any { t_ms } else { 0u32 })
                && final(self).last_emitted_t_ms == t_ms && final(self).emitted_any,
    {
        self.last_seen_t_ms = t_ms;
        if self.emitted_any && alike {
            return None;
        }
        let at = if self.emitted_any { t_ms } else { 0 };
        self.emitted_any = true;
        self.last_emitted_t_ms = t_ms;
        Some(at)
    }

    /// The time at which to repeat the last frame shown so that trailing
    /// frames alike it still last: only when a later frame arrived.
    pub fn finish(&self) -> (r: Option<u32>)
        ensures
            r == if self.emitted_any && self.last_seen_t_ms > self.last_emitted_t_ms {
                Some(self.last_seen_t_ms)
            } else {
                None::<u32>
            },
    {
        if self.emitted_any && self.last_seen_t_ms > self.last_emitted_t_ms {
            Some(self.last_seen_t_ms)
        } else {
            None
        }
    }
}

} // verus!
