//! Geometry of the rendered terminal viewport, shared by every renderer.

use vstd::prelude::*;
use crate::style::FrameStyle;

verus! {

/// Returns `true` if the character is a box drawing character: the Box
/// Drawing and Block Elements blocks (U+2500..=U+259F), Symbols for Legacy
/// Computing (U+1FB00..=U+1FBFF) and its supplement (U+1CC00..=U+1CEBF).
pub fn is_box_drawing(c: char) -> (r: bool)
    ensures
        r == ((0x2500 <= c as u32 <= 0x259F) || (0x1FB00 <= c as u32 <= 0x1FBFF) || (
        0x1CC00 <= c as u32 <= 0x1CEBF)),
{
    let cp = c as u32;
    (0x2500 <= cp && cp <= 0x259F) || (0x1FB00 <= cp && cp <= 0x1FBFF) || (0x1CC00 <= cp && cp
        <= 0x1CEBF)
}

pub open spec fn max_int(a: int, b: int) -> int {
    if a >= b { a } else { b }
}

pub open spec fn min_int(a: int, b: int) -> int {
    if a <= b { a } else { b }
}

/// `a - b`, or zero when `b > a`.
pub open spec fn sat_sub(a: int, b: int) -> int {
    if a >= b { a - b } else { 0 }
}

/// Integer half, rounding down.
#[verifier::opaque]
pub open spec fn half_int(x: int) -> int {
    x / 2
}

/// Pixel extent of `n` cells of `cell_px` pixels (a zero size counts as one).
#[verifier::opaque]
pub open spec fn cells_px(n: u16, cell_px: u32) -> int {
    n * max_int(cell_px as int, 1)
}

/// Height of the window bar in pixels (zero when the bar is disabled).
pub open spec fn spec_bar_h(fs: FrameStyle) -> int {
    if fs.window_bar is NoBar { 0 } else { fs.window_bar_size_px as int }
}

/// Canvas extent along one axis: the explicit size if one is set, else the
/// grid plus padding, window bar and margins; at least one pixel.
pub open spec fn axis_canvas(n: u16, cell_px: u32, canvas: Option<u32>, margin: u32, padding: u32, bar: int) -> int {
    max_int(
        match canvas {
            Some(c) => c as int,
            None => cells_px(n, cell_px) + padding * 2 + bar + margin * 2,
        },
        1,
    )
}

/// Frame extent along one axis: the canvas less its margins, at least one pixel.
pub open spec fn axis_frame(n: u16, cell_px: u32, canvas: Option<u32>, margin: u32, padding: u32, bar: int) -> int {
    max_int(sat_sub(axis_canvas(n, cell_px, canvas, margin, padding, bar), margin * 2), 1)
}

/// Offset of the grid inside the padded frame: the grid is centred in the
/// room left for it (and clipped when it does not fit).
pub open spec fn axis_extra(n: u16, cell_px: u32, canvas: Option<u32>, margin: u32, padding: u32, bar: int) -> int {
    let inner = sat_sub(axis_frame(n, cell_px, canvas, margin, padding, bar), padding * 2 + bar);
    half_int(sat_sub(inner, min_int(cells_px(n, cell_px), inner)))
}

/// The sums along one axis fit in `u32`.
pub open spec fn axis_fits(n: u16, cell_px: u32, canvas: Option<u32>, margin: u32, padding: u32, bar: int) -> bool {
    &&& canvas is None ==> cells_px(n, cell_px) + padding * 2 + bar + margin * 2 <= u32::MAX
    &&& margin + bar + padding + axis_extra(n, cell_px, canvas, margin, padding, bar) <= u32::MAX
}

pub open spec fn spec_canvas_w(cols: u16, cell_width_px: u32, fs: FrameStyle) -> int {
    axis_canvas(cols, cell_width_px, fs.canvas_width_px, fs.margin_px, fs.padding_px, 0)
}

pub open spec fn spec_canvas_h(rows: u16, cell_height_px: u32, fs: FrameStyle) -> int {
    axis_canvas(rows, cell_height_px, fs.canvas_height_px, fs.margin_px, fs.padding_px, spec_bar_h(fs))
}

pub open spec fn spec_frame_w(cols: u16, cell_width_px: u32, fs: FrameStyle) -> int {
    axis_frame(cols, cell_width_px, fs.canvas_width_px, fs.margin_px, fs.padding_px, 0)
}

pub open spec fn spec_frame_h(rows: u16, cell_height_px: u32, fs: FrameStyle) -> int {
    axis_frame(rows, cell_height_px, fs.canvas_height_px, fs.margin_px, fs.padding_px, spec_bar_h(fs))
}

/// Horizontal position of the grid's left edge.
pub open spec fn spec_content_x(cols: u16, cell_width_px: u32, fs: FrameStyle) -> int {
    fs.margin_px + fs.padding_px + axis_extra(cols, cell_width_px, fs.canvas_width_px, fs.margin_px, fs.padding_px, 0)
}

/// Vertical position of the grid's top edge (below the window bar).
pub open spec fn spec_content_y(rows: u16, cell_height_px: u32, fs: FrameStyle) -> int {
    fs.margin_px + spec_bar_h(fs) + fs.padding_px + axis_extra(
        rows,
        cell_height_px,
        fs.canvas_height_px,
        fs.margin_px,
        fs.padding_px,
        spec_bar_h(fs),
    )
}

/// The sizes that `ViewportConfig::new` computes fit in `u32`.
pub open spec fn viewport_fits(
    cols: u16,
    rows: u16,
    cell_width_px: u32,
    cell_height_px: u32,
    fs: FrameStyle,
) -> bool {
    &&& axis_fits(cols, cell_width_px, fs.canvas_width_px, fs.margin_px, fs.padding_px, 0)
    &&& axis_fits(rows, cell_height_px, fs.canvas_height_px, fs.margin_px, fs.padding_px, spec_bar_h(fs))
}

fn cells_px_exec(n: u16, cell_px: u32) -> (r: u64)
    ensures
        r == cells_px(n, cell_px),
        r <= 65535 * 4294967295,
{
    reveal(cells_px);
    let c: u32 = if cell_px >= 1 { cell_px } else { 1 };
    assert(n as int * c as int <= 65535 * 4294967295) by (nonlinear_arith)
        requires
            n <= 65535,
            c <= 4294967295,
    ;
    n as u64 * c as u64
}

/// Lays out one axis: returns canvas extent, frame extent and the offset of
/// the grid inside the padded frame.
fn axis_layout(n: u16, cell_px: u32, canvas: Option<u32>, margin: u32, padding: u32, bar: u32) -> (r: (u32, u32, u32))
    requires
        axis_fits(n, cell_px, canvas, margin, padding, bar as int),
    ensures
        r.0 == axis_canvas(n, cell_px, canvas, margin, padding, bar as int),
        r.1 == axis_frame(n, cell_px, canvas, margin, padding, bar as int),
        r.2 == axis_extra(n, cell_px, canvas, margin, padding, bar as int),
{
    let g: u64 = cells_px_exec(n, cell_px);
    let c: u64 = match canvas {
        Some(c) => c as u64,
        None => g + padding as u64 * 2 + bar as u64 + margin as u64 * 2,
    };
    let canvas_px: u64 = if c >= 1 { c } else { 1 };
    let m2: u64 = margin as u64 * 2;
    let f: u64 = if canvas_px >= m2 { canvas_px - m2 } else { 0 };
    let frame_px: u64 = if f >= 1 { f } else { 1 };
    let pb: u64 = padding as u64 * 2 + bar as u64;
    let inner: u64 = if frame_px >= pb { frame_px - pb } else { 0 };
    let grid: u64 = if g <= inner { g } else { inner };
    let room: u64 = inner - grid;
    let extra: u64 = room / 2;
    assert(extra == half_int(room as int)) by {
        reveal(half_int);
    }
    (canvas_px as u32, frame_px as u32, extra as u32)
}

/// Whether one axis's sums fit in `u32`.
fn axis_fits_exec(n: u16, cell_px: u32, canvas: Option<u32>, margin: u32, padding: u32, bar: u32) -> (r: bool)
    ensures
        r == axis_fits(n, cell_px, canvas, margin, padding, bar as int),
{
    let g: u64 = cells_px_exec(n, cell_px);
    let total: u64 = g + padding as u64 * 2 + bar as u64 + margin as u64 * 2;
    let c: u64 = match canvas {
        Some(c) => c as u64,
        None => total,
    };
    let canvas_px: u64 = if c >= 1 { c } else { 1 };
    let m2: u64 = margin as u64 * 2;
    let f: u64 = if canvas_px >= m2 { canvas_px - m2 } else { 0 };
    let frame_px: u64 = if f >= 1 { f } else { 1 };
    let pb: u64 = padding as u64 * 2 + bar as u64;
    let inner: u64 = if frame_px >= pb { frame_px - pb } else { 0 };
    let grid: u64 = if g <= inner { g } else { inner };
    let room: u64 = inner - grid;
    let extra: u64 = room / 2;
    assert(extra == half_int(room as int)) by {
        reveal(half_int);
    }
    let first = canvas.is_some() || total <= 0xffff_ffff;
    let second = margin as u64 + bar as u64 + padding as u64 + extra <= 0xffff_ffff;
    first && second
}

/// Whether the layout of a `cols` by `rows` grid with these cell sizes and
/// frame style fits in `u32` pixel coordinates.
pub fn viewport_fits_exec(cols: u16, rows: u16, cell_width_px: u32, cell_height_px: u32, fs: FrameStyle) -> (r: bool)
    ensures
        r == viewport_fits(cols, rows, cell_width_px, cell_height_px, fs),
{
    let bar_h: u32 = if fs.window_bar.enabled() { fs.window_bar_size_px } else { 0 };
    axis_fits_exec(cols, cell_width_px, fs.canvas_width_px, fs.margin_px, fs.padding_px, 0) && axis_fits_exec(
        rows,
        cell_height_px,
        fs.canvas_height_px,
        fs.margin_px,
        fs.padding_px,
        bar_h,
    )
}

/// Canonical description of the terminal viewport used by every renderer and
/// recording consumer. Font size and letter spacing are carried as the bit
/// patterns of the `f32` values measured by the font loader.
#[derive(Debug, Clone, Copy)]
pub struct ViewportConfig {
    pub cols: u16,
    pub rows: u16,
    pub framerate: u32,
    pub cell_width_px: u32,
    pub cell_height_px: u32,
    pub frame_style: FrameStyle,
    pub canvas_w: u32,
    pub canvas_h: u32,
    pub frame_x: u32,
    pub frame_y: u32,
    pub frame_w: u32,
    pub frame_h: u32,
    pub bar_h: u32,
    pub content_x: u32,
    pub content_y: u32,
    pub font_size_px_bits: u32,
    pub char_height_px: u32,
    pub ascent_px: u32,
    pub letter_spacing_bits: u32,
}

impl ViewportConfig {
    /// Lays out canvas, frame, window bar and grid. The grid is centred in
    /// the space left inside the frame's padding.
    pub fn new(
        cols: u16,
        rows: u16,
        framerate: u32,
        cell_width_px: u32,
        cell_height_px: u32,
        frame_style: FrameStyle,
        font_size_px_bits: u32,
        char_height_px: u32,
        ascent_px: u32,
        letter_spacing_bits: u32,
    ) -> (r: Self)
        requires
            viewport_fits(cols, rows, cell_width_px, cell_height_px, frame_style),
        ensures
            r.cols == cols,
            r.rows == rows,
            r.framerate == framerate,
            r.cell_width_px == cell_width_px,
            r.cell_height_px == cell_height_px,
            r.frame_style == frame_style,
            r.canvas_w == spec_canvas_w(cols, cell_width_px, frame_style),
            r.canvas_h == spec_canvas_h(rows, cell_height_px, frame_style),
            r.frame_x == frame_style.margin_px,
            r.frame_y == frame_style.margin_px,
            r.frame_w == spec_frame_w(cols, cell_width_px, frame_style),
            r.frame_h == spec_frame_h(rows, cell_height_px, frame_style),
            r.bar_h == spec_bar_h(frame_style),
            r.content_x == spec_content_x(cols, cell_width_px, frame_style),
            r.content_y == spec_content_y(rows, cell_height_px, frame_style),
            r.font_size_px_bits == font_size_px_bits,
            r.char_height_px == char_height_px,
            r.ascent_px == ascent_px,
            r.letter_spacing_bits == letter_spacing_bits,
    {
        let fs = frame_style;
        let bar_h: u32 = if fs.window_bar.enabled() { fs.window_bar_size_px } else { 0 };
        let (canvas_w, frame_w, extra_x) = axis_layout(cols, cell_width_px, fs.canvas_width_px, fs.margin_px, fs.padding_px, 0);
        let (canvas_h, frame_h, extra_y) = axis_layout(rows, cell_height_px, fs.canvas_height_px, fs.margin_px, fs.padding_px, bar_h);
        ViewportConfig {
            cols,
            rows,
            framerate,
            cell_width_px,
            cell_height_px,
            frame_style,
            canvas_w,
            canvas_h,
            frame_x: fs.margin_px,
            frame_y: fs.margin_px,
            frame_w,
            frame_h,
            bar_h,
            content_x: fs.margin_px + fs.padding_px + extra_x,
            content_y: fs.margin_px + bar_h + fs.padding_px + extra_y,
            font_size_px_bits,
            char_height_px,
            ascent_px,
            letter_spacing_bits,
        }
    }
}

} // verus!
