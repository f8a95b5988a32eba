//! Pieces of the SVG renderer that need no font metrics: XML escaping,
//! cell colours, background rectangles and window-bar circles.

use vstd::prelude::*;
use crate::recording::{cells_view, CellSnap, CellView, RawFrame, RawFrameView, STYLE_DIM, STYLE_INVERSE};
use crate::style::{lex_lt, rgb_hex, spec_rgb_hex, WindowBarStyle};
use crate::render_common::ViewportConfig;

verus! {

// ---------------------------------------------------------------------------
// Escaping
// ---------------------------------------------------------------------------

/// The XML text of one character: `&`, `<` and `>` escaped.
pub open spec fn text_escape_char(c: char) -> Seq<char> {
    if c == '&' {
        "&amp;"@
    } else if c == '<' {
        "&lt;"@
    } else if c == '>' {
        "&gt;"@
    } else {
        seq![c]
    }
}

/// The XML attribute text of one character: quotes escaped as well.
pub open spec fn attr_escape_char(c: char) -> Seq<char> {
    if c == '"' {
        "&quot;"@
    } else if c == '\'' {
        "&apos;"@
    } else {
        text_escape_char(c)
    }
}

/// `s` with each character replaced by `f` of it.
pub open spec fn escape_with(s: Seq<char>, attr: bool) -> Seq<char>
    decreases s.len(),
{
    if s.len() == 0 {
        Seq::empty()
    } else {
        escape_with(s.drop_last(), attr) + if attr {
            attr_escape_char(s.last())
        } else {
            text_escape_char(s.last())
        }
    }
}

fn escape_exec(s: &str, attr: bool) -> (r: String)
    ensures
        r@ == escape_with(s@, attr),
{
    let cs = crate::text::chars_of(s);
    let mut out = String::new();
    let mut i: usize = 0;
    while i < cs.len()
        invariant
            i <= cs@.len(),
            cs@ == s@,
            out@ == escape_with(cs@.take(i as int), attr),
        decreases cs@.len() - i,
    {
        assert(cs@.take(i + 1).drop_last() =~= cs@.take(i as int));
        assert(cs@.take(i + 1).last() == cs@[i as int]);
        let c = cs[i];
        if attr && c == '"' {
            out.append("&quot;");
        } else if attr && c == '\'' {
            out.append("&apos;");
        } else if c == '&' {
            out.append("&amp;");
        } else if c == '<' {
            out.append("&lt;");
        } else if c == '>' {
            out.append("&gt;");
        } else {
            let one = crate::text::string_from_chars(vec![c].as_slice());
            out.append(one.as_str());
        }
        i += 1;
    }
    assert(cs@.take(i as int) =~= cs@);
    out
}

/// Escapes a string for an XML attribute value.
pub fn escape_attr(s: &str) -> (r: String)
    ensures
        r@ == escape_with(s@, true),
{
    escape_exec(s, true)
}

/// Escapes a string for XML text content (spaces are kept as they are).
pub fn escape_text(s: &str) -> (r: String)
    ensures
        r@ == escape_with(s@, false),
{
    escape_exec(s, false)
}

// ---------------------------------------------------------------------------
// Cell colours
// ---------------------------------------------------------------------------

/// A dim foreground: each channel halfway (rounded down) toward the
/// background.
pub open spec fn spec_dim(fg: [u8; 3], bg: [u8; 3]) -> [u8; 3] {
    [((fg[0] + bg[0]) / 2) as u8, ((fg[1] + bg[1]) / 2) as u8, ((fg[2] + bg[2]) / 2) as u8]
}

/// Blends the foreground 50% toward the background.
pub fn dim_color(fg: [u8; 3], bg: [u8; 3]) -> (r: [u8; 3])
    ensures
        r == spec_dim(fg, bg),
{
    let r = [
        ((fg[0] as u16 + bg[0] as u16) / 2) as u8,
        ((fg[1] as u16 + bg[1] as u16) / 2) as u8,
        ((fg[2] as u16 + bg[2] as u16) / 2) as u8,
    ];
    assert(r =~= spec_dim(fg, bg));
    r
}

/// The colours a cell is drawn with: swapped when inverse, the foreground
/// dimmed when dim.
pub open spec fn spec_effective_colors(fg: [u8; 3], bg: [u8; 3], flags: u8) -> ([u8; 3], [u8; 3]) {
    let (f, b) = if flags & STYLE_INVERSE != 0 {
        (bg, fg)
    } else {
        (fg, bg)
    };
    if flags & STYLE_DIM != 0 {
        (spec_dim(f, b), b)
    } else {
        (f, b)
    }
}

/// The foreground and background a cell is drawn with.
pub fn effective_colors(cell: &CellSnap) -> (r: ([u8; 3], [u8; 3]))
    ensures
        r == spec_effective_colors(cell.fg, cell.bg, cell.flags),
{
    let (f, b) = if cell.flags & STYLE_INVERSE != 0 {
        (cell.bg, cell.fg)
    } else {
        (cell.fg, cell.bg)
    };
    if cell.flags & STYLE_DIM != 0 {
        (dim_color(f, b), b)
    } else {
        (f, b)
    }
}

// ---------------------------------------------------------------------------
// Background rectangles
// ---------------------------------------------------------------------------

/// A filled rectangle shown from `start_ms` to `end_ms`.
#[derive(Debug, Clone, PartialEq)]
pub struct BgRect {
    pub x: u32,
    pub y: u32,
    pub w: u32,
    pub h: u32,
    pub fill: [u8; 3],
    pub start_ms: u32,
    pub end_ms: u32,
    pub clip_path: Option<String>,
}

pub struct BgRectView {
    pub x: u32,
    pub y: u32,
    pub w: u32,
    pub h: u32,
    pub fill: [u8; 3],
    pub start_ms: u32,
    pub end_ms: u32,
    pub clip_path: Option<Seq<char>>,
}

impl View for BgRect {
    type V = BgRectView;

    open spec fn view(&self) -> BgRectView {
        BgRectView {
            x: self.x,
            y: self.y,
            w: self.w,
            h: self.h,
            fill: self.fill,
            start_ms: self.start_ms,
            end_ms: self.end_ms,
            clip_path: match self.clip_path {
                Some(c) => Some(c@),
                None => None,
            },
        }
    }
}

pub open spec fn rects_view(v: Seq<BgRect>) -> Seq<BgRectView> {
    v.map_values(|r: BgRect| r@)
}

/// -1, 0 or 1 as `a` is below, equal to or above `b`.
pub open spec fn order_int(a: int, b: int) -> int {
    if a < b {
        -1
    } else if a > b {
        1
    } else {
        0
    }
}

/// Order of optional strings: none first, then by code points.
pub open spec fn order_opt_str(a: Option<Seq<char>>, b: Option<Seq<char>>) -> int {
    match (a, b) {
        (None, None) => 0,
        (None, Some(_)) => -1,
        (Some(_), None) => 1,
        (Some(x), Some(y)) => if lex_lt(x, y) {
            -1
        } else if lex_lt(y, x) {
            1
        } else {
            0
        },
    }
}

/// Sort order of background rectangles: by row, height, fill, times,
/// clip path, then column.
pub open spec fn rect_order(a: BgRectView, b: BgRectView) -> int {
    let keys = seq![
        order_int(a.y as int, b.y as int),
        order_int(a.h as int, b.h as int),
        order_int(a.fill[0] as int, b.fill[0] as int),
        order_int(a.fill[1] as int, b.fill[1] as int),
        order_int(a.fill[2] as int, b.fill[2] as int),
        order_int(a.start_ms as int, b.start_ms as int),
        order_int(a.end_ms as int, b.end_ms as int),
        order_opt_str(a.clip_path, b.clip_path),
        order_int(a.x as int, b.x as int),
    ];
    first_nonzero(keys)
}

pub open spec fn first_nonzero(s: Seq<int>) -> int
    decreases s.len(),
{
    if s.len() == 0 {
        0
    } else if s[0] != 0 {
        s[0]
    } else {
        first_nonzero(s.drop_first())
    }
}

/// `s` with `x` inserted after every rectangle that does not sort after
/// it (a stable insertion into a sorted list).
pub open spec fn insert_rect(s: Seq<BgRectView>, x: BgRectView) -> Seq<BgRectView>
    decreases s.len(),
{
    if s.len() == 0 {
        seq![x]
    } else if rect_order(x, s.last()) >= 0 {
        s.push(x)
    } else {
        insert_rect(s.drop_last(), x).push(s.last())
    }
}

/// Rectangles in sort order, equal ones in their original order.
pub open spec fn sort_rects(rs: Seq<BgRectView>) -> Seq<BgRectView>
    decreases rs.len(),
{
    if rs.len() == 0 {
        Seq::empty()
    } else {
        insert_rect(sort_rects(rs.drop_last()), rs.last())
    }
}

/// Whether `b` continues `a` to its right with the same row, height, fill,
/// times and clip path.
pub open spec fn continues(a: BgRectView, b: BgRectView) -> bool {
    a.y == b.y && a.h == b.h && a.fill == b.fill && a.start_ms == b.start_ms && a.end_ms == b.end_ms
        && a.clip_path == b.clip_path && a.x + a.w == b.x
}

/// Runs of rectangles that continue each other merged into one.
pub open spec fn merge_rects(rs: Seq<BgRectView>) -> Seq<BgRectView>
    decreases rs.len(),
{
    if rs.len() == 0 {
        Seq::empty()
    } else {
        let m = merge_rects(rs.drop_last());
        let r = rs.last();
        if m.len() > 0 && continues(m.last(), r) {
            m.update(m.len() - 1, BgRectView { w: (m.last().w + r.w) as u32, ..m.last() })
        } else {
            m.push(r)
        }
    }
}

/// Whether every rectangle ends within the `u32` coordinate range.
pub open spec fn rects_in_range(rs: Seq<BgRectView>) -> bool {
    forall|i: int| 0 <= i < rs.len() ==> rs[i].x + rs[i].w <= u32::MAX
}

fn clone_rect(r: &BgRect) -> (c: BgRect)
    ensures
        c@ == r@,
{
    BgRect {
        x: r.x,
        y: r.y,
        w: r.w,
        h: r.h,
        fill: r.fill,
        start_ms: r.start_ms,
        end_ms: r.end_ms,
        clip_path: match &r.clip_path {
            Some(c) => Some(c.clone()),
            None => None,
        },
    }
}

fn order_u32(a: u32, b: u32) -> (r: i8)
    ensures
        r as int == order_int(a as int, b as int),
{
    if a < b {
        -1
    } else if a > b {
        1
    } else {
        0
    }
}

fn order_opt_str_exec(a: &Option<String>, b: &Option<String>) -> (r: i8)
    ensures
        r as int == order_opt_str(
            match a {
                Some(s) => Some(s@),
                None => None,
            },
            match b {
                Some(s) => Some(s@),
                None => None,
            },
        ),
{
    match (a, b) {
        (None, None) => 0,
        (None, Some(_)) => -1,
        (Some(_), None) => 1,
        (Some(x), Some(y)) => {
            let xc = crate::text::chars_of(x.as_str());
            let yc = crate::text::chars_of(y.as_str());
            if crate::style::lex_lt_exec(xc.as_slice(), yc.as_slice()) {
                -1
            } else if crate::style::lex_lt_exec(yc.as_slice(), xc.as_slice()) {
                1
            } else {
                0
            }
        },
    }
}

fn rect_order_exec(a: &BgRect, b: &BgRect) -> (r: i8)
    ensures
        r as int == rect_order(a@, b@),
{
    let keys: [i8; 9] = [
        order_u32(a.y, b.y),
        order_u32(a.h, b.h),
        order_u32(a.fill[0] as u32, b.fill[0] as u32),
        order_u32(a.fill[1] as u32, b.fill[1] as u32),
        order_u32(a.fill[2] as u32, b.fill[2] as u32),
        order_u32(a.start_ms, b.start_ms),
        order_u32(a.end_ms, b.end_ms),
        order_opt_str_exec(&a.clip_path, &b.clip_path),
        order_u32(a.x, b.x),
    ];
    let ghost ks = seq![
        order_int(a.y as int, b.y as int),
        order_int(a.h as int, b.h as int),
        order_int(a.fill[0] as int, b.fill[0] as int),
        order_int(a.fill[1] as int, b.fill[1] as int),
        order_int(a.fill[2] as int, b.fill[2] as int),
        order_int(a.start_ms as int, b.start_ms as int),
        order_int(a.end_ms as int, b.end_ms as int),
        order_opt_str(a@.clip_path, b@.clip_path),
        order_int(a.x as int, b.x as int),
    ];
    let mut i: usize = 0;
    assert(ks.skip(0) =~= ks);
    assert(first_nonzero(ks) == rect_order(a@, b@));
    while i < 9
        invariant
            i <= 9,
            forall|j: int| 0 <= j < 9 ==> keys[j] as int == ks[j],
            ks.len() == 9,
            first_nonzero(ks) == rect_order(a@, b@),
            first_nonzero(ks) == first_nonzero(ks.skip(i as int)),
        decreases 9 - i,
    {
        assert(ks.skip(i as int)[0] == ks[i as int]);
        assert(ks.skip(i as int).drop_first() =~= ks.skip(i + 1));
        if keys[i] != 0 {
            return keys[i];
        }
        i += 1;
    }
    assert(ks.skip(9) =~= Seq::<int>::empty());
    0
}

fn insert_rect_exec(v: &mut Vec<BgRect>, x: BgRect)
    ensures
        rects_view(final(v)@) == insert_rect(rects_view(old(v)@), x@),
{
    let ghost s = rects_view(v@);
    let mut p: usize = v.len();
    assert(s.take(p as int) =~= s);
    assert(s.skip(p as int) =~= Seq::<BgRectView>::empty());
    loop
        invariant_except_break
            p <= v@.len(),
            s == rects_view(v@),
            insert_rect(s, x@) == insert_rect(s.take(p as int), x@) + s.skip(p as int),
        ensures
            p <= v@.len(),
            s == rects_view(v@),
            insert_rect(s, x@) == insert_rect(s.take(p as int), x@) + s.skip(p as int),
            p == 0 || rect_order(x@, s[p - 1]) >= 0,
        decreases p,
    {
        if p == 0 {
            break;
        }
        assert(s[p - 1] == v@[p - 1]@);
        if rect_order_exec(&x, &v[p - 1]) >= 0 {
            break;
        }
        proof {
            let t = s.take(p as int);
            assert(t.last() == s[p - 1]);
            assert(t.drop_last() =~= s.take(p - 1));
            assert(s.skip(p - 1) =~= seq![s[p - 1]] + s.skip(p as int));
            assert(insert_rect(t, x@) == insert_rect(s.take(p - 1), x@).push(s[p - 1]));
            assert(insert_rect(s.take(p - 1), x@).push(s[p - 1]) + s.skip(p as int) =~= insert_rect(
                s.take(p - 1),
                x@,
            ) + s.skip(p - 1));
        }
        p -= 1;
    }
    proof {
        let t = s.take(p as int);
        if p == 0 {
            assert(t =~= Seq::<BgRectView>::empty());
        } else {
            assert(t.last() == s[p - 1]);
        }
        assert(insert_rect(t, x@) == t.push(x@));
    }
    let ghost xv = x@;
    v.insert(p, x);
    assert(rects_view(v@) =~= s.take(p as int).push(xv) + s.skip(p as int));
}

proof fn lemma_insert_rect_in_range(s: Seq<BgRectView>, x: BgRectView)
    requires
        rects_in_range(s),
        x.x + x.w <= u32::MAX,
    ensures
        rects_in_range(insert_rect(s, x)),
    decreases s.len(),
{
    if s.len() > 0 && rect_order(x, s.last()) < 0 {
        lemma_insert_rect_in_range(s.drop_last(), x);
        let r = insert_rect(s.drop_last(), x);
        assert forall|i: int| 0 <= i < r.push(s.last()).len() implies r.push(s.last())[i].x
            + r.push(s.last())[i].w <= u32::MAX by {
            if i < r.len() {
            } else {
                assert(s.last() == s[s.len() - 1]);
            }
        }
    }
}

proof fn lemma_sort_rects_in_range(rs: Seq<BgRectView>)
    requires
        rects_in_range(rs),
    ensures
        rects_in_range(sort_rects(rs)),
    decreases rs.len(),
{
    if rs.len() > 0 {
        assert(rects_in_range(rs.drop_last())) by {
            assert forall|i: int| 0 <= i < rs.drop_last().len() implies rs.drop_last()[i].x
                + rs.drop_last()[i].w <= u32::MAX by {
                assert(rs.drop_last()[i] == rs[i]);
            }
        }
        lemma_sort_rects_in_range(rs.drop_last());
        assert(rs.last() == rs[rs.len() - 1]);
        lemma_insert_rect_in_range(sort_rects(rs.drop_last()), rs.last());
    }
}

/// The widths of the rectangles added up.
pub open spec fn total_width(rs: Seq<BgRectView>) -> int
    decreases rs.len(),
{
    if rs.len() == 0 {
        0
    } else {
        total_width(rs.drop_last()) + rs.last().w
    }
}

proof fn lemma_total_width_update_last(s: Seq<BgRectView>, r: BgRectView)
    requires
        s.len() > 0,
    ensures
        total_width(s.update(s.len() - 1, r)) == total_width(s) - s.last().w + r.w,
{
    assert(s.update(s.len() - 1, r).drop_last() =~= s.drop_last());
}

proof fn lemma_insert_rect_width(s: Seq<BgRectView>, x: BgRectView)
    ensures
        total_width(insert_rect(s, x)) == total_width(s) + x.w,
    decreases s.len(),
{
    if s.len() == 0 {
        assert(seq![x].drop_last() =~= Seq::<BgRectView>::empty());
        assert(total_width(seq![x]) == total_width(seq![x].drop_last()) + x.w);
    } else if rect_order(x, s.last()) >= 0 {
        assert(s.push(x).drop_last() =~= s);
        assert(total_width(s.push(x)) == total_width(s) + x.w);
    } else {
        lemma_insert_rect_width(s.drop_last(), x);
        let r = insert_rect(s.drop_last(), x);
        assert(r.push(s.last()).drop_last() =~= r);
        assert(r.push(s.last()).last() == s.last());
        assert(insert_rect(s, x) == r.push(s.last()));
        assert(total_width(r.push(s.last())) == total_width(r) + s.last().w);
        assert(total_width(s) == total_width(s.drop_last()) + s.last().w);
    }
}

proof fn lemma_sort_rects_width(rs: Seq<BgRectView>)
    ensures
        total_width(sort_rects(rs)) == total_width(rs),
    decreases rs.len(),
{
    if rs.len() > 0 {
        lemma_sort_rects_width(rs.drop_last());
        lemma_insert_rect_width(sort_rects(rs.drop_last()), rs.last());
    }
}

proof fn lemma_merge_rects_width(rs: Seq<BgRectView>)
    requires
        rects_in_range(rs),
    ensures
        total_width(merge_rects(rs)) == total_width(rs),
        rects_in_range(merge_rects(rs)),
    decreases rs.len(),
{
    if rs.len() > 0 {
        assert(rects_in_range(rs.drop_last())) by {
            assert forall|i: int| 0 <= i < rs.drop_last().len() implies rs.drop_last()[i].x + rs.drop_last()[i].w
                <= u32::MAX by {
                assert(rs.drop_last()[i] == rs[i]);
            }
        }
        lemma_merge_rects_width(rs.drop_last());
        let m = merge_rects(rs.drop_last());
        let r = rs.last();
        assert(r == rs[rs.len() - 1]);
        if m.len() > 0 && continues(m.last(), r) {
            assert(m.last() == m[m.len() - 1]);
            let nr = BgRectView { w: (m.last().w + r.w) as u32, ..m.last() };
            assert(m.last().w + r.w <= u32::MAX);
            lemma_total_width_update_last(m, nr);
            let m2 = m.update(m.len() - 1, nr);
            assert forall|i: int| 0 <= i < m2.len() implies m2[i].x + m2[i].w <= u32::MAX by {
                if i < m.len() - 1 {
                    assert(m2[i] == m[i]);
                }
            }
        } else {
            assert(m.push(r).drop_last() =~= m);
            assert forall|i: int| 0 <= i < m.push(r).len() implies m.push(r)[i].x + m.push(r)[i].w <= u32::MAX by {
                if i < m.len() {
                    assert(m.push(r)[i] == m[i]);
                }
            }
        }
    }
}

/// Merging the background rectangles covers exactly as many pixel
/// columns as before: the widths add up to the same total.
pub proof fn lemma_optimize_bg_rects_keeps_width(rs: Seq<BgRectView>)
    requires
        rects_in_range(rs),
    ensures
        total_width(merge_rects(sort_rects(rs))) == total_width(rs),
{
    lemma_sort_rects_width(rs);
    lemma_sort_rects_in_range(rs);
    lemma_merge_rects_width(sort_rects(rs));
}

/// Whether two rectangles paint alike: the same row, height, fill, times
/// and clip path (their columns aside).
pub open spec fn same_paint(a: BgRectView, b: BgRectView) -> bool {
    a.y == b.y && a.h == b.h && a.fill == b.fill && a.start_ms == b.start_ms && a.end_ms == b.end_ms
        && a.clip_path == b.clip_path
}

/// Whether some rectangle of `rs` paints pixel column `px` as `r` does.
pub open spec fn paints(rs: Seq<BgRectView>, r: BgRectView, px: int) -> bool {
    exists|j: int| 0 <= j < rs.len() && same_paint(#[trigger] rs[j], r) && rs[j].x <= px < rs[j].x + rs[j].w
}

proof fn lemma_insert_rect_elems(s: Seq<BgRectView>, x: BgRectView)
    ensures
        forall|i: int| 0 <= i < s.len() ==> insert_rect(s, x).contains(#[trigger] s[i]),
        insert_rect(s, x).contains(x),
        forall|k: int| 0 <= k < insert_rect(s, x).len() ==> #[trigger] insert_rect(s, x)[k] == x || s.contains(insert_rect(s, x)[k]),
    decreases s.len(),
{
    let out = insert_rect(s, x);
    if s.len() == 0 {
        assert(out[0] == x);
    } else if rect_order(x, s.last()) >= 0 {
        assert(out == s.push(x));
        assert forall|i: int| 0 <= i < s.len() implies out.contains(#[trigger] s[i]) by {
            assert(out[i] == s[i]);
        }
        assert(out[s.len() as int] == x);
        assert forall|k: int| 0 <= k < out.len() implies #[trigger] out[k] == x || s.contains(out[k]) by {
            if k < s.len() {
                assert(out[k] == s[k]);
            }
        }
    } else {
        let d = s.drop_last();
        lemma_insert_rect_elems(d, x);
        let m = insert_rect(d, x);
        assert(out == m.push(s.last()));
        assert forall|i: int| 0 <= i < s.len() implies out.contains(#[trigger] s[i]) by {
            if i < d.len() {
                assert(d[i] == s[i]);
                assert(m.contains(d[i]));
                let k = choose|k: int| 0 <= k < m.len() && m[k] == d[i];
                assert(out[k] == m[k]);
            } else {
                assert(out[m.len() as int] == s[i]);
            }
        }
        let k0 = choose|k: int| 0 <= k < m.len() && m[k] == x;
        assert(out[k0] == x);
        assert forall|k: int| 0 <= k < out.len() implies #[trigger] out[k] == x || s.contains(out[k]) by {
            if k < m.len() {
                assert(out[k] == m[k]);
                if m[k] != x {
                    assert(d.contains(m[k]));
                    let i = choose|i: int| 0 <= i < d.len() && d[i] == m[k];
                    assert(s[i] == d[i]);
                }
            } else {
                assert(out[k] == s[s.len() - 1]);
            }
        }
    }
}

/// Sorting keeps the rectangles: each input rectangle is in the sorted
/// list, and each sorted rectangle is an input one.
proof fn lemma_sort_rects_elems(rs: Seq<BgRectView>)
    ensures
        forall|i: int| 0 <= i < rs.len() ==> sort_rects(rs).contains(#[trigger] rs[i]),
        forall|k: int| 0 <= k < sort_rects(rs).len() ==> rs.contains(#[trigger] sort_rects(rs)[k]),
    decreases rs.len(),
{
    if rs.len() > 0 {
        let d = rs.drop_last();
        lemma_sort_rects_elems(d);
        let sd = sort_rects(d);
        let x = rs.last();
        lemma_insert_rect_elems(sd, x);
        let out = sort_rects(rs);
        assert(out == insert_rect(sd, x));
        assert forall|i: int| 0 <= i < rs.len() implies out.contains(#[trigger] rs[i]) by {
            if i < d.len() {
                assert(d[i] == rs[i]);
                assert(sd.contains(d[i]));
                let k = choose|k: int| 0 <= k < sd.len() && sd[k] == d[i];
                assert(out.contains(sd[k]));
            } else {
                assert(rs[i] == x);
            }
        }
        assert forall|k: int| 0 <= k < out.len() implies rs.contains(#[trigger] out[k]) by {
            if out[k] == x {
                assert(rs[rs.len() - 1] == x);
            } else {
                assert(sd.contains(out[k]));
                let j = choose|j: int| 0 <= j < sd.len() && sd[j] == out[k];
                assert(d.contains(sd[j]));
                let i = choose|i: int| 0 <= i < d.len() && d[i] == sd[j];
                assert(rs[i] == d[i]);
            }
        }
    }
}

proof fn lemma_merge_rects_paint(rs: Seq<BgRectView>)
    requires
        rects_in_range(rs),
    ensures
        forall|i: int, px: int| 0 <= i < rs.len() && rs[i].x <= px < rs[i].x + rs[i].w ==> #[trigger] paints(merge_rects(rs), rs[i], px),
        forall|j: int, px: int| 0 <= j < merge_rects(rs).len() && merge_rects(rs)[j].x <= px < merge_rects(rs)[j].x + merge_rects(rs)[j].w
            ==> #[trigger] paints(rs, merge_rects(rs)[j], px),
    decreases rs.len(),
{
    if rs.len() > 0 {
        let d = rs.drop_last();
        assert(rects_in_range(d)) by {
            assert forall|i: int| 0 <= i < d.len() implies d[i].x + d[i].w <= u32::MAX by {
                assert(d[i] == rs[i]);
            }
        }
        lemma_merge_rects_paint(d);
        lemma_merge_rects_width(d);
        let m = merge_rects(d);
        let r = rs.last();
        assert(r == rs[rs.len() - 1]);
        let out = merge_rects(rs);
        assert forall|i: int| 0 <= i < d.len() implies #[trigger] d[i] == rs[i] by {}
        if m.len() > 0 && continues(m.last(), r) {
            let l = m.len() - 1;
            assert(m.last() == m[l]);
            let nr = BgRectView { w: (m.last().w + r.w) as u32, ..m.last() };
            assert(m.last().w + r.w <= u32::MAX);
            assert(out == m.update(l, nr));
            assert forall|i: int, px: int| 0 <= i < rs.len() && rs[i].x <= px < rs[i].x + rs[i].w implies #[trigger] paints(out, rs[i], px) by {
                if i < d.len() {
                    assert(paints(m, d[i], px));
                    let j = choose|j: int| 0 <= j < m.len() && same_paint(#[trigger] m[j], d[i]) && m[j].x <= px < m[j].x + m[j].w;
                    if j < l {
                        assert(out[j] == m[j]);
                    } else {
                        assert(out[l] == nr);
                        assert(same_paint(out[l], rs[i]) && out[l].x <= px < out[l].x + out[l].w);
                    }
                } else {
                    assert(out[l] == nr);
                    assert(same_paint(out[l], rs[i]) && out[l].x <= px < out[l].x + out[l].w);
                }
            }
            assert forall|j: int, px: int| 0 <= j < out.len() && out[j].x <= px < out[j].x + out[j].w implies #[trigger] paints(rs, out[j], px) by {
                if j < l {
                    assert(out[j] == m[j]);
                    assert(paints(d, m[j], px));
                    let k = choose|k: int| 0 <= k < d.len() && same_paint(#[trigger] d[k], m[j]) && d[k].x <= px < d[k].x + d[k].w;
                    assert(rs[k] == d[k]);
                } else {
                    assert(out[j] == nr);
                    if px < m[l].x + m[l].w {
                        assert(paints(d, m[l], px));
                        let k = choose|k: int| 0 <= k < d.len() && same_paint(#[trigger] d[k], m[l]) && d[k].x <= px < d[k].x + d[k].w;
                        assert(rs[k] == d[k]);
                        assert(same_paint(rs[k], out[j]));
                    } else {
                        let k = rs.len() - 1;
                        assert(same_paint(rs[k], out[j]) && rs[k].x <= px < rs[k].x + rs[k].w);
                    }
                }
            }
        } else {
            assert(out == m.push(r));
            assert forall|i: int, px: int| 0 <= i < rs.len() && rs[i].x <= px < rs[i].x + rs[i].w implies #[trigger] paints(out, rs[i], px) by {
                if i < d.len() {
                    assert(paints(m, d[i], px));
                    let j = choose|j: int| 0 <= j < m.len() && same_paint(#[trigger] m[j], d[i]) && m[j].x <= px < m[j].x + m[j].w;
                    assert(out[j] == m[j]);
                } else {
                    assert(out[m.len() as int] == r);
                    assert(same_paint(out[m.len() as int], rs[i]));
                }
            }
            assert forall|j: int, px: int| 0 <= j < out.len() && out[j].x <= px < out[j].x + out[j].w implies #[trigger] paints(rs, out[j], px) by {
                if j < m.len() {
                    assert(out[j] == m[j]);
                    assert(paints(d, m[j], px));
                    let k = choose|k: int| 0 <= k < d.len() && same_paint(#[trigger] d[k], m[j]) && d[k].x <= px < d[k].x + d[k].w;
                    assert(rs[k] == d[k]);
                } else {
                    let k = rs.len() - 1;
                    assert(out[j] == r);
                    assert(same_paint(rs[k], out[j]) && rs[k].x <= px < rs[k].x + rs[k].w);
                }
            }
        }
    }
}

/// Merging the background rectangles keeps every pixel's paint: each
/// pixel column an input rectangle covers is covered by an output
/// rectangle with the same row, height, fill, times and clip path, and
/// each pixel column an output rectangle covers is covered so by an input
/// rectangle. Only rectangles that paint alike are merged.
pub proof fn lemma_optimize_bg_rects_keeps_paint(rs: Seq<BgRectView>)
    requires
        rects_in_range(rs),
    ensures
        forall|i: int, px: int| 0 <= i < rs.len() && rs[i].x <= px < rs[i].x + rs[i].w
            ==> #[trigger] paints(merge_rects(sort_rects(rs)), rs[i], px),
        forall|j: int, px: int| 0 <= j < merge_rects(sort_rects(rs)).len() && merge_rects(sort_rects(rs))[j].x <= px
            < merge_rects(sort_rects(rs))[j].x + merge_rects(sort_rects(rs))[j].w ==> #[trigger] paints(rs, merge_rects(sort_rects(rs))[j], px),
{
    let sr = sort_rects(rs);
    let out = merge_rects(sr);
    lemma_sort_rects_elems(rs);
    lemma_sort_rects_in_range(rs);
    lemma_merge_rects_paint(sr);
    assert forall|i: int, px: int| 0 <= i < rs.len() && rs[i].x <= px < rs[i].x + rs[i].w implies #[trigger] paints(out, rs[i], px) by {
        assert(sr.contains(rs[i]));
        let k = choose|k: int| 0 <= k < sr.len() && sr[k] == rs[i];
        assert(paints(out, sr[k], px));
    }
    assert forall|j: int, px: int| 0 <= j < out.len() && out[j].x <= px < out[j].x + out[j].w implies #[trigger] paints(rs, out[j], px) by {
        assert(paints(sr, out[j], px));
        let k = choose|k: int| 0 <= k < sr.len() && same_paint(#[trigger] sr[k], out[j]) && sr[k].x <= px < sr[k].x + sr[k].w;
        assert(rs.contains(sr[k]));
        let i = choose|i: int| 0 <= i < rs.len() && rs[i] == sr[k];
        assert(same_paint(rs[i], out[j]) && rs[i].x <= px < rs[i].x + rs[i].w);
    }
}

/// Sorts background rectangles (by row, height, fill, times, clip path,
/// column) and merges each run of horizontally adjacent ones that share
/// everything but their column into one wider rectangle.
pub fn optimize_bg_rects(bg_rects: &mut Vec<BgRect>)
    requires
        rects_in_range(rects_view(old(bg_rects)@)),
    ensures
        rects_view(final(bg_rects)@) == merge_rects(sort_rects(rects_view(old(bg_rects)@))),
{
    let mut input: Vec<BgRect> = Vec::new();
    std::mem::swap(&mut input, bg_rects);
    let ghost iv = rects_view(input@);
    let mut sorted: Vec<BgRect> = Vec::new();
    let mut i: usize = 0;
    assert(rects_view(sorted@) =~= Seq::<BgRectView>::empty());
    while i < input.len()
        invariant
            i <= input@.len(),
            iv == rects_view(input@),
            rects_view(sorted@) == sort_rects(iv.take(i as int)),
        decreases input@.len() - i,
    {
        assert(iv.take(i + 1).drop_last() =~= iv.take(i as int));
        assert(iv.take(i + 1).last() == input@[i as int]@);
        insert_rect_exec(&mut sorted, clone_rect(&input[i]));
        i += 1;
    }
    assert(iv.take(i as int) =~= iv);
    let ghost sv = rects_view(sorted@);
    proof {
        lemma_sort_rects_in_range(iv);
    }
    let mut merged: Vec<BgRect> = Vec::new();
    let mut k: usize = 0;
    assert(rects_view(merged@) =~= Seq::<BgRectView>::empty());
    while k < sorted.len()
        invariant
            k <= sorted@.len(),
            sv == rects_view(sorted@),
            rects_in_range(sv),
            rects_view(merged@) == merge_rects(sv.take(k as int)),
            merged@.len() > 0 ==> merged@.last().x + merged@.last().w <= u32::MAX,
            merged@.len() > 0 ==> k > 0 && merged@.last().x + merged@.last().w == sv[k - 1].x
                + sv[k - 1].w,
        decreases sorted@.len() - k,
    {
        assert(sv.take(k + 1).drop_last() =~= sv.take(k as int));
        assert(sv.take(k + 1).last() == sv[k as int]);
        let r = &sorted[k];
        assert(sv[k as int] == r@);
        let n = merged.len();
        let ghost before = rects_view(merged@);
        let joins = if n > 0 {
            let last = &merged[n - 1];
            assert(before.last() == last@);
            last.y == r.y && last.h == r.h && crate::recording::rgb_eq(last.fill, r.fill) && last.start_ms == r.start_ms
                && last.end_ms == r.end_ms && crate::recording::opt_string_eq(
                &last.clip_path,
                &r.clip_path,
            ) && last.x as u64 + last.w as u64 == r.x as u64
        } else {
            false
        };
        if joins {
            assert(r.x + r.w <= u32::MAX);
            let mut last = clone_rect(&merged[n - 1]);
            last.w = last.w + r.w;
            merged.set(n - 1, last);
            assert(rects_view(merged@) =~= before.update(
                n - 1,
                BgRectView { w: (before.last().w + r.w) as u32, ..before.last() },
            ));
        } else {
            merged.push(clone_rect(r));
            assert(rects_view(merged@) =~= before.push(r@));
        }
        k += 1;
    }
    assert(sv.take(k as int) =~= sv);
    *bg_rects = merged;
}

// ---------------------------------------------------------------------------
// Window bar
// ---------------------------------------------------------------------------

/// One of the window-control dots, filled or outlined.
#[derive(Debug, Clone, Copy, PartialEq, Eq)]
pub struct WindowBarCircle {
    pub cx: u32,
    pub cy: u32,
    pub r: u32,
    pub fill: Option<[u8; 3]>,
    pub stroke: Option<[u8; 3]>,
}

/// The SVG element of a dot: filled when it has a fill, else outlined
/// when it has a stroke, else nothing.
pub open spec fn circle_svg(c: WindowBarCircle) -> Seq<char> {
    let head = "<circle cx=\""@ + crate::decimal::nat_text(c.cx as nat) + "\" cy=\""@
        + crate::decimal::nat_text(c.cy as nat) + "\" r=\""@ + crate::decimal::nat_text(c.r as nat);
    match c.fill {
        Some(f) => head + "\" fill=\""@ + spec_rgb_hex(f) + "\"/>"@,
        None => match c.stroke {
            Some(s) => head + "\" fill=\"none\" stroke=\""@ + spec_rgb_hex(s) + "\" stroke-width=\"2\"/>"@,
            None => Seq::empty(),
        },
    }
}

impl WindowBarCircle {
    /// The SVG element of this dot.
    pub fn to_svg_string(&self) -> (r: String)
        ensures
            r@ == circle_svg(*self),
    {
        if self.fill.is_none() && self.stroke.is_none() {
            return String::new();
        }
        let mut s = "<circle cx=\"".to_owned();
        s.append(crate::decimal::u64_text(self.cx as u64).as_str());
        s.append("\" cy=\"");
        s.append(crate::decimal::u64_text(self.cy as u64).as_str());
        s.append("\" r=\"");
        s.append(crate::decimal::u64_text(self.r as u64).as_str());
        match self.fill {
            Some(f) => {
                s.append("\" fill=\"");
                s.append(rgb_hex(f).as_str());
                s.append("\"/>");
            },
            None => {
                match self.stroke {
                    Some(st) => {
                        s.append("\" fill=\"none\" stroke=\"");
                        s.append(rgb_hex(st).as_str());
                        s.append("\" stroke-width=\"2\"/>");
                    },
                    None => {},
                }
            },
        }
        s
    }
}


// ---------------------------------------------------------------------------
// Spans of cells and cursor over time
// ---------------------------------------------------------------------------

/// How a cell looks: its text, effective colours and flags.
pub open spec fn visual_of(c: CellView) -> CellView {
    let (fg, bg) = spec_effective_colors(c.fg, c.bg, c.flags);
    CellView { text: c.text, fg, bg, flags: c.flags }
}

/// Whether a look shows nothing: no text on the default background.
pub open spec fn is_blank_visual(v: CellView, default_bg: [u8; 3]) -> bool {
    v.text.len() == 0 && v.bg == default_bg
}

/// Whether a cell's look changed between frames; a cell showing the
/// default background changes when the default background does.
pub open spec fn look_changed(old: CellView, old_bg: [u8; 3], new: CellView, new_bg: [u8; 3]) -> bool {
    old != new || (old.bg == old_bg && new.bg == new_bg && old_bg != new_bg)
}

/// A time span during which a cell looked one way.
#[derive(Debug)]
pub struct CellSpan {
    pub row: u16,
    pub col: u16,
    pub start_ms: u32,
    pub end_ms: u32,
    pub visual: CellSnap,
    pub default_bg: [u8; 3],
}

pub struct CellSpanView {
    pub row: u16,
    pub col: u16,
    pub start_ms: u32,
    pub end_ms: u32,
    pub visual: CellView,
    pub default_bg: [u8; 3],
}

impl View for CellSpan {
    type V = CellSpanView;

    open spec fn view(&self) -> CellSpanView {
        CellSpanView {
            row: self.row,
            col: self.col,
            start_ms: self.start_ms,
            end_ms: self.end_ms,
            visual: self.visual@,
            default_bg: self.default_bg,
        }
    }
}

pub open spec fn spans_view(v: Seq<CellSpan>) -> Seq<CellSpanView> {
    v.map_values(|s: CellSpan| s@)
}

pub open spec fn frames_view(v: Seq<RawFrame>) -> Seq<RawFrameView> {
    v.map_values(|f: RawFrame| f@)
}

/// Look, start time and default background of each cell.
pub type CellState = (CellView, u32, [u8; 3]);

/// The span ending when cell `idx` of a `cols`-wide grid changes.
pub open spec fn span_at(idx: int, cols: nat, st: CellState, end_ms: u32) -> CellSpanView {
    CellSpanView {
        row: (idx / cols as int) as u16,
        col: (idx % cols as int) as u16,
        start_ms: st.1,
        end_ms,
        visual: st.0,
        default_bg: st.2,
    }
}

/// Cells `idx..n` of frame `f` compared with the current state: each
/// changed cell closes its span (unless it was blank) and starts anew.
pub open spec fn frame_cells_step(
    cur: Seq<CellState>,
    f: RawFrameView,
    cols: nat,
    idx: int,
    n: int,
    acc: Seq<CellSpanView>,
) -> (Seq<CellState>, Seq<CellSpanView>)
    decreases n - idx,
{
    if idx >= n || idx < 0 {
        (cur, acc)
    } else {
        let nv = visual_of(f.cells[idx]);
        let old = cur[idx];
        if look_changed(old.0, old.2, nv, f.default_bg) {
            let acc2 = if !is_blank_visual(old.0, old.2) {
                acc.push(span_at(idx, cols, old, f.t_ms))
            } else {
                acc
            };
            frame_cells_step(cur.update(idx, (nv, f.t_ms, f.default_bg)), f, cols, idx + 1, n, acc2)
        } else {
            frame_cells_step(cur, f, cols, idx + 1, n, acc)
        }
    }
}

/// The frames compared in turn.
pub open spec fn frames_step(
    cur: Seq<CellState>,
    frames: Seq<RawFrameView>,
    cols: nat,
    n: int,
    acc: Seq<CellSpanView>,
) -> (Seq<CellState>, Seq<CellSpanView>)
    decreases frames.len(),
{
    if frames.len() == 0 {
        (cur, acc)
    } else {
        let (c2, a2) = frame_cells_step(cur, frames[0], cols, 0, n, acc);
        frames_step(c2, frames.drop_first(), cols, n, a2)
    }
}

/// The spans still open at the end, each closed at `total_ms`.
pub open spec fn flush_spans(cur: Seq<CellState>, cols: nat, idx: int, n: int, total_ms: u32, acc: Seq<CellSpanView>) -> Seq<CellSpanView>
    decreases n - idx,
{
    if idx >= n || idx < 0 {
        acc
    } else {
        let st = cur[idx];
        let acc2 = if !is_blank_visual(st.0, st.2) {
            acc.push(span_at(idx, cols, st, total_ms))
        } else {
            acc
        };
        flush_spans(cur, cols, idx + 1, n, total_ms, acc2)
    }
}

/// Every span during which a cell of the first frame's grid shows
/// something, in the order they close; the last ones close at `total_ms`.
pub open spec fn spec_cell_spans(frames: Seq<RawFrameView>, total_ms: u32) -> Seq<CellSpanView> {
    let f0 = frames[0];
    let n = f0.cols * f0.rows;
    let cur0 = f0.cells.map_values(|c: CellView| (visual_of(c), f0.t_ms, f0.default_bg));
    let (cur, acc) = frames_step(cur0, frames.drop_first(), f0.cols as nat, n, Seq::empty());
    flush_spans(cur, f0.cols as nat, 0, n, total_ms, acc)
}

proof fn lemma_frame_cells_step_looks(cur: Seq<CellState>, f: RawFrameView, cols: nat, idx: int, n: int, acc: Seq<CellSpanView>)
    requires
        0 <= idx,
        n <= cur.len(),
        n <= f.cells.len(),
    ensures
        frame_cells_step(cur, f, cols, idx, n, acc).0.len() == cur.len(),
        forall|j: int| idx <= j < n ==> (#[trigger] frame_cells_step(cur, f, cols, idx, n, acc).0[j]).0 == visual_of(f.cells[j]),
        forall|j: int| 0 <= j < cur.len() && !(idx <= j < n) ==> #[trigger] frame_cells_step(cur, f, cols, idx, n, acc).0[j]
            == cur[j],
    decreases n - idx,
{
    if idx < n {
        let nv = visual_of(f.cells[idx]);
        let old = cur[idx];
        if look_changed(old.0, old.2, nv, f.default_bg) {
            let acc2 = if !is_blank_visual(old.0, old.2) { acc.push(span_at(idx, cols, old, f.t_ms)) } else { acc };
            lemma_frame_cells_step_looks(cur.update(idx, (nv, f.t_ms, f.default_bg)), f, cols, idx + 1, n, acc2);
        } else {
            lemma_frame_cells_step_looks(cur, f, cols, idx + 1, n, acc);
        }
    }
}

proof fn lemma_frame_cells_step_still(cur: Seq<CellState>, f: RawFrameView, cols: nat, idx: int, n: int, acc: Seq<CellSpanView>)
    requires
        0 <= idx,
        n <= cur.len(),
        n <= f.cells.len(),
        forall|j: int| idx <= j < n ==> !look_changed(cur[j].0, cur[j].2, visual_of(f.cells[j]), f.default_bg),
    ensures
        frame_cells_step(cur, f, cols, idx, n, acc) == (cur, acc),
    decreases n - idx,
{
    if idx < n {
        lemma_frame_cells_step_still(cur, f, cols, idx + 1, n, acc);
    }
}

proof fn lemma_frames_step_push(cur: Seq<CellState>, fs: Seq<RawFrameView>, f: RawFrameView, cols: nat, n: int, acc: Seq<CellSpanView>)
    ensures
        frames_step(cur, fs.push(f), cols, n, acc) == ({
            let (c, a) = frames_step(cur, fs, cols, n, acc);
            frame_cells_step(c, f, cols, 0, n, a)
        }),
    decreases fs.len(),
{
    if fs.len() > 0 {
        let (c2, a2) = frame_cells_step(cur, fs[0], cols, 0, n, acc);
        assert(fs.push(f).drop_first() =~= fs.drop_first().push(f));
        assert(fs.push(f)[0] == fs[0]);
        lemma_frames_step_push(c2, fs.drop_first(), f, cols, n, a2);
        assert(frames_step(cur, fs.push(f), cols, n, acc) == frames_step(c2, fs.push(f).drop_first(), cols, n, a2));
        assert(frames_step(cur, fs, cols, n, acc) == frames_step(c2, fs.drop_first(), cols, n, a2));
    } else {
        let (c2, a2) = frame_cells_step(cur, f, cols, 0, n, acc);
        assert(fs.push(f).drop_first() =~= Seq::<RawFrameView>::empty());
        assert(fs.push(f)[0] == f);
        assert(frames_step(cur, fs.push(f), cols, n, acc) == frames_step(c2, fs.push(f).drop_first(), cols, n, a2));
        assert(frames_step(c2, Seq::<RawFrameView>::empty(), cols, n, a2) == (c2, a2));
        assert(frames_step(cur, fs, cols, n, acc) == (cur, acc));
    }
}

proof fn lemma_frames_step_looks(cur: Seq<CellState>, last: RawFrameView, fs: Seq<RawFrameView>, cols: nat, n: int, acc: Seq<CellSpanView>)
    requires
        0 <= n <= cur.len(),
        n <= last.cells.len(),
        forall|i: int| 0 <= i < fs.len() ==> n <= (#[trigger] fs[i]).cells.len(),
        forall|j: int| 0 <= j < n ==> (#[trigger] cur[j]).0 == visual_of(last.cells[j]),
    ensures
        frames_step(cur, fs, cols, n, acc).0.len() == cur.len(),
        forall|j: int| 0 <= j < n ==> (#[trigger] frames_step(cur, fs, cols, n, acc).0[j]).0 == visual_of(
            (if fs.len() == 0 { last } else { fs.last() }).cells[j],
        ),
    decreases fs.len(),
{
    if fs.len() > 0 {
        let (c2, a2) = frame_cells_step(cur, fs[0], cols, 0, n, acc);
        lemma_frame_cells_step_looks(cur, fs[0], cols, 0, n, acc);
        assert forall|i: int| 0 <= i < fs.drop_first().len() implies n <= (#[trigger] fs.drop_first()[i]).cells.len() by {
            assert(fs.drop_first()[i] == fs[i + 1]);
        }
        assert forall|j: int| 0 <= j < n implies (#[trigger] c2[j]).0 == visual_of(fs[0].cells[j]) by {
            assert(frame_cells_step(cur, fs[0], cols, 0, n, acc).0[j].0 == visual_of(fs[0].cells[j]));
        }
        lemma_frames_step_looks(c2, fs[0], fs.drop_first(), cols, n, a2);
        if fs.drop_first().len() > 0 {
            assert(fs.drop_first().last() == fs.last());
        }
    }
}

/// A frame that repeats the last one, cell for cell and in its default
/// background, leaves every cell's spans as they were: the animation
/// only grows where something changed.
pub proof fn lemma_repeated_frame_adds_no_span(frames: Seq<RawFrameView>, f: RawFrameView, total_ms: u32)
    requires
        frames.len() > 0,
        forall|i: int| 0 <= i < frames.len() ==> (#[trigger] frames[i]).cells.len() >= frames[0].cols * frames[0].rows,
        f.cells == frames.last().cells,
        f.default_bg == frames.last().default_bg,
    ensures
        spec_cell_spans(frames.push(f), total_ms) == spec_cell_spans(frames, total_ms),
{
    let f0 = frames[0];
    let n = f0.cols * f0.rows;
    let cols = f0.cols as nat;
    let cur0 = f0.cells.map_values(|c: CellView| (visual_of(c), f0.t_ms, f0.default_bg));
    let rest = frames.drop_first();
    assert(frames.push(f)[0] == f0);
    assert(frames.push(f).drop_first() =~= rest.push(f));
    lemma_frames_step_push(cur0, rest, f, cols, n, Seq::empty());
    let (c, a) = frames_step(cur0, rest, cols, n, Seq::empty());
    assert forall|i: int| 0 <= i < rest.len() implies n <= (#[trigger] rest[i]).cells.len() by {
        assert(rest[i] == frames[i + 1]);
    }
    assert(frames[0].cells.len() >= n);
    assert forall|j: int| 0 <= j < n implies (#[trigger] cur0[j]).0 == visual_of(f0.cells[j]) by {}
    lemma_frames_step_looks(cur0, f0, rest, cols, n, Seq::empty());
    let last = if rest.len() == 0 { f0 } else { rest.last() };
    assert(last == frames.last()) by {
        if rest.len() > 0 {
            assert(rest.last() == frames[frames.len() - 1]);
        }
    }
    assert forall|j: int| 0 <= j < n implies !look_changed(c[j].0, c[j].2, visual_of(f.cells[j]), f.default_bg) by {
        assert(c[j].0 == visual_of(last.cells[j]));
    }
    lemma_frame_cells_step_still(c, f, cols, 0, n, a);
}

fn visual_exec(c: &CellSnap) -> (r: CellSnap)
    ensures
        r@ == visual_of(c@),
{
    let (fg, bg) = effective_colors(c);
    CellSnap { text: c.text.clone(), fg, bg, flags: c.flags }
}

pub open spec fn states_view(v: Seq<(CellSnap, u32, [u8; 3])>) -> Seq<CellState> {
    v.map_values(|s: (CellSnap, u32, [u8; 3])| (s.0@, s.1, s.2))
}

fn span_exec(idx: usize, cols: u16, st: &(CellSnap, u32, [u8; 3]), end_ms: u32) -> (r: CellSpan)
    requires
        cols > 0,
        (idx as int) / (cols as int) <= u16::MAX,
    ensures
        r@ == span_at(idx as int, cols as nat, (st.0@, st.1, st.2), end_ms),
        r.col < cols,
        r.row as int == (idx as int) / (cols as int),
{
    assert((idx as int) % (cols as int) < cols) by (nonlinear_arith)
        requires
            cols > 0,
    ;
    CellSpan {
        row: (idx / cols as usize) as u16,
        col: (idx % cols as usize) as u16,
        start_ms: st.1,
        end_ms,
        visual: st.0.clone_cell(),
        default_bg: st.2,
    }
}

/// When each cell of the grid shows what: the spans between the frames at
/// which its look changes. Every frame holds at least the first frame's
/// `cols * rows` cells.
pub fn cell_spans(frames: &[RawFrame], total_ms: u32) -> (r: Vec<CellSpan>)
    requires
        frames@.len() > 0,
        forall|i: int| 0 <= i < frames@.len() ==> frames@[i].cells@.len() >= frames@[0].cols * frames@[0].rows,
    ensures
        spans_view(r@) == spec_cell_spans(frames_view(frames@), total_ms),
        forall|i: int| 0 <= i < r@.len() ==> r@[i].col < frames@[0].cols && r@[i].row < frames@[0].rows,
{
    let ghost fv = frames_view(frames@);
    let f0 = &frames[0];
    let cols = f0.cols;
    let rows = f0.rows;
    assert(cols as int * rows as int <= 0xffff * 0xffff) by (nonlinear_arith)
        requires
            cols <= 0xffff,
            rows <= 0xffff,
    ;
    let n: usize = cols as usize * rows as usize;
    let mut cur: Vec<(CellSnap, u32, [u8; 3])> = Vec::new();
    let mut i: usize = 0;
    let ghost c0 = f0@.cells.map_values(|c: CellView| (visual_of(c), f0.t_ms, f0.default_bg));
    while i < f0.cells.len()
        invariant
            i <= f0.cells@.len(),
            c0 == f0@.cells.map_values(|c: CellView| (visual_of(c), f0.t_ms, f0.default_bg)),
            f0@.cells.len() == f0.cells@.len(),
            states_view(cur@) == c0.take(i as int),
        decreases f0.cells@.len() - i,
    {
        let ghost before = states_view(cur@);
        let v = visual_exec(&f0.cells[i]);
        cur.push((v, f0.t_ms, f0.default_bg));
        assert(f0@.cells[i as int] == f0.cells@[i as int]@);
        assert(c0[i as int] == (visual_of(f0@.cells[i as int]), f0.t_ms, f0.default_bg));
        assert(states_view(cur@) =~= before.push(c0[i as int]));
        assert(states_view(cur@) =~= c0.take(i + 1));
        i += 1;
    }
    assert(c0.take(i as int) =~= c0);
    assert(fv[0] == f0@);
    let mut acc: Vec<CellSpan> = Vec::new();
    let ghost rest = fv.drop_first();
    assert(spans_view(acc@) =~= Seq::<CellSpanView>::empty());
    let mut fi: usize = 1;
    assert(rest.skip(0) =~= rest);
    while fi < frames.len()
        invariant
            1 <= fi <= frames@.len(),
            fv == frames_view(frames@),
            rest == fv.drop_first(),
            cols == frames@[0].cols,
            n == cols * frames@[0].rows,
            forall|k: int| 0 <= k < frames@.len() ==> frames@[k].cells@.len() >= n,
            cur@.len() >= n,
            forall|k: int| 0 <= k < acc@.len() ==> acc@[k].col < cols && acc@[k].row < frames@[0].rows,
            frames_step(c0, rest, cols as nat, n as int, Seq::empty()) == frames_step(
                states_view(cur@),
                rest.skip(fi - 1),
                cols as nat,
                n as int,
                spans_view(acc@),
            ),
        decreases frames@.len() - fi,
    {
        let f = &frames[fi];
        assert(rest.skip(fi - 1)[0] == f@);
        assert(rest.skip(fi - 1).drop_first() =~= rest.skip(fi as int));
        let ghost cur_start = states_view(cur@);
        let ghost acc_start = spans_view(acc@);
        let mut idx: usize = 0;
        while idx < n
            invariant
                idx <= n,
                n <= f.cells@.len(),
                n <= cur@.len(),
                    n == cols * frames@[0].rows,
                frames@.len() > 0,
                forall|k: int| 0 <= k < acc@.len() ==> acc@[k].col < cols && acc@[k].row < frames@[0].rows,
                frame_cells_step(cur_start, f@, cols as nat, 0, n as int, acc_start)
                    == frame_cells_step(states_view(cur@), f@, cols as nat, idx as int, n as int, spans_view(acc@)),
            decreases n - idx,
        {
            let nv = visual_exec(&f.cells[idx]);
            assert(f@.cells[idx as int] == f.cells@[idx as int]@);
            let changed = {
                let old = &cur[idx];
                !old.0.same_as(&nv) || (crate::recording::rgb_eq(old.0.bg, old.2)
                    && crate::recording::rgb_eq(nv.bg, f.default_bg) && !crate::recording::rgb_eq(
                    old.2,
                    f.default_bg,
                ))
            };
            let ghost before_acc = spans_view(acc@);
            let ghost before_cur = states_view(cur@);
            assert(before_cur[idx as int] == (cur@[idx as int].0@, cur@[idx as int].1, cur@[idx as int].2));
            if changed {
                let old_blank = cur[idx].0.text.as_str().is_empty() && crate::recording::rgb_eq(cur[idx].0.bg, cur[idx].2);
                assert(old_blank == is_blank_visual(before_cur[idx as int].0, before_cur[idx as int].2));
                if !old_blank {
                    assert(cols > 0) by (nonlinear_arith)
                        requires
                            idx < (cols as int) * (frames@[0].rows as int),
                    ;
                    assert((idx as int) / (cols as int) < frames@[0].rows as int) by (nonlinear_arith)
                        requires
                            idx < (cols as int) * (frames@[0].rows as int),
                            cols > 0,
                    ;
                    let sp = span_exec(idx, cols, &cur[idx], f.t_ms);
                    acc.push(sp);
                    assert(spans_view(acc@) =~= before_acc.push(span_at(idx as int, cols as nat, before_cur[idx as int], f.t_ms)));
                }
                cur.set(idx, (nv, f.t_ms, f.default_bg));
                assert(states_view(cur@) =~= before_cur.update(idx as int, (visual_of(f@.cells[idx as int]), f.t_ms, f.default_bg)));
            }
            idx += 1;
        }
        fi += 1;
    }
    assert(rest.skip(fi - 1) =~= Seq::<RawFrameView>::empty());
    let mut idx: usize = 0;
    let ghost mid = states_view(cur@);
    let ghost acc_mid = spans_view(acc@);
    while idx < n
        invariant
            idx <= n,
            n <= cur@.len(),
            frames@.len() > 0,
            n == cols * frames@[0].rows,
            mid == states_view(cur@),
            forall|k: int| 0 <= k < acc@.len() ==> acc@[k].col < cols && acc@[k].row < frames@[0].rows,
            flush_spans(mid, cols as nat, 0, n as int, total_ms, acc_mid) == flush_spans(
                mid,
                cols as nat,
                idx as int,
                n as int,
                total_ms,
                spans_view(acc@),
            ),
        decreases n - idx,
    {
        let blank = cur[idx].0.text.as_str().is_empty() && crate::recording::rgb_eq(cur[idx].0.bg, cur[idx].2);
        assert(mid[idx as int] == (cur@[idx as int].0@, cur@[idx as int].1, cur@[idx as int].2));
        assert(blank == is_blank_visual(mid[idx as int].0, mid[idx as int].2));
        if !blank {
            assert(cols > 0) by (nonlinear_arith)
                requires
                    idx < (cols as int) * (frames@[0].rows as int),
            ;
            assert((idx as int) / (cols as int) < frames@[0].rows as int) by (nonlinear_arith)
                requires
                    idx < (cols as int) * (frames@[0].rows as int),
                    cols > 0,
            ;
            let ghost before_acc = spans_view(acc@);
            let sp = span_exec(idx, cols, &cur[idx], total_ms);
            acc.push(sp);
            assert(spans_view(acc@) =~= before_acc.push(span_at(idx as int, cols as nat, mid[idx as int], total_ms)));
        }
        idx += 1;
    }
    acc
}

// ---------------------------------------------------------------------------
// Cursor spans
// ---------------------------------------------------------------------------

/// A time span during which the cursor stays at one cell in one colour.
#[derive(Debug, Clone, Copy, PartialEq, Eq)]
pub struct CursorSpan {
    pub col: u16,
    pub row: u16,
    pub start_ms: u32,
    pub end_ms: u32,
    pub color: [u8; 3],
}

/// Where the cursor shows and since when: column, row, start and colour.
pub type OpenCursor = Option<(u16, u16, u32, [u8; 3])>;

/// The cursor colour of a frame: its own, else the default foreground.
pub open spec fn cursor_color_of(f: RawFrameView) -> [u8; 3] {
    match f.cursor_color {
        Some(c) => c,
        None => f.default_fg,
    }
}

/// One frame seen by the cursor tracker: a span closes when the cursor
/// moves, changes colour or hides.
pub open spec fn cursor_step(cur: OpenCursor, f: RawFrameView, acc: Seq<CursorSpan>) -> (OpenCursor, Seq<CursorSpan>) {
    let cc = cursor_color_of(f);
    match cur {
        None => match f.cursor {
            Some((cx, cy)) => (Some((cx, cy, f.t_ms, cc)), acc),
            None => (None, acc),
        },
        Some((ocx, ocy, start, color)) => {
            let closed = CursorSpan { col: ocx, row: ocy, start_ms: start, end_ms: f.t_ms, color };
            match f.cursor {
                Some((cx, cy)) => if ocx != cx || ocy != cy || color != cc {
                    (Some((cx, cy, f.t_ms, cc)), acc.push(closed))
                } else {
                    (cur, acc)
                },
                None => (None, acc.push(closed)),
            }
        },
    }
}

/// The cursor tracker after the given frames.
pub open spec fn cursor_fold(frames: Seq<RawFrameView>) -> (OpenCursor, Seq<CursorSpan>)
    decreases frames.len(),
{
    if frames.len() == 0 {
        (None, Seq::empty())
    } else {
        let (c, a) = cursor_fold(frames.drop_last());
        cursor_step(c, frames.last(), a)
    }
}

/// Every span during which the cursor shows at one place in one colour;
/// one still open at the end closes at `total_ms`.
pub open spec fn spec_cursor_spans(frames: Seq<RawFrameView>, total_ms: u32) -> Seq<CursorSpan> {
    let (c, a) = cursor_fold(frames);
    match c {
        Some((cx, cy, start, color)) => a.push(CursorSpan { col: cx, row: cy, start_ms: start, end_ms: total_ms, color }),
        None => a,
    }
}

/// When the cursor shows where, in which colour.
pub fn cursor_spans(frames: &[RawFrame], total_ms: u32) -> (r: Vec<CursorSpan>)
    ensures
        r@ == spec_cursor_spans(frames_view(frames@), total_ms),
{
    let ghost fv = frames_view(frames@);
    let mut spans: Vec<CursorSpan> = Vec::new();
    let mut cur: OpenCursor = None;
    let mut i: usize = 0;
    assert(fv.take(0) =~= Seq::<RawFrameView>::empty());
    while i < frames.len()
        invariant
            i <= frames@.len(),
            fv == frames_view(frames@),
            (cur, spans@) == cursor_fold(fv.take(i as int)),
        decreases frames@.len() - i,
    {
        let f = &frames[i];
        assert(fv.take(i + 1).drop_last() =~= fv.take(i as int));
        assert(fv.take(i + 1).last() == f@);
        let cc = match f.cursor_color {
            Some(c) => c,
            None => f.default_fg,
        };
        match cur {
            None => {
                match f.cursor {
                    Some((cx, cy)) => {
                        cur = Some((cx, cy, f.t_ms, cc));
                    },
                    None => {},
                }
            },
            Some((ocx, ocy, start, color)) => {
                let closed = CursorSpan { col: ocx, row: ocy, start_ms: start, end_ms: f.t_ms, color };
                match f.cursor {
                    Some((cx, cy)) => {
                        if ocx != cx || ocy != cy || !crate::recording::rgb_eq(color, cc) {
                            spans.push(closed);
                            cur = Some((cx, cy, f.t_ms, cc));
                        }
                    },
                    None => {
                        spans.push(closed);
                        cur = None;
                    },
                }
            },
        }
        i += 1;
    }
    assert(fv.take(i as int) =~= fv);
    match cur {
        Some((cx, cy, start, color)) => {
            spans.push(CursorSpan { col: cx, row: cy, start_ms: start, end_ms: total_ms, color });
        },
        None => {},
    }
    spans
}

// ---------------------------------------------------------------------------
// Rectangles placed on the grid
// ---------------------------------------------------------------------------

/// Where the grid sits on the canvas and how big a cell is, in pixels.
#[derive(Debug, Clone, Copy, PartialEq, Eq)]
pub struct CellGeometry {
    pub content_x: u32,
    pub content_y: u32,
    pub cell_w: u32,
    pub cell_h: u32,
}

/// Left edge of column `col`.
pub open spec fn cell_x(g: CellGeometry, col: u16) -> int {
    g.content_x + col * g.cell_w
}

/// Top edge of row `row`.
pub open spec fn cell_y(g: CellGeometry, row: u16) -> int {
    g.content_y + row * g.cell_h
}

/// Whether every cell of a `cols` by `rows` grid, right and bottom edges
/// included, has pixel coordinates that fit in a `u32`.
pub open spec fn grid_fits(g: CellGeometry, cols: u16, rows: u16) -> bool {
    &&& g.content_x + cols * g.cell_w <= u32::MAX
    &&& g.content_y + rows * g.cell_h <= u32::MAX
}

/// Whether a span leaves a coloured rectangle: it lasts, and its
/// background is not the default one.
pub open spec fn shows_bg(s: CellSpanView) -> bool {
    s.start_ms != s.end_ms && s.visual.bg != s.default_bg
}

/// The background rectangle of a span, clipped to the rounded frame when
/// `clip` holds.
pub open spec fn bg_rect_of(s: CellSpanView, g: CellGeometry, clip: bool) -> BgRectView {
    BgRectView {
        x: cell_x(g, s.col) as u32,
        y: cell_y(g, s.row) as u32,
        w: g.cell_w,
        h: g.cell_h,
        fill: s.visual.bg,
        start_ms: s.start_ms,
        end_ms: s.end_ms,
        clip_path: if clip { Some("url(#frame-clip)"@) } else { None },
    }
}

/// The background rectangles of the spans that show a background, in order.
pub open spec fn spec_bg_rects(spans: Seq<CellSpanView>, g: CellGeometry, clip: bool) -> Seq<BgRectView>
    decreases spans.len(),
{
    if spans.len() == 0 {
        Seq::empty()
    } else {
        let prev = spec_bg_rects(spans.drop_last(), g, clip);
        if shows_bg(spans.last()) {
            prev.push(bg_rect_of(spans.last(), g, clip))
        } else {
            prev
        }
    }
}

/// Each rectangle lies inside the grid.
proof fn lemma_bg_rects_in_range(spans: Seq<CellSpanView>, g: CellGeometry, clip: bool, cols: u16, rows: u16)
    requires
        grid_fits(g, cols, rows),
        forall|i: int| 0 <= i < spans.len() ==> spans[i].col < cols && spans[i].row < rows,
    ensures
        rects_in_range(spec_bg_rects(spans, g, clip)),
    decreases spans.len(),
{
    if spans.len() > 0 {
        assert forall|i: int| 0 <= i < spans.drop_last().len() implies spans.drop_last()[i].col < cols
            && spans.drop_last()[i].row < rows by {
            assert(spans.drop_last()[i] == spans[i]);
        }
        lemma_bg_rects_in_range(spans.drop_last(), g, clip, cols, rows);
        let s = spans.last();
        assert(s == spans[spans.len() - 1]);
        assert(s.col * g.cell_w + g.cell_w <= cols * g.cell_w) by (nonlinear_arith)
            requires
                s.col + 1 <= cols,
        ;
        let prev = spec_bg_rects(spans.drop_last(), g, clip);
        if shows_bg(s) {
            let r = bg_rect_of(s, g, clip);
            assert(r.x + r.w <= u32::MAX);
            assert forall|i: int| 0 <= i < prev.push(r).len() implies prev.push(r)[i].x + prev.push(r)[i].w
                <= u32::MAX by {
                if i < prev.len() {
                    assert(prev.push(r)[i] == prev[i]);
                }
            }
        }
    }
}

/// The background rectangles of the spans that show a background, one
/// cell each, in span order; clipped to the rounded frame when `clip`.
pub fn bg_rects_from_spans(spans: &Vec<CellSpan>, g: CellGeometry, clip: bool, cols: u16, rows: u16) -> (r: Vec<BgRect>)
    requires
        grid_fits(g, cols, rows),
        forall|i: int| 0 <= i < spans@.len() ==> spans@[i].col < cols && spans@[i].row < rows,
    ensures
        rects_view(r@) == spec_bg_rects(spans_view(spans@), g, clip),
        rects_in_range(rects_view(r@)),
{
    let ghost sv = spans_view(spans@);
    let mut out: Vec<BgRect> = Vec::new();
    let mut i: usize = 0;
    assert(sv.take(0) =~= Seq::<CellSpanView>::empty());
    assert(rects_view(out@) =~= Seq::<BgRectView>::empty());
    while i < spans.len()
        invariant
            i <= spans@.len(),
            sv == spans_view(spans@),
            grid_fits(g, cols, rows),
            forall|k: int| 0 <= k < spans@.len() ==> spans@[k].col < cols && spans@[k].row < rows,
            rects_view(out@) == spec_bg_rects(sv.take(i as int), g, clip),
        decreases spans@.len() - i,
    {
        let sp = &spans[i];
        assert(sv.take(i + 1).drop_last() =~= sv.take(i as int));
        assert(sv.take(i + 1).last() == sp@);
        if sp.start_ms != sp.end_ms && !crate::recording::rgb_eq(sp.visual.bg, sp.default_bg) {
            assert(sp.col * g.cell_w <= cols * g.cell_w) by (nonlinear_arith)
                requires
                    sp.col < cols,
            ;
            assert(sp.row * g.cell_h <= rows * g.cell_h) by (nonlinear_arith)
                requires
                    sp.row < rows,
            ;
            let x = g.content_x + sp.col as u32 * g.cell_w;
            let y = g.content_y + sp.row as u32 * g.cell_h;
            let clip_path = if clip {
                Some("url(#frame-clip)".to_owned())
            } else {
                None
            };
            let ghost before = rects_view(out@);
            out.push(BgRect {
                x,
                y,
                w: g.cell_w,
                h: g.cell_h,
                fill: sp.visual.bg,
                start_ms: sp.start_ms,
                end_ms: sp.end_ms,
                clip_path,
            });
            assert(rects_view(out@) =~= before.push(bg_rect_of(sp@, g, clip)));
        }
        i += 1;
    }
    assert(sv.take(i as int) =~= sv);
    proof {
        lemma_bg_rects_in_range(sv, g, clip, cols, rows);
    }
    out
}

/// The cursor's block, drawn translucent over its cell.
#[derive(Debug, Clone, Copy, PartialEq, Eq)]
pub struct CursorRect {
    pub x: u32,
    pub y: u32,
    pub w: u32,
    pub h: u32,
    pub fill: [u8; 3],
    pub start_ms: u32,
    pub end_ms: u32,
}

/// The block of a cursor span.
pub open spec fn cursor_rect_of(s: CursorSpan, g: CellGeometry) -> CursorRect {
    CursorRect {
        x: cell_x(g, s.col) as u32,
        y: cell_y(g, s.row) as u32,
        w: g.cell_w,
        h: g.cell_h,
        fill: s.color,
        start_ms: s.start_ms,
        end_ms: s.end_ms,
    }
}

/// The blocks of the cursor spans that last, in order.
pub open spec fn spec_cursor_rects(spans: Seq<CursorSpan>, g: CellGeometry) -> Seq<CursorRect>
    decreases spans.len(),
{
    if spans.len() == 0 {
        Seq::empty()
    } else {
        let prev = spec_cursor_rects(spans.drop_last(), g);
        if spans.last().start_ms != spans.last().end_ms {
            prev.push(cursor_rect_of(spans.last(), g))
        } else {
            prev
        }
    }
}

/// Whether every cursor position has pixel coordinates that fit.
pub open spec fn cursor_spans_fit(spans: Seq<CursorSpan>, g: CellGeometry) -> bool {
    forall|i: int| 0 <= i < spans.len() ==> cell_x(g, #[trigger] spans[i].col) <= u32::MAX && cell_y(g, spans[i].row) <= u32::MAX
}

/// The cursor blocks of the spans that last, in order.
pub fn cursor_rects_from_spans(spans: &Vec<CursorSpan>, g: CellGeometry) -> (r: Vec<CursorRect>)
    requires
        cursor_spans_fit(spans@, g),
    ensures
        r@ == spec_cursor_rects(spans@, g),
{
    let mut out: Vec<CursorRect> = Vec::new();
    let mut i: usize = 0;
    assert(spans@.take(0) =~= Seq::<CursorSpan>::empty());
    while i < spans.len()
        invariant
            i <= spans@.len(),
            cursor_spans_fit(spans@, g),
            out@ == spec_cursor_rects(spans@.take(i as int), g),
        decreases spans@.len() - i,
    {
        let sp = spans[i];
        assert(spans@.take(i + 1).drop_last() =~= spans@.take(i as int));
        assert(spans@.take(i + 1).last() == sp);
        if sp.start_ms != sp.end_ms {
            assert(cell_x(g, spans@[i as int].col) <= u32::MAX);
            let x = g.content_x + sp.col as u32 * g.cell_w;
            let y = g.content_y + sp.row as u32 * g.cell_h;
            out.push(CursorRect { x, y, w: g.cell_w, h: g.cell_h, fill: sp.color, start_ms: sp.start_ms, end_ms: sp.end_ms });
        }
        i += 1;
    }
    assert(spans@.take(i as int) =~= spans@);
    out
}

// ---------------------------------------------------------------------------
// Window bar, clip and timing
// ---------------------------------------------------------------------------

/// Radius of a window-control dot on a bar `bar_h` pixels high.
pub open spec fn dot_radius(bar_h: u32) -> int {
    if bar_h / 5 >= 5 { (bar_h / 5) as int } else { 5 }
}

/// Gap between window-control dots.
pub open spec fn dot_gap(bar_h: u32) -> int {
    if dot_radius(bar_h) >= 6 { dot_radius(bar_h) } else { 6 }
}

/// Width of the three dots and the two gaps between them.
pub open spec fn dots_width(bar_h: u32) -> int {
    dot_radius(bar_h) * 6 + dot_gap(bar_h) * 2
}

/// Left edge of the first dot: one gap in from the frame's left edge, or
/// as far right as leaves one gap on the right.
pub open spec fn dots_start_x(style: WindowBarStyle, bar_h: u32, frame_x: u32, frame_w: u32) -> int {
    if style is ColorfulRight || style is RingsRight {
        frame_x + crate::render_common::sat_sub(frame_w as int, dots_width(bar_h) + dot_gap(bar_h))
    } else {
        frame_x + dot_gap(bar_h)
    }
}

/// Red, yellow, green.
pub open spec fn dot_color(i: int) -> [u8; 3] {
    if i == 0 {
        [255u8, 95u8, 86u8]
    } else if i == 1 {
        [255u8, 189u8, 46u8]
    } else {
        [39u8, 201u8, 63u8]
    }
}

/// The `i`-th window-control dot.
pub open spec fn window_dot(style: WindowBarStyle, bar_h: u32, frame_x: u32, frame_y: u32, frame_w: u32, i: int) -> WindowBarCircle {
    let r = dot_radius(bar_h);
    let cx = dots_start_x(style, bar_h, frame_x, frame_w) + i * (r * 2 + dot_gap(bar_h)) + r;
    let outlined = style is Rings || style is RingsRight;
    WindowBarCircle {
        cx: cx as u32,
        cy: (frame_y + bar_h / 2) as u32,
        r: r as u32,
        fill: if outlined { None } else { Some(dot_color(i)) },
        stroke: if outlined { Some(dot_color(i)) } else { None },
    }
}

/// The three window-control dots, none without a window bar.
pub open spec fn spec_window_bar_circles(style: WindowBarStyle, bar_h: u32, frame_x: u32, frame_y: u32, frame_w: u32) -> Seq<WindowBarCircle> {
    if style is NoBar {
        Seq::empty()
    } else {
        Seq::new(3, |i: int| window_dot(style, bar_h, frame_x, frame_y, frame_w, i))
    }
}

/// Whether the dots' pixel arithmetic stays within `u32`.
pub open spec fn window_bar_fits(style: WindowBarStyle, bar_h: u32, frame_x: u32, frame_y: u32, frame_w: u32) -> bool {
    style is NoBar || {
        &&& dots_width(bar_h) + dot_gap(bar_h) <= u32::MAX
        &&& dots_start_x(style, bar_h, frame_x, frame_w) + 2 * (dot_radius(bar_h) * 2 + dot_gap(bar_h)) + dot_radius(bar_h) <= u32::MAX
        &&& frame_y + bar_h / 2 <= u32::MAX
    }
}

fn dot_color_exec(i: u32) -> (r: [u8; 3])
    ensures
        r == dot_color(i as int),
{
    if i == 0 {
        [255u8, 95u8, 86u8]
    } else if i == 1 {
        [255u8, 189u8, 46u8]
    } else {
        [39u8, 201u8, 63u8]
    }
}

/// The window-control dots of a frame whose bar has the given style and
/// height.
pub fn window_bar_circles(style: WindowBarStyle, bar_h: u32, frame_x: u32, frame_y: u32, frame_w: u32) -> (r: Vec<WindowBarCircle>)
    requires
        window_bar_fits(style, bar_h, frame_x, frame_y, frame_w),
    ensures
        r@ == spec_window_bar_circles(style, bar_h, frame_x, frame_y, frame_w),
{
    let mut out: Vec<WindowBarCircle> = Vec::new();
    if !style.enabled() {
        assert(out@ =~= spec_window_bar_circles(style, bar_h, frame_x, frame_y, frame_w));
        return out;
    }
    let (radius, gap) = crate::style::window_bar_dot_metrics(bar_h);
    assert(radius == dot_radius(bar_h) && gap == dot_gap(bar_h));
    let dots_w = radius * 2 * 3 + gap * 2;
    let start_x = if style.align_right() {
        frame_x + frame_w.saturating_sub(dots_w + gap)
    } else {
        frame_x + gap
    };
    assert(start_x == dots_start_x(style, bar_h, frame_x, frame_w));
    let cy = frame_y + bar_h / 2;
    let outlined = style.outlined();
    let mut idx: u32 = 0;
    while idx < 3
        invariant
            idx <= 3,
            window_bar_fits(style, bar_h, frame_x, frame_y, frame_w),
            !(style is NoBar),
            radius == dot_radius(bar_h),
            gap == dot_gap(bar_h),
            start_x == dots_start_x(style, bar_h, frame_x, frame_w),
            cy == frame_y + bar_h / 2,
            outlined == (style is Rings || style is RingsRight),
            out@.len() == idx,
            forall|k: int| 0 <= k < idx ==> out@[k] == window_dot(style, bar_h, frame_x, frame_y, frame_w, k),
        decreases 3 - idx,
    {
        assert(idx * (radius * 2 + gap) <= 2 * (radius * 2 + gap)) by (nonlinear_arith)
            requires
                idx <= 2,
        ;
        let cx = start_x + idx * (radius * 2 + gap) + radius;
        let color = dot_color_exec(idx);
        let c = if outlined {
            WindowBarCircle { cx, cy, r: radius, fill: None, stroke: Some(color) }
        } else {
            WindowBarCircle { cx, cy, r: radius, fill: Some(color), stroke: None }
        };
        out.push(c);
        idx += 1;
    }
    assert(out@ =~= spec_window_bar_circles(style, bar_h, frame_x, frame_y, frame_w));
    out
}

/// The clip rectangle of a rounded frame: position, size and a corner
/// radius no more than half the frame's width or height; none for square
/// corners.
pub open spec fn spec_frame_clip(x: u32, y: u32, w: u32, h: u32, radius: u32) -> Option<(u32, u32, u32, u32, u32)> {
    if radius > 0 {
        Some((x, y, w, h, clip_radius(radius, w, h)))
    } else {
        None
    }
}

/// A corner radius cut down to half the frame's width and height.
pub open spec fn clip_radius(radius: u32, w: u32, h: u32) -> u32 {
    let r1 = if radius <= w / 2 { radius } else { (w / 2) as u32 };
    if r1 <= h / 2 { r1 } else { (h / 2) as u32 }
}

/// The clip rectangle of a frame with the given corner radius.
pub fn frame_clip(x: u32, y: u32, w: u32, h: u32, radius: u32) -> (r: Option<(u32, u32, u32, u32, u32)>)
    ensures
        r == spec_frame_clip(x, y, w, h, radius),
{
    if radius > 0 {
        let r1 = if radius <= w / 2 { radius } else { w / 2 };
        let r2 = if r1 <= h / 2 { r1 } else { h / 2 };
        Some((x, y, w, h, r2))
    } else {
        None
    }
}

/// Milliseconds a frame lasts at the given frame rate (33 at rate 0).
pub open spec fn frame_ms_of(framerate: u32) -> int {
    if framerate > 0 { 1000int / (framerate as int) } else { 33 }
}

/// Length of the animation: the last frame's time plus one frame, at
/// least one millisecond.
pub open spec fn spec_total_ms(last_t_ms: u32, framerate: u32) -> int {
    let t = last_t_ms + frame_ms_of(framerate);
    if t >= 1 { t } else { 1 }
}

/// Whether a shape shown from `start_ms` to `end_ms` is there for the whole
/// animation of `total_ms`, and so needs no animation of its own.
pub fn is_static(start_ms: u32, end_ms: u32, total_ms: u32) -> (r: bool)
    ensures
        r == (start_ms == 0 && end_ms >= total_ms),
{
    start_ms == 0 && end_ms >= total_ms
}

/// Length of the animation whose last frame starts at `last_t_ms`.
pub fn animation_total_ms(last_t_ms: u32, framerate: u32) -> (r: u32)
    requires
        last_t_ms + frame_ms_of(framerate) <= u32::MAX,
    ensures
        r == spec_total_ms(last_t_ms, framerate),
{
    let frame_ms: u32 = if framerate > 0 { 1000 / framerate } else { 33 };
    let t = last_t_ms + frame_ms;
    if t >= 1 { t } else { 1 }
}

// ---------------------------------------------------------------------------
// The shapes of a whole recording
// ---------------------------------------------------------------------------

/// Everything of an SVG animation that needs no font: its length, the
/// background and cursor rectangles, the window-control dots and the clip
/// of a rounded frame.
pub struct SvgShapes {
    pub total_ms: u32,
    pub cell_spans: Vec<CellSpan>,
    pub bg_rects: Vec<BgRect>,
    pub cursor_rects: Vec<CursorRect>,
    pub window_bar_circles: Vec<WindowBarCircle>,
    pub frame_clip: Option<(u32, u32, u32, u32, u32)>,
}

/// The grid placement of a viewport; a cell is at least one pixel each way.
pub open spec fn geometry_of(cfg: ViewportConfig) -> CellGeometry {
    CellGeometry {
        content_x: cfg.content_x,
        content_y: cfg.content_y,
        cell_w: if cfg.cell_width_px >= 1 { cfg.cell_width_px } else { 1 },
        cell_h: if cfg.cell_height_px >= 1 { cfg.cell_height_px } else { 1 },
    }
}

/// Whether every cursor position of the frames has pixel coordinates that
/// fit in a `u32`.
pub open spec fn frames_cursor_fit(frames: Seq<RawFrameView>, g: CellGeometry) -> bool {
    forall|i: int| 0 <= i < frames.len() ==> match #[trigger] frames[i].cursor {
        Some((cx, cy)) => cell_x(g, cx) <= u32::MAX && cell_y(g, cy) <= u32::MAX,
        None => true,
    }
}

proof fn lemma_cursor_fold_fits(frames: Seq<RawFrameView>, g: CellGeometry)
    requires
        frames_cursor_fit(frames, g),
    ensures
        cursor_spans_fit(cursor_fold(frames).1, g),
        match cursor_fold(frames).0 {
            Some((cx, cy, _, _)) => cell_x(g, cx) <= u32::MAX && cell_y(g, cy) <= u32::MAX,
            None => true,
        },
    decreases frames.len(),
{
    if frames.len() > 0 {
        let init = frames.drop_last();
        assert forall|i: int| 0 <= i < init.len() implies match #[trigger] init[i].cursor {
            Some((cx, cy)) => cell_x(g, cx) <= u32::MAX && cell_y(g, cy) <= u32::MAX,
            None => true,
        } by {
            assert(init[i] == frames[i]);
        }
        lemma_cursor_fold_fits(init, g);
        let f = frames.last();
        assert(f == frames[frames.len() - 1]);
        let (c, a) = cursor_fold(init);
        let (c2, a2) = cursor_step(c, f, a);
        assert forall|i: int| 0 <= i < a2.len() implies cell_x(g, #[trigger] a2[i].col) <= u32::MAX && cell_y(g, a2[i].row)
            <= u32::MAX by {
            if i < a.len() {
                assert(a2[i] == a[i]);
            }
        }
    }
}

/// The shapes of an animation of the given frames in the given viewport:
/// the cell spans, their background rectangles (sorted and merged), the
/// cursor blocks, the window-control dots and the frame clip.
pub fn svg_shapes(frames: &[RawFrame], cfg: &ViewportConfig) -> (r: SvgShapes)
    requires
        frames@.len() > 0,
        forall|i: int| 0 <= i < frames@.len() ==> frames@[i].cells@.len() >= frames@[0].cols * frames@[0].rows,
        frames@.last().t_ms + frame_ms_of(cfg.framerate) <= u32::MAX,
        grid_fits(geometry_of(*cfg), frames@[0].cols, frames@[0].rows),
        frames_cursor_fit(frames_view(frames@), geometry_of(*cfg)),
        window_bar_fits(cfg.frame_style.window_bar, cfg.bar_h, cfg.frame_x, cfg.frame_y, cfg.frame_w),
    ensures
        r.total_ms == spec_total_ms(frames@.last().t_ms, cfg.framerate),
        spans_view(r.cell_spans@) == spec_cell_spans(frames_view(frames@), r.total_ms),
        rects_view(r.bg_rects@) == merge_rects(
            sort_rects(
                spec_bg_rects(
                    spec_cell_spans(frames_view(frames@), r.total_ms),
                    geometry_of(*cfg),
                    cfg.frame_style.border_radius_px > 0,
                ),
            ),
        ),
        r.cursor_rects@ == spec_cursor_rects(spec_cursor_spans(frames_view(frames@), r.total_ms), geometry_of(*cfg)),
        r.window_bar_circles@ == spec_window_bar_circles(
            cfg.frame_style.window_bar,
            cfg.bar_h,
            cfg.frame_x,
            cfg.frame_y,
            cfg.frame_w,
        ),
        r.frame_clip == spec_frame_clip(cfg.frame_x, cfg.frame_y, cfg.frame_w, cfg.frame_h, cfg.frame_style.border_radius_px),
{
    let last_t = frames[frames.len() - 1].t_ms;
    let total_ms = animation_total_ms(last_t, cfg.framerate);
    let g = CellGeometry {
        content_x: cfg.content_x,
        content_y: cfg.content_y,
        cell_w: if cfg.cell_width_px >= 1 { cfg.cell_width_px } else { 1 },
        cell_h: if cfg.cell_height_px >= 1 { cfg.cell_height_px } else { 1 },
    };
    let clip = cfg.frame_style.border_radius_px > 0;
    let spans = cell_spans(frames, total_ms);
    let mut bg = bg_rects_from_spans(&spans, g, clip, frames[0].cols, frames[0].rows);
    optimize_bg_rects(&mut bg);
    let cspans = cursor_spans(frames, total_ms);
    proof {
        lemma_cursor_fold_fits(frames_view(frames@), g);
        let (c, a) = cursor_fold(frames_view(frames@));
        let sp = spec_cursor_spans(frames_view(frames@), total_ms);
        assert forall|i: int| 0 <= i < sp.len() implies cell_x(g, #[trigger] sp[i].col) <= u32::MAX && cell_y(g, sp[i].row)
            <= u32::MAX by {
            if i < a.len() {
                assert(sp[i] == a[i]);
            }
        }
    }
    let cursor_rects = cursor_rects_from_spans(&cspans, g);
    let circles = window_bar_circles(cfg.frame_style.window_bar, cfg.bar_h, cfg.frame_x, cfg.frame_y, cfg.frame_w);
    let clip_rect = frame_clip(cfg.frame_x, cfg.frame_y, cfg.frame_w, cfg.frame_h, cfg.frame_style.border_radius_px);
    SvgShapes {
        total_ms,
        cell_spans: spans,
        bg_rects: bg,
        cursor_rects,
        window_bar_circles: circles,
        frame_clip: clip_rect,
    }
}

// ---------------------------------------------------------------------------
// Colour classes
// ---------------------------------------------------------------------------

/// A colour's place in the order of `[u8; 3]`: red, then green, then blue.
pub open spec fn rgb_key(c: [u8; 3]) -> int {
    c[0] * 65536 + c[1] * 256 + c[2]
}

/// How often `c` occurs in `s`.
pub open spec fn color_count(s: Seq<[u8; 3]>, c: [u8; 3]) -> nat
    decreases s.len(),
{
    if s.len() == 0 {
        0
    } else {
        color_count(s.drop_last(), c) + if s.last() == c { 1nat } else { 0nat }
    }
}

/// Colours used at least five times get a CSS class of their own.
pub open spec fn has_class(s: Seq<[u8; 3]>, c: [u8; 3]) -> bool {
    color_count(s, c) >= 5
}

proof fn lemma_rgb_key_injective(a: [u8; 3], b: [u8; 3])
    requires
        rgb_key(a) == rgb_key(b),
    ensures
        a == b,
{
    broadcast use vstd::array::group_array_axioms;

    assert(a[0] == b[0] && a[1] == b[1] && a[2] == b[2]) by (nonlinear_arith)
        requires
            a[0] * 65536 + a[1] * 256 + a[2] == b[0] * 65536 + b[1] * 256 + b[2],
            0 <= a[0] < 256,
            0 <= a[1] < 256,
            0 <= a[2] < 256,
            0 <= b[0] < 256,
            0 <= b[1] < 256,
            0 <= b[2] < 256,
    ;
    assert(a =~= b);
}

proof fn lemma_count_bound(s: Seq<[u8; 3]>, c: [u8; 3])
    ensures
        color_count(s, c) <= s.len(),
    decreases s.len(),
{
    if s.len() > 0 {
        lemma_count_bound(s.drop_last(), c);
    }
}

proof fn lemma_count_positive(s: Seq<[u8; 3]>, i: int)
    requires
        0 <= i < s.len(),
    ensures
        color_count(s, s[i]) > 0,
    decreases s.len(),
{
    if i < s.len() - 1 {
        assert(s.drop_last()[i] == s[i]);
        lemma_count_positive(s.drop_last(), i);
    }
}

proof fn lemma_count_present(s: Seq<[u8; 3]>, c: [u8; 3])
    requires
        color_count(s, c) > 0,
    ensures
        s.contains(c),
    decreases s.len(),
{
    if s.last() != c {
        lemma_count_present(s.drop_last(), c);
        let j = choose|j: int| 0 <= j < s.drop_last().len() && s.drop_last()[j] == c;
        assert(s[j] == c);
    } else {
        assert(s[s.len() - 1] == c);
    }
}

fn rgb_key_exec(c: [u8; 3]) -> (r: u32)
    ensures
        r == rgb_key(c),
{
    c[0] as u32 * 65536 + c[1] as u32 * 256 + c[2] as u32
}

/// Each distinct colour of `colors` with how often it occurs.
fn tally_colors(colors: &Vec<[u8; 3]>) -> (r: Vec<([u8; 3], usize)>)
    ensures
        forall|i: int| 0 <= i < r@.len() ==> r@[i].1 == color_count(colors@, #[trigger] r@[i].0),
        forall|c: [u8; 3]| colors@.contains(c) ==> exists|i: int| 0 <= i < r@.len() && #[trigger] r@[i].0 == c,
{
    let mut out: Vec<([u8; 3], usize)> = Vec::new();
    let mut i: usize = 0;
    while i < colors.len()
        invariant
            i <= colors@.len(),
            forall|k: int| 0 <= k < out@.len() ==> out@[k].1 == color_count(colors@.take(i as int), #[trigger] out@[k].0),
            forall|k1: int, k2: int| 0 <= k1 < k2 < out@.len() ==> out@[k1].0 != out@[k2].0,
            forall|j: int| #![trigger colors@[j]] 0 <= j < i ==> exists|k: int| 0 <= k < out@.len() && #[trigger] out@[k].0 == colors@[j],
        decreases colors@.len() - i,
    {
        let c = colors[i];
        let ghost pre = colors@.take(i as int);
        assert(colors@.take(i + 1).drop_last() =~= pre);
        assert(colors@.take(i + 1).last() == c);
        proof {
            lemma_count_bound(pre, c);
        }
        let mut j: usize = 0;
        let mut found = false;
        while j < out.len() && !found
            invariant
                j <= out@.len(),
                found ==> j < out@.len() && out@[j as int].0 == c,
                !found ==> forall|k: int| 0 <= k < j ==> out@[k].0 != c,
            decreases out@.len() - j + (if found { 0int } else { 1int }),
        {
            if crate::recording::rgb_eq(out[j].0, c) {
                found = true;
            } else {
                j += 1;
            }
        }
        let ghost before = out@;
        if found {
            assert(out@[j as int].0 == c);
            assert(out@[j as int].1 == color_count(pre, c));
            let cnt = out[j].1 + 1;
            out.set(j, (c, cnt));
        } else {
            assert(color_count(pre, c) == 0) by {
                if color_count(pre, c) > 0 {
                    lemma_count_present(pre, c);
                    let jj = choose|jj: int| 0 <= jj < pre.len() && pre[jj] == c;
                    assert(pre[jj] == colors@[jj]);
                    let k = choose|k: int| 0 <= k < before.len() && #[trigger] before[k].0 == colors@[jj];
                    assert(before[k].0 == c);
                }
            }
            out.push((c, 1));
        }
        assert forall|k: int| 0 <= k < out@.len() implies out@[k].1 == color_count(colors@.take(i + 1), #[trigger] out@[k].0) by {
            if k < before.len() && !(found && k == j) {
                assert(before[k].0 != c);
                assert(out@[k] == before[k]);
            }
        }
        assert forall|jj: int| #![trigger colors@[jj]] 0 <= jj < i + 1 implies exists|k: int| 0 <= k < out@.len() && #[trigger] out@[k].0 == colors@[jj] by {
            if jj == i {
                if found {
                    assert(out@[j as int].0 == colors@[jj]);
                } else {
                    assert(out@[before.len() as int].0 == colors@[jj]);
                }
            } else {
                let k = choose|k: int| 0 <= k < before.len() && #[trigger] before[k].0 == colors@[jj];
                assert(out@[k].0 == before[k].0);
            }
        }
        i += 1;
    }
    assert(colors@.take(i as int) =~= colors@);
    assert forall|c: [u8; 3]| colors@.contains(c) implies exists|k: int| 0 <= k < out@.len() && #[trigger] out@[k].0 == c by {
        let jj = choose|jj: int| 0 <= jj < colors@.len() && colors@[jj] == c;
        assert(exists|k: int| 0 <= k < out@.len() && #[trigger] out@[k].0 == colors@[jj]);
    }
    out
}

/// The colours that get a CSS class, in colour order: class `c0` is the
/// first of them, `c1` the next, and so on. `colors` lists the fill of
/// every background rectangle and the colour of every text run.
pub fn color_classes(colors: &Vec<[u8; 3]>) -> (r: Vec<[u8; 3]>)
    ensures
        forall|i: int, j: int| 0 <= i < j < r@.len() ==> rgb_key(r@[i]) < rgb_key(r@[j]),
        forall|i: int| 0 <= i < r@.len() ==> has_class(colors@, #[trigger] r@[i]),
        forall|c: [u8; 3]| has_class(colors@, c) ==> r@.contains(c),
{
    let tally = tally_colors(colors);
    let mut out: Vec<[u8; 3]> = Vec::new();
    let mut last: u32 = 0;
    let mut have_last = false;
    loop
        invariant
            forall|i: int| 0 <= i < tally@.len() ==> tally@[i].1 == color_count(colors@, #[trigger] tally@[i].0),
            forall|c: [u8; 3]| colors@.contains(c) ==> exists|i: int| 0 <= i < tally@.len() && #[trigger] tally@[i].0 == c,
            forall|i: int, j: int| 0 <= i < j < out@.len() ==> rgb_key(out@[i]) < rgb_key(out@[j]),
            forall|i: int| 0 <= i < out@.len() ==> has_class(colors@, #[trigger] out@[i]),
            have_last ==> out@.len() > 0 && last == rgb_key(out@.last()),
            !have_last ==> out@.len() == 0,
            forall|c: [u8; 3]| has_class(colors@, c) && have_last && rgb_key(c) <= last ==> out@.contains(c),
            last <= 0xff_ffff,
        ensures
            forall|i: int, j: int| 0 <= i < j < out@.len() ==> rgb_key(out@[i]) < rgb_key(out@[j]),
            forall|i: int| 0 <= i < out@.len() ==> has_class(colors@, #[trigger] out@[i]),
            forall|c: [u8; 3]| has_class(colors@, c) ==> out@.contains(c),
        decreases (if have_last { 0xff_ffff - last } else { 0x100_0000 }),
    {
        let mut best: Option<[u8; 3]> = None;
        let mut j: usize = 0;
        while j < tally.len()
            invariant
                j <= tally@.len(),
                forall|i: int| 0 <= i < tally@.len() ==> tally@[i].1 == color_count(colors@, #[trigger] tally@[i].0),
                match best {
                    Some(b) => has_class(colors@, b) && (!have_last || rgb_key(b) > last) && forall|k: int|
                        0 <= k < j && tally@[k].1 >= 5 && (!have_last || rgb_key(tally@[k].0) > last) ==> rgb_key(b) <= rgb_key(
                            #[trigger] tally@[k].0,
                        ),
                    None => forall|k: int| 0 <= k < j ==> !(#[trigger] tally@[k].1 >= 5 && (!have_last || rgb_key(tally@[k].0) > last)),
                },
            decreases tally@.len() - j,
        {
            let (c, n) = tally[j];
            let k = rgb_key_exec(c);
            if n >= 5 && (!have_last || k > last) {
                match best {
                    None => {
                        best = Some(c);
                    },
                    Some(b) => {
                        if k < rgb_key_exec(b) {
                            best = Some(c);
                        }
                    },
                }
            }
            j += 1;
        }
        match best {
            None => {
                assert forall|c: [u8; 3]| has_class(colors@, c) && (!have_last || rgb_key(c) > last) implies false by {
                    lemma_count_present(colors@, c);
                    let i = choose|i: int| 0 <= i < tally@.len() && #[trigger] tally@[i].0 == c;
                    assert(tally@[i].1 >= 5);
                }
                assert forall|c: [u8; 3]| has_class(colors@, c) implies out@.contains(c) by {
                    assert(have_last && rgb_key(c) <= last);
                }
                break;
            },
            Some(b) => {
                let ghost old_out = out@;
                out.push(b);
                assert forall|c: [u8; 3]| has_class(colors@, c) && rgb_key(c) <= rgb_key(b) implies out@.contains(c) by {
                    if have_last && rgb_key(c) <= last {
                        let i = choose|i: int| 0 <= i < old_out.len() && old_out[i] == c;
                        assert(out@[i] == c);
                    } else {
                        lemma_count_present(colors@, c);
                        let i = choose|i: int| 0 <= i < tally@.len() && #[trigger] tally@[i].0 == c;
                        assert(tally@[i].1 >= 5);
                        assert(rgb_key(b) <= rgb_key(c));
                        lemma_rgb_key_injective(b, c);
                        assert(out@[old_out.len() as int] == c);
                    }
                }
                last = rgb_key_exec(b);
                have_last = true;
            },
        }
    }
    out
}

/// The CSS rule of class `k`, filling with `c`.
pub open spec fn class_rule(k: nat, c: [u8; 3]) -> Seq<char> {
    ".c"@ + crate::decimal::nat_text(k) + " { fill: "@ + spec_rgb_hex(c) + "; }\n"@
}

/// The rules of classes `0 .. n`.
pub open spec fn class_rules(classes: Seq<[u8; 3]>, n: int) -> Seq<char>
    decreases n,
{
    if n <= 0 {
        Seq::empty()
    } else {
        class_rules(classes, n - 1) + class_rule((n - 1) as nat, classes[n - 1])
    }
}

/// The style element declaring the colour classes; nothing without any.
pub open spec fn spec_class_css(classes: Seq<[u8; 3]>) -> Seq<char> {
    if classes.len() == 0 {
        Seq::empty()
    } else {
        "<style>\n"@ + class_rules(classes, classes.len() as int) + "</style>\n"@
    }
}

/// The style element that declares a class for each of `classes`.
pub fn class_css(classes: &Vec<[u8; 3]>) -> (r: String)
    ensures
        r@ == spec_class_css(classes@),
{
    if classes.len() == 0 {
        return String::new();
    }
    let mut css = "<style>\n".to_owned();
    let ghost head = css@;
    let mut k: usize = 0;
    while k < classes.len()
        invariant
            k <= classes@.len(),
            head == "<style>\n"@,
            css@ == head + class_rules(classes@, k as int),
        decreases classes@.len() - k,
    {
        css.append(".c");
        css.append(crate::decimal::u64_text(k as u64).as_str());
        css.append(" { fill: ");
        css.append(rgb_hex(classes[k]).as_str());
        css.append("; }\n");
        assert(css@ =~= head + class_rules(classes@, k + 1));
        k += 1;
    }
    css.append("</style>\n");
    css
}

/// The class number of a colour: its place among `classes`, if any.
pub fn class_of(classes: &Vec<[u8; 3]>, c: [u8; 3]) -> (r: Option<usize>)
    ensures
        r matches Some(k) ==> k < classes@.len() && classes@[k as int] == c && forall|j: int| 0 <= j < k ==> classes@[j] != c,
        r is None ==> !classes@.contains(c),
{
    let mut k: usize = 0;
    while k < classes.len()
        invariant
            k <= classes@.len(),
            forall|j: int| 0 <= j < k ==> classes@[j] != c,
        decreases classes@.len() - k,
    {
        if crate::recording::rgb_eq(classes[k], c) {
            return Some(k);
        }
        k += 1;
    }
    None
}

/// Whether a pixel position `content + k * cell` fits in a `u32`.
fn offset_fits(content: u32, k: u16, cell: u32) -> (r: bool)
    ensures
        r == (content + k * cell <= u32::MAX),
{
    assert(k as int * cell as int <= 0xffff * 0xffff_ffff) by (nonlinear_arith)
        requires
            k <= 0xffff,
            cell <= 0xffff_ffff,
    ;
    content as u64 + k as u64 * cell as u64 <= 0xffff_ffff
}

/// Whether the window-control dots' arithmetic stays within `u32`.
fn window_bar_fits_exec(style: WindowBarStyle, bar_h: u32, frame_x: u32, frame_y: u32, frame_w: u32) -> (r: bool)
    ensures
        r == window_bar_fits(style, bar_h, frame_x, frame_y, frame_w),
{
    if !style.enabled() {
        return true;
    }
    let (radius, gap) = crate::style::window_bar_dot_metrics(bar_h);
    let radius = radius as u64;
    let gap = gap as u64;
    let dots_w = radius * 6 + gap * 2;
    let start_x: u64 = if style.align_right() {
        let need = dots_w + gap;
        frame_x as u64 + if frame_w as u64 >= need { frame_w as u64 - need } else { 0 }
    } else {
        frame_x as u64 + gap
    };
    dots_w + gap <= 0xffff_ffff && start_x + 2 * (radius * 2 + gap) + radius <= 0xffff_ffff && frame_y as u64 + (bar_h / 2)
        as u64 <= 0xffff_ffff
}

/// [`svg_shapes`] where its conditions hold; `None` where the frames are
/// missing, a frame has too few cells, or a pixel coordinate or the
/// animation's length would not fit in a `u32`.
pub fn svg_shapes_checked(frames: &[RawFrame], cfg: &ViewportConfig) -> (r: Option<SvgShapes>)
    ensures
        match r {
            Some(s) => {
                &&& frames@.len() > 0
                &&& s.total_ms == spec_total_ms(frames@.last().t_ms, cfg.framerate)
                &&& spans_view(s.cell_spans@) == spec_cell_spans(frames_view(frames@), s.total_ms)
                &&& rects_view(s.bg_rects@) == merge_rects(
                    sort_rects(
                        spec_bg_rects(
                            spec_cell_spans(frames_view(frames@), s.total_ms),
                            geometry_of(*cfg),
                            cfg.frame_style.border_radius_px > 0,
                        ),
                    ),
                )
                &&& s.cursor_rects@ == spec_cursor_rects(spec_cursor_spans(frames_view(frames@), s.total_ms), geometry_of(*cfg))
                &&& s.window_bar_circles@ == spec_window_bar_circles(
                    cfg.frame_style.window_bar,
                    cfg.bar_h,
                    cfg.frame_x,
                    cfg.frame_y,
                    cfg.frame_w,
                )
                &&& s.frame_clip == spec_frame_clip(cfg.frame_x, cfg.frame_y, cfg.frame_w, cfg.frame_h, cfg.frame_style.border_radius_px)
            },
            None => !({
                &&& frames@.len() > 0
                &&& forall|i: int| 0 <= i < frames@.len() ==> frames@[i].cells@.len() >= frames@[0].cols * frames@[0].rows
                &&& frames@.last().t_ms + frame_ms_of(cfg.framerate) <= u32::MAX
                &&& grid_fits(geometry_of(*cfg), frames@[0].cols, frames@[0].rows)
                &&& frames_cursor_fit(frames_view(frames@), geometry_of(*cfg))
                &&& window_bar_fits(cfg.frame_style.window_bar, cfg.bar_h, cfg.frame_x, cfg.frame_y, cfg.frame_w)
            }),
        },
{
    if frames.len() == 0 {
        return None;
    }
    let cols = frames[0].cols;
    let rows = frames[0].rows;
    assert(cols as int * rows as int <= 0xffff * 0xffff) by (nonlinear_arith)
        requires
            cols <= 0xffff,
            rows <= 0xffff,
    ;
    let n: usize = cols as usize * rows as usize;
    let g = CellGeometry {
        content_x: cfg.content_x,
        content_y: cfg.content_y,
        cell_w: if cfg.cell_width_px >= 1 { cfg.cell_width_px } else { 1 },
        cell_h: if cfg.cell_height_px >= 1 { cfg.cell_height_px } else { 1 },
    };
    let ghost fv = frames_view(frames@);
    let mut i: usize = 0;
    while i < frames.len()
        invariant
            i <= frames@.len(),
            frames@.len() > 0,
            n == frames@[0].cols * frames@[0].rows,
            fv == frames_view(frames@),
            g == geometry_of(*cfg),
            forall|k: int| 0 <= k < i ==> frames@[k].cells@.len() >= n,
            forall|k: int| 0 <= k < i ==> match #[trigger] fv[k].cursor {
                Some((cx, cy)) => cell_x(g, cx) <= u32::MAX && cell_y(g, cy) <= u32::MAX,
                None => true,
            },
        decreases frames@.len() - i,
    {
        if frames[i].cells.len() < n {
            return None;
        }
        assert(fv[i as int] == frames@[i as int]@);
        match frames[i].cursor {
            Some((cx, cy)) => {
                if !offset_fits(g.content_x, cx, g.cell_w) || !offset_fits(g.content_y, cy, g.cell_h) {
                    assert(fv[i as int].cursor == Some((cx, cy)));
                    assert(!frames_cursor_fit(fv, g));
                    return None;
                }
            },
            None => {},
        }
        i += 1;
    }
    let last_t = frames[frames.len() - 1].t_ms;
    let frame_ms: u32 = if cfg.framerate > 0 { 1000 / cfg.framerate } else { 33 };
    if last_t as u64 + frame_ms as u64 > 0xffff_ffff {
        return None;
    }
    if !offset_fits(g.content_x, cols, g.cell_w) || !offset_fits(g.content_y, rows, g.cell_h) {
        return None;
    }
    if !window_bar_fits_exec(cfg.frame_style.window_bar, cfg.bar_h, cfg.frame_x, cfg.frame_y, cfg.frame_w) {
        return None;
    }
    Some(svg_shapes(frames, cfg))
}

} // verus!
