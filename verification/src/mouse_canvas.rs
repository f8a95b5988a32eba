//! The mouse test screen of the helper program: a grid of painted cells
//! with a legend across its middle row, changed by mouse events and by
//! resizes.

use vstd::prelude::*;

verus! {

/// The legend shown across the middle row.
pub const LEGEND: &'static str = "L: Red | R: Green | Drag: Purple | Move: L.Blue | q: Exit";

/// The background a cell is painted with.
#[derive(Debug, Clone, Copy, PartialEq, Eq, Structural)]
pub enum Paint {
    Reset,
    Red,
    Green,
    Magenta,
    LightBlue,
}

/// The mouse events the screen tells apart.
#[derive(Debug, Clone, Copy, PartialEq, Eq, Structural)]
pub enum MouseKind {
    LeftDown,
    RightDown,
    MiddleDown,
    Up,
    Drag,
    Moved,
    Scroll,
}

/// The paint a mouse event leaves: red for a left press, green for a right
/// press, magenta along a drag, light blue where the pointer moves.
pub open spec fn paint_for(k: MouseKind) -> Option<Paint> {
    match k {
        MouseKind::LeftDown => Some(Paint::Red),
        MouseKind::RightDown => Some(Paint::Green),
        MouseKind::Drag => Some(Paint::Magenta),
        MouseKind::Moved => Some(Paint::LightBlue),
        _ => None,
    }
}

/// The character shown at a cell: the legend's, centred on the middle row
/// when the screen is wide enough for it, else a blank.
pub open spec fn legend_char(legend: Seq<char>, col: int, row: int, cols: int, rows: int) -> char {
    if row == rows / 2 && cols >= legend.len() {
        let start = (cols - legend.len()) / 2;
        if start <= col < start + legend.len() {
            legend[col - start]
        } else {
            ' '
        }
    } else {
        ' '
    }
}

/// A grid of `cols` by `rows` cells, row after row.
pub struct MouseCanvas {
    pub cols: u16,
    pub rows: u16,
    pub grid: Vec<Paint>,
}

/// The grid after a resize: what was in both the old and the new area is
/// kept, the rest is unpainted.
pub open spec fn resized(grid: Seq<Paint>, cols: int, rows: int, new_cols: int, new_rows: int) -> Seq<Paint> {
    Seq::new(
        (new_cols * new_rows) as nat,
        |i: int|
            {
                let r = i / new_cols;
                let c = i % new_cols;
                if r < rows && c < cols {
                    grid[r * cols + c]
                } else {
                    Paint::Reset
                }
            },
    )
}

proof fn lemma_area_fits(cols: u16, rows: u16)
    ensures
        cols * rows <= 0xFFFF * 0xFFFF,
        0xFFFF * 0xFFFF <= usize::MAX,
{
    assert(cols * rows <= 0xFFFF * 0xFFFF) by (nonlinear_arith)
        requires
            cols <= 0xFFFF,
            rows <= 0xFFFF,
    ;
}

impl MouseCanvas {
    /// Every cell has its paint.
    pub open spec fn wf(&self) -> bool {
        self.grid@.len() == self.cols * self.rows
    }

    /// An unpainted screen.
    pub fn new(cols: u16, rows: u16) -> (r: MouseCanvas)
        ensures
            r.wf(),
            r.cols == cols,
            r.rows == rows,
            forall|i: int| 0 <= i < r.grid@.len() ==> r.grid@[i] == Paint::Reset,
    {
        proof {
            lemma_area_fits(cols, rows);
        }
        let n = (cols as usize) * (rows as usize);
        let mut grid: Vec<Paint> = Vec::new();
        let mut i: usize = 0;
        while i < n
            invariant
                i <= n,
                grid@.len() == i,
                forall|j: int| 0 <= j < i ==> grid@[j] == Paint::Reset,
            decreases n - i,
        {
            grid.push(Paint::Reset);
            i += 1;
        }
        MouseCanvas { cols, rows, grid }
    }

    /// The character shown at `(col, row)`.
    pub fn cell_char(&self, col: u16, row: u16) -> (r: char)
        ensures
            r == legend_char(LEGEND@, col as int, row as int, self.cols as int, self.rows as int),
    {
        let legend = crate::text::chars_of(LEGEND);
        let n = legend.len();
        if row == self.rows / 2 && (self.cols as usize) >= n {
            let start = ((self.cols as usize) - n) / 2;
            let c = col as usize;
            if c >= start && c < start + n {
                return legend[c - start];
            }
        }
        ' '
    }

    /// Takes the terminal's new size; keeps the paint of the cells that are
    /// in both the old and the new area. Returns whether the size changed
    /// (and the whole screen needs drawing again).
    pub fn resize(&mut self, new_cols: u16, new_rows: u16) -> (r: bool)
        requires
            old(self).wf(),
        ensures
            final(self).wf(),
            r == (new_cols != old(self).cols || new_rows != old(self).rows),
            r ==> final(self).cols == new_cols && final(self).rows == new_rows && final(self).grid@ == resized(
                old(self).grid@,
                old(self).cols as int,
                old(self).rows as int,
                new_cols as int,
                new_rows as int,
            ),
            !r ==> *final(self) == *old(self),
    {
        if new_cols == self.cols && new_rows == self.rows {
            return false;
        }
        let ghost want = resized(self.grid@, self.cols as int, self.rows as int, new_cols as int, new_rows as int);
        proof {
            lemma_area_fits(new_cols, new_rows);
            lemma_area_fits(self.cols, self.rows);
        }
        let nc = new_cols as usize;
        let n = nc * (new_rows as usize);
        let oc = self.cols as usize;
        let mut grid: Vec<Paint> = Vec::new();
        let mut i: usize = 0;
        while i < n
            invariant
                i <= n,
                n == nc * new_rows,
                nc == new_cols,
                oc == self.cols,
                self.grid@.len() == self.cols * self.rows,
                self.cols * self.rows <= 0xFFFF * 0xFFFF,
                want == resized(self.grid@, self.cols as int, self.rows as int, new_cols as int, new_rows as int),
                grid@.len() == i,
                forall|j: int| 0 <= j < i ==> grid@[j] == want[j],
            decreases n - i,
        {
            let r = i / nc;
            let c = i % nc;
            proof {
                assert(r < new_rows) by (nonlinear_arith)
                    requires
                        r == i / nc,
                        i < n,
                        n == nc * new_rows,
                        nc > 0,
                ;
            }
            if r < (self.rows as usize) && c < oc {
                proof {
                    assert(r * oc + c < self.cols * self.rows) by (nonlinear_arith)
                        requires
                            r < self.rows,
                            c < oc,
                            oc == self.cols,
                    ;
                }
                grid.push(self.grid[r * oc + c]);
            } else {
                grid.push(Paint::Reset);
            }
            i += 1;
        }
        assert(grid@ =~= want);
        self.cols = new_cols;
        self.rows = new_rows;
        self.grid = grid;
        true
    }

    /// A mouse event at `(col, row)`: paints the cell when the event leaves
    /// a paint, the cell is on the screen and not painted so already.
    /// Returns the paint to draw the cell with, if it changed.
    pub fn mouse(&mut self, kind: MouseKind, col: u16, row: u16) -> (r: Option<Paint>)
        requires
            old(self).wf(),
        ensures
            final(self).wf(),
            final(self).cols == old(self).cols,
            final(self).rows == old(self).rows,
            ({
                let idx = row * old(self).cols + col;
                match r {
                    Some(p) => col < old(self).cols && row < old(self).rows && paint_for(kind) == Some(p)
                        && old(self).grid@[idx] != p && final(self).grid@ == old(self).grid@.update(idx, p),
                    None => final(self).grid@ == old(self).grid@ && !(col < old(self).cols && row < old(self).rows
                        && paint_for(kind) is Some && old(self).grid@[idx] != paint_for(kind)->0),
                }
            }),
    {
        if col >= self.cols || row >= self.rows {
            return None;
        }
        let p = match kind {
            MouseKind::LeftDown => Paint::Red,
            MouseKind::RightDown => Paint::Green,
            MouseKind::Drag => Paint::Magenta,
            MouseKind::Moved => Paint::LightBlue,
            _ => {
                return None;
            },
        };
        proof {
            lemma_area_fits(self.cols, self.rows);
            assert(row * self.cols + col < self.cols * self.rows) by (nonlinear_arith)
                requires
                    row < self.rows,
                    col < self.cols,
            ;
        }
        let idx = (row as usize) * (self.cols as usize) + (col as usize);
        proof {
            assert(idx < self.cols * self.rows) by (nonlinear_arith)
                requires
                    idx == row * self.cols + col,
                    row < self.rows,
                    col < self.cols,
            ;
        }
        if self.grid[idx] == p {
            return None;
        }
        self.grid.set(idx, p);
        Some(p)
    }
}

} // verus!
