//! The drawing surface: a rectangular grid of cells plus the pool that
//! backs multi-codepoint grapheme clusters.
//!
//! A plane owns its cell store exclusively. Grid cells that hold a wide
//! glyph always come in adjacent pairs — a leading cell of width 2 and a
//! trailing continuation of width 0 — and every operation that writes,
//! resizes or erases keeps the pair together.

use vstd::prelude::*;

use crate::cell::{
    cell_text, cell_wf, clamp2, egc_advance, empty_cell, is_control_char, is_pool_ref,
    is_wide_tail, pool_index, ref_of, NcCell, POOL_TAG, WIDE_TAIL,
};
use crate::channel::{channels_wf, NcChannels};
use crate::unicode::{egc_width, first_egc, first_grapheme, grapheme_width};
use crate::{NcDim, NcError, NcOffset, NcResult, NcStyle, NCSTYLE_MASK};

verus! {

/// The largest row or column count a plane can be created or resized to.
pub const DIM_MAX: NcDim = 0xFFFF;

/// The number of grapheme-cluster slots a single pool can hold.
pub const POOL_CAP: usize = 0x0100_0000;

/// A rectangular, positioned drawing surface: one node of the scene graph.
pub struct NcPlane {
    /// Rows of the grid; always at least 1.
    pub rows: NcDim,
    /// Columns of the grid; always at least 1.
    pub cols: NcDim,
    /// The vertical origin, relative to the containing pile.
    pub abs_y: NcOffset,
    /// The horizontal origin, relative to the containing pile.
    pub abs_x: NcOffset,
    /// The grid, row-major: the cell at `(y, x)` is entry `y * cols + x`.
    pub cells: Vec<NcCell>,
    /// The pool of multi-codepoint grapheme clusters cells refer into.
    pub pool: Vec<Option<String>>,
    /// The cell shown wherever no explicit cell has been written.
    pub base: NcCell,
    /// Whether writes that reach the end of a row wrap to the next one.
    pub scrolling: bool,
    /// The style applied to glyphs as they are written.
    pub attr_style: NcStyle,
    /// The channels applied to glyphs as they are written.
    pub attr_channels: NcChannels,
}

/// The flat index of coordinate `(y, x)` in a grid `cols` wide.
pub open spec fn gidx(cols: int, y: int, x: int) -> int {
    y * cols + x
}

/// The cell of `p` at `(y, x)`.
pub open spec fn cell_at(p: NcPlane, y: int, x: int) -> NcCell {
    p.cells@[gidx(p.cols as int, y, x)]
}

/// The grapheme text of `p`'s cell at `(y, x)`, with pool references
/// resolved.
pub open spec fn text_at(p: NcPlane, y: int, x: int) -> Seq<char> {
    cell_text(cell_at(p, y, x), p.pool@)
}

/// `(y, x)` lies within `p`'s grid.
pub open spec fn in_bounds(p: NcPlane, y: int, x: int) -> bool {
    0 <= y < p.rows && 0 <= x < p.cols
}

/// Row-major indexing stays within a `rows * cols` grid and is injective.
pub proof fn lemma_gidx(rows: int, cols: int, y: int, x: int)
    by (nonlinear_arith)
    requires
        0 <= y < rows,
        0 <= x < cols,
    ensures
        0 <= gidx(cols, y, x) < rows * cols,
        gidx(cols, y, x) % cols == x,
        gidx(cols, y, x) / cols == y,
{
}

/// Distinct coordinates have distinct row-major indices.
pub proof fn lemma_gidx_inj(cols: int, y1: int, x1: int, y2: int, x2: int)
    by (nonlinear_arith)
    requires
        0 <= x1 < cols,
        0 <= x2 < cols,
        0 <= y1,
        0 <= y2,
        y1 != y2 || x1 != x2,
    ensures
        gidx(cols, y1, x1) != gidx(cols, y2, x2),
{
}

/// The geometry of the grid is coherent: positive dimensions within
/// [`DIM_MAX`], and exactly `rows * cols` cells.
pub open spec fn plane_geometry_wf(p: NcPlane) -> bool {
    &&& 1 <= p.rows <= DIM_MAX
    &&& 1 <= p.cols <= DIM_MAX
    &&& p.cells@.len() == p.rows * p.cols
}

/// Every grid cell is well formed with respect to the plane's pool, and
/// so is the base cell, which in addition never refers into the pool and
/// is never wide.
pub open spec fn plane_cells_wf(p: NcPlane) -> bool {
    &&& forall|y: int, x: int|
        in_bounds(p, y, x) ==> cell_wf(#[trigger] cell_at(p, y, x), p.pool@)
    &&& cell_wf(p.base, p.pool@)
    &&& !is_pool_ref(p.base.gcluster)
    &&& !is_wide_tail(p.base.gcluster)
    &&& p.base.width <= 1
    &&& channels_wf(p.attr_channels)
}

/// No two grid cells refer to the same pool slot: each cell owns what it
/// points at, so releasing one cell never invalidates another.
pub open spec fn plane_refs_injective(p: NcPlane) -> bool {
    forall|y1: int, x1: int, y2: int, x2: int|
        in_bounds(p, y1, x1) && in_bounds(p, y2, x2) && (y1 != y2 || x1 != x2)
            && is_pool_ref(#[trigger] cell_at(p, y1, x1).gcluster)
            && is_pool_ref(#[trigger] cell_at(p, y2, x2).gcluster)
            ==> cell_at(p, y1, x1).gcluster != cell_at(p, y2, x2).gcluster
}

/// The wide-pair coherence of one coordinate: a width-2 cell is followed
/// in its row by a continuation cell, and a continuation cell is preceded
/// by a width-2 cell.
pub open spec fn wide_ok(p: NcPlane, y: int, x: int) -> bool {
    &&& (cell_at(p, y, x).width == 2 ==> x + 1 < p.cols && cell_at(p, y, x + 1).gcluster
        == WIDE_TAIL)
    &&& (is_wide_tail(cell_at(p, y, x).gcluster) ==> x >= 1 && cell_at(p, y, x - 1).width == 2)
}

/// Wide glyphs occupy coherent pairs everywhere on the plane.
pub open spec fn plane_wide_wf(p: NcPlane) -> bool {
    forall|y: int, x: int| in_bounds(p, y, x) ==> #[trigger] wide_ok(p, y, x)
}

/// The full well-formedness of a plane.
pub open spec fn plane_wf(p: NcPlane) -> bool {
    &&& plane_geometry_wf(p)
    &&& plane_cells_wf(p)
    &&& plane_refs_injective(p)
    &&& plane_wide_wf(p)
}

impl NcPlane {
    /// A new unbound plane of the given dimensions, every cell empty.
    ///
    /// Fails with a geometry error when either dimension is zero or above
    /// [`DIM_MAX`].
    pub fn new(rows: NcDim, cols: NcDim) -> (r: NcResult<NcPlane>)
        ensures
            (1 <= rows <= DIM_MAX && 1 <= cols <= DIM_MAX) <==> r is Ok,
            r matches Err(e) ==> e == NcError::Geometry,
            r matches Ok(p) ==> {
                &&& plane_wf(p)
                &&& p.rows == rows
                &&& p.cols == cols
                &&& p.abs_y == 0 && p.abs_x == 0
                &&& p.base == empty_cell()
                &&& !p.scrolling
                &&& p.pool@.len() == 0
                &&& forall|y: int, x: int|
                    in_bounds(p, y, x) ==> #[trigger] cell_at(p, y, x) == empty_cell()
            },
    {
        if rows < 1 || rows > DIM_MAX || cols < 1 || cols > DIM_MAX {
            return Err(NcError::Geometry);
        }
        proof {
            assert(rows * cols <= 0xFFFF * 0xFFFF) by (nonlinear_arith)
                requires rows <= 0xFFFF && cols <= 0xFFFF,
            ;
        }
        let n: usize = (rows as usize) * (cols as usize);
        let mut cells: Vec<NcCell> = Vec::new();
        let mut i: usize = 0;
        while i < n
            invariant
                i <= n,
                cells@.len() == i,
                forall|k: int| 0 <= k < i ==> cells@[k] == empty_cell(),
            decreases n - i,
        {
            cells.push(NcCell::new());
            i = i + 1;
        }
        let p = NcPlane {
            rows,
            cols,
            abs_y: 0,
            abs_x: 0,
            cells,
            pool: Vec::new(),
            base: NcCell::new(),
            scrolling: false,
            attr_style: 0,
            attr_channels: NcChannels::new(),
        };
        proof {
            assert forall|y: int, x: int| in_bounds(p, y, x) implies #[trigger] cell_at(p, y, x)
                == empty_cell() by {
                lemma_gidx(p.rows as int, p.cols as int, y, x);
            }
        }
        Ok(p)
    }

    /// The dimensions of the plane, rows then columns.
    pub fn dim_yx(&self) -> (r: (NcDim, NcDim))
        ensures
            r.0 == self.rows,
            r.1 == self.cols,
    {
        (self.rows, self.cols)
    }

    /// Whether writes wrap at the end of a row.
    pub fn scrolling_p(&self) -> (r: bool)
        ensures
            r == self.scrolling,
    {
        self.scrolling
    }

    /// Turns row wrapping on or off, returning the previous setting.
    pub fn set_scrolling(&mut self, scrolling: bool) -> (r: bool)
        ensures
            r == old(self).scrolling,
            *final(self) == (NcPlane { scrolling, ..*old(self) }),
    {
        let prev = self.scrolling;
        self.scrolling = scrolling;
        prev
    }

    /// A copy of the cell at `(y, x)`, or an out-of-bounds error.
    pub fn cell_yx(&self, y: NcDim, x: NcDim) -> (r: NcResult<NcCell>)
        requires
            plane_geometry_wf(*self),
        ensures
            (y < self.rows && x < self.cols) <==> r is Ok,
            r matches Err(e) ==> e == NcError::OutOfBounds,
            r matches Ok(c) ==> c == cell_at(*self, y as int, x as int),
    {
        if y >= self.rows || x >= self.cols {
            return Err(NcError::OutOfBounds);
        }
        proof {
            lemma_gidx(self.rows as int, self.cols as int, y as int, x as int);
            assert((y as int) * (self.cols as int) + (x as int) <= 0xFFFF_FFFF)
                by (nonlinear_arith)
                requires y as int <= 0xFFFE, x as int <= 0xFFFE, self.cols as int <= 0xFFFF,
            ;
        }
        let idx: usize = (y as usize) * (self.cols as usize) + (x as usize);
        Ok(self.cells[idx])
    }
}

/// The flat index of `(y, x)`, as a machine integer.
pub(crate) fn grid_index(rows: NcDim, cols: NcDim, y: NcDim, x: NcDim) -> (r: usize)
    requires
        1 <= rows <= DIM_MAX,
        1 <= cols <= DIM_MAX,
        y < rows,
        x < cols,
    ensures
        r == gidx(cols as int, y as int, x as int),
        r < rows * cols,
        r <= 0xFFFF_FFFE,
{
    proof {
        lemma_gidx(rows as int, cols as int, y as int, x as int);
        assert((y as int) * (cols as int) + (x as int) <= 0xFFFF_FFFE) by (nonlinear_arith)
            requires y as int <= 0xFFFE, x as int <= 0xFFFE, cols as int <= 0xFFFF,
        ;
    }
    (y as usize) * (cols as usize) + (x as usize)
}

/// The cells a clearing of `(y, x)` writes: the cell itself, the trailing
/// half beside it when it leads a wide pair, and the leading half before
/// it when it is a trailing half.
pub open spec fn clear_touches(p: NcPlane, y: int, x: int, yy: int, xx: int) -> bool {
    ||| (yy == y && xx == x)
    ||| (cell_at(p, y, x).width == 2 && yy == y && xx == x + 1)
    ||| (is_wide_tail(cell_at(p, y, x).gcluster) && yy == y && xx == x - 1)
}

impl NcPlane {
    /// Clears the cell at `(y, x)` to the base cell, releasing what it
    /// held; if it was half of a wide pair, the other half is cleared
    /// too, so no orphaned half survives.
    pub(crate) fn clear_slot(&mut self, y: NcDim, x: NcDim)
        requires
            plane_wf(*old(self)),
            y < old(self).rows,
            x < old(self).cols,
        ensures
            plane_wf(*final(self)),
            *final(self) == (NcPlane {
                cells: final(self).cells,
                pool: final(self).pool,
                ..*old(self)
            }),
            final(self).cells@.len() == old(self).cells@.len(),
            final(self).pool@.len() == old(self).pool@.len(),
            cell_at(*final(self), y as int, x as int) == old(self).base,
            cell_at(*old(self), y as int, x as int).width == 2 ==> cell_at(
                *final(self),
                y as int,
                x as int + 1,
            ) == old(self).base,
            is_wide_tail(cell_at(*old(self), y as int, x as int).gcluster) ==> cell_at(
                *final(self),
                y as int,
                x as int - 1,
            ) == old(self).base,
            forall|yy: int, xx: int|
                in_bounds(*old(self), yy, xx) && !clear_touches(*old(self), y as int, x as int, yy, xx)
                    ==> cell_at(*final(self), yy, xx) == cell_at(*old(self), yy, xx) && text_at(
                    *final(self),
                    yy,
                    xx,
                ) == text_at(*old(self), yy, xx),
            forall|j: int|
                0 <= j < old(self).pool@.len() && old(self).pool@[j] is Some && j != ref_of(
                    cell_at(*old(self), y as int, x as int),
                ) && !(is_wide_tail(cell_at(*old(self), y as int, x as int).gcluster) && j
                    == ref_of(cell_at(*old(self), y as int, x as int - 1)))
                    ==> final(self).pool@[j] == old(self).pool@[j],
    {
        let ghost p0 = *old(self);
        let idx = grid_index(self.rows, self.cols, y, x);
        let c = self.cells[idx];
        proof {
            assert(c == cell_at(p0, y as int, x as int));
            assert(cell_wf(c, p0.pool@));
            assert(wide_ok(p0, y as int, x as int));
        }
        if c.width == 2 {
            proof {
                assert(x as int + 1 < p0.cols);
                lemma_gidx(p0.rows as int, p0.cols as int, y as int, x as int + 1);
            }
            let tail_idx = idx + 1;
            self.cells[tail_idx] = self.base;
        } else if c.gcluster == WIDE_TAIL {
            proof {
                assert(x >= 1);
                lemma_gidx(p0.rows as int, p0.cols as int, y as int, x as int - 1);
            }
            let lead_idx = idx - 1;
            let lead = self.cells[lead_idx];
            pool_free(&mut self.pool, lead.gcluster);
            self.cells[lead_idx] = self.base;
        }
        pool_free(&mut self.pool, c.gcluster);
        self.cells[idx] = self.base;
        proof {
            lemma_clear_slot_wf(p0, *self, y as int, x as int);
        }
    }
}

/// After a slot clearing, the plane is still well formed and every
/// untouched cell keeps its content.
pub(crate) proof fn lemma_clear_slot_wf(p0: NcPlane, p1: NcPlane, y: int, x: int)
    requires
        plane_wf(p0),
        0 <= y < p0.rows,
        0 <= x < p0.cols,
        p1 == (NcPlane { cells: p1.cells, pool: p1.pool, ..p0 }),
        p1.cells@.len() == p0.cells@.len(),
        p1.pool@.len() == p0.pool@.len(),
        ({
            let c = cell_at(p0, y, x);
            if c.width == 2 {
                p1.cells@ == p0.cells@.update(
                    gidx(p0.cols as int, y, x + 1),
                    p0.base,
                ).update(gidx(p0.cols as int, y, x), p0.base)
            } else if is_wide_tail(c.gcluster) {
                p1.cells@ == p0.cells@.update(
                    gidx(p0.cols as int, y, x - 1),
                    p0.base,
                ).update(gidx(p0.cols as int, y, x), p0.base)
            } else {
                p1.cells@ == p0.cells@.update(gidx(p0.cols as int, y, x), p0.base)
            }
        }),
        ({
            let c = cell_at(p0, y, x);
            let lead = cell_at(p0, y, x - 1);
            if is_wide_tail(c.gcluster) {
                forall|j: int|
                    0 <= j < p0.pool@.len() && j != ref_of(c) && j != ref_of(lead)
                        ==> p1.pool@[j] == p0.pool@[j]
            } else {
                forall|j: int|
                    0 <= j < p0.pool@.len() && j != ref_of(c) ==> p1.pool@[j] == p0.pool@[j]
            }
        }),
    ensures
        plane_wf(p1),
        cell_at(p1, y, x) == p0.base,
        cell_at(p0, y, x).width == 2 ==> cell_at(p1, y, x + 1) == p0.base,
        is_wide_tail(cell_at(p0, y, x).gcluster) ==> cell_at(p1, y, x - 1) == p0.base,
        forall|yy: int, xx: int|
            in_bounds(p0, yy, xx) && !clear_touches(p0, y, x, yy, xx) ==> cell_at(p1, yy, xx)
                == cell_at(p0, yy, xx) && text_at(p1, yy, xx) == text_at(p0, yy, xx),
{
    let c = cell_at(p0, y, x);
    assert(wide_ok(p0, y, x));
    lemma_gidx(p0.rows as int, p0.cols as int, y, x);
    if c.width == 2 {
        lemma_gidx(p0.rows as int, p0.cols as int, y, x + 1);
    }
    if is_wide_tail(c.gcluster) {
        lemma_gidx(p0.rows as int, p0.cols as int, y, x - 1);
    }
    assert forall|yy: int, xx: int| in_bounds(p0, yy, xx) implies gidx(
        p0.cols as int,
        yy,
        xx,
    ) == gidx(p1.cols as int, yy, xx) && 0 <= gidx(p0.cols as int, yy, xx)
        < p0.cells@.len() by {
        lemma_gidx(p0.rows as int, p0.cols as int, yy, xx);
    }
    assert forall|yy: int, xx: int|
        in_bounds(p0, yy, xx) && !clear_touches(p0, y, x, yy, xx) implies cell_at(p1, yy, xx)
        == cell_at(p0, yy, xx) by {
        lemma_gidx(p0.rows as int, p0.cols as int, yy, xx);
        let i = gidx(p0.cols as int, yy, xx);
        assert(yy != y || xx != x);
        lemma_gidx_inj(p0.cols as int, yy, xx, y, x);
        assert(i != gidx(p0.cols as int, y, x));
        if c.width == 2 {
            assert(in_bounds(p0, y, x + 1));
            assert(yy != y || xx != x + 1);
            lemma_gidx_inj(p0.cols as int, yy, xx, y, x + 1);
            let a = gidx(p0.cols as int, y, x + 1);
            let b = gidx(p0.cols as int, y, x);
            assert(p0.cells@.update(a, p0.base).update(b, p0.base)[i] == p0.cells@.update(
                a,
                p0.base,
            )[i]);
            assert(p0.cells@.update(a, p0.base)[i] == p0.cells@[i]);
            assert(p1.cells@[i] == p0.cells@[i]);
        } else if is_wide_tail(c.gcluster) {
            assert(in_bounds(p0, y, x - 1));
            assert(yy != y || xx != x - 1);
            lemma_gidx_inj(p0.cols as int, yy, xx, y, x - 1);
            let a = gidx(p0.cols as int, y, x - 1);
            let b = gidx(p0.cols as int, y, x);
            assert(p0.cells@.update(a, p0.base).update(b, p0.base)[i] == p0.cells@.update(
                a,
                p0.base,
            )[i]);
            assert(p0.cells@.update(a, p0.base)[i] == p0.cells@[i]);
            assert(p1.cells@[i] == p0.cells@[i]);
        } else {
            assert(p1.cells@[i] == p0.cells@[i]);
        }
        assert(cell_at(p1, yy, xx) == p1.cells@[i]);
        assert(cell_at(p0, yy, xx) == p0.cells@[i]);
    }
    assert forall|yy: int, xx: int|
        in_bounds(p0, yy, xx) && !clear_touches(p0, y, x, yy, xx) implies text_at(p1, yy, xx)
        == text_at(p0, yy, xx) && cell_wf(cell_at(p1, yy, xx), p1.pool@) by {
        let d = cell_at(p0, yy, xx);
        assert(cell_wf(d, p0.pool@));
        if is_pool_ref(d.gcluster) {
            if is_pool_ref(c.gcluster) {
                assert(d.gcluster != c.gcluster);
            }
            if is_wide_tail(c.gcluster) {
                let lead = cell_at(p0, y, x - 1);
                if is_pool_ref(lead.gcluster) && (yy != y || xx != x - 1) {
                    assert(d.gcluster != lead.gcluster);
                }
            }
            assert(p1.pool@[pool_index(d.gcluster)] == p0.pool@[pool_index(d.gcluster)]);
        }
    }
    assert(cell_at(p1, y, x) == p0.base) by {
        lemma_gidx(p0.rows as int, p0.cols as int, y, x);
    }
    if c.width == 2 {
        assert(in_bounds(p0, y, x + 1));
        assert(cell_at(p1, y, x + 1) == p0.base) by {
            lemma_gidx(p0.rows as int, p0.cols as int, y, x + 1);
            lemma_gidx_inj(p0.cols as int, y, x + 1, y, x);
        }
    }
    if is_wide_tail(c.gcluster) {
        assert(in_bounds(p0, y, x - 1));
        assert(cell_at(p1, y, x - 1) == p0.base) by {
            lemma_gidx(p0.rows as int, p0.cols as int, y, x - 1);
            lemma_gidx_inj(p0.cols as int, y, x - 1, y, x);
        }
    }
    assert(plane_cells_wf(p1)) by {
        assert forall|yy: int, xx: int|
            in_bounds(p1, yy, xx) implies cell_wf(#[trigger] cell_at(p1, yy, xx), p1.pool@) by {
            if clear_touches(p0, y, x, yy, xx) {
                assert(cell_at(p1, yy, xx) == p0.base || cell_at(p1, yy, xx) == cell_at(
                    p0,
                    yy,
                    xx,
                ));
                if cell_at(p1, yy, xx) == p0.base {
                    assert(cell_wf(p0.base, p0.pool@));
                    assert(cell_wf(p0.base, p1.pool@));
                }
            }
        }
        assert(cell_wf(p1.base, p1.pool@));
    }
    assert(plane_refs_injective(p1)) by {
        assert forall|y1: int, x1: int, y2: int, x2: int|
            in_bounds(p1, y1, x1) && in_bounds(p1, y2, x2) && (y1 != y2 || x1 != x2)
                && is_pool_ref(#[trigger] cell_at(p1, y1, x1).gcluster) && is_pool_ref(
                #[trigger] cell_at(p1, y2, x2).gcluster,
            ) implies cell_at(p1, y1, x1).gcluster != cell_at(p1, y2, x2).gcluster by {
            assert(cell_at(p1, y1, x1) == cell_at(p0, y1, x1) || cell_at(p1, y1, x1) == p0.base);
            assert(cell_at(p1, y2, x2) == cell_at(p0, y2, x2) || cell_at(p1, y2, x2) == p0.base);
        }
    }
    assert(plane_wide_wf(p1)) by {
        assert forall|yy: int, xx: int| in_bounds(p1, yy, xx) implies #[trigger] wide_ok(
            p1,
            yy,
            xx,
        ) by {
            assert(in_bounds(p0, yy, xx));
            assert(wide_ok(p0, yy, xx));
            assert(cell_at(p1, yy, xx) == cell_at(p0, yy, xx) || cell_at(p1, yy, xx) == p0.base);
            if cell_at(p1, yy, xx).width == 2 {
                assert(cell_at(p1, yy, xx) == cell_at(p0, yy, xx));
                assert(!clear_touches(p0, y, x, yy, xx));
                assert(xx + 1 < p0.cols && cell_at(p0, yy, xx + 1).gcluster == WIDE_TAIL);
                assert(wide_ok(p0, yy, xx + 1));
                assert(cell_at(p1, yy, xx + 1) == cell_at(p0, yy, xx + 1)) by {
                    assert(!clear_touches(p0, y, x, yy, xx + 1));
                }
            }
            if is_wide_tail(cell_at(p1, yy, xx).gcluster) {
                assert(cell_at(p1, yy, xx) == cell_at(p0, yy, xx));
                assert(!clear_touches(p0, y, x, yy, xx));
                assert(wide_ok(p0, yy, xx));
                assert(xx >= 1 && cell_at(p0, yy, xx - 1).width == 2);
                assert(cell_at(p1, yy, xx - 1) == cell_at(p0, yy, xx - 1)) by {
                    assert(!clear_touches(p0, y, x, yy, xx - 1));
                }
            }
        }
    }
}

/// After writing a fresh cell (and its continuation half, for a wide
/// glyph) over base cells, the plane is still well formed and every other
/// cell keeps its content.
pub(crate) proof fn lemma_write_slot_wf(
    p0: NcPlane,
    p1: NcPlane,
    y: int,
    x: int,
    cnew: NcCell,
    tail: NcCell,
)
    requires
        plane_wf(p0),
        0 <= y < p0.rows,
        0 <= x < p0.cols,
        p1 == (NcPlane { cells: p1.cells, ..p0 }),
        cell_wf(cnew, p0.pool@),
        !is_wide_tail(cnew.gcluster),
        cell_at(p0, y, x) == p0.base,
        cnew.width == 2 ==> x + 1 < p0.cols && cell_at(p0, y, x + 1) == p0.base,
        is_wide_tail(tail.gcluster) && tail.width == 0 && channels_wf(tail.channels),
        is_pool_ref(cnew.gcluster) ==> forall|yy: int, xx: int|
            in_bounds(p0, yy, xx) ==> (#[trigger] cell_at(p0, yy, xx)).gcluster != cnew.gcluster,
        (if cnew.width == 2 {
            p1.cells@ == p0.cells@.update(gidx(p0.cols as int, y, x), cnew).update(
                gidx(p0.cols as int, y, x + 1),
                tail,
            )
        } else {
            p1.cells@ == p0.cells@.update(gidx(p0.cols as int, y, x), cnew)
        }),
    ensures
        plane_wf(p1),
        cell_at(p1, y, x) == cnew,
        cnew.width == 2 ==> cell_at(p1, y, x + 1) == tail,
        forall|yy: int, xx: int|
            in_bounds(p0, yy, xx) && !(yy == y && xx == x) && !(cnew.width == 2 && yy == y && xx
                == x + 1) ==> cell_at(p1, yy, xx) == cell_at(p0, yy, xx) && text_at(p1, yy, xx)
                == text_at(p0, yy, xx),
{
    lemma_gidx(p0.rows as int, p0.cols as int, y, x);
    if cnew.width == 2 {
        lemma_gidx(p0.rows as int, p0.cols as int, y, x + 1);
        lemma_gidx_inj(p0.cols as int, y, x, y, x + 1);
    }
    assert forall|yy: int, xx: int|
        in_bounds(p0, yy, xx) && !(yy == y && xx == x) && !(cnew.width == 2 && yy == y && xx == x
            + 1) implies cell_at(p1, yy, xx) == cell_at(p0, yy, xx) by {
        lemma_gidx(p0.rows as int, p0.cols as int, yy, xx);
        let i = gidx(p0.cols as int, yy, xx);
        lemma_gidx_inj(p0.cols as int, yy, xx, y, x);
        if cnew.width == 2 {
            if yy != y || xx != x + 1 {
                lemma_gidx_inj(p0.cols as int, yy, xx, y, x + 1);
            }
            let a = gidx(p0.cols as int, y, x);
            let b = gidx(p0.cols as int, y, x + 1);
            assert(p0.cells@.update(a, cnew).update(b, tail)[i] == p0.cells@.update(a, cnew)[i]);
            assert(p0.cells@.update(a, cnew)[i] == p0.cells@[i]);
        } else {
            assert(p0.cells@.update(gidx(p0.cols as int, y, x), cnew)[i] == p0.cells@[i]);
        }
    }
    assert(p1.pool@ == p0.pool@);
    assert(cell_at(p1, y, x) == cnew);
    assert(plane_cells_wf(p1)) by {
        assert forall|yy: int, xx: int|
            in_bounds(p1, yy, xx) implies cell_wf(#[trigger] cell_at(p1, yy, xx), p1.pool@) by {
            if yy == y && xx == x {
                assert(cell_wf(cnew, p0.pool@));
            } else if cnew.width == 2 && yy == y && xx == x + 1 {
                assert(cell_wf(tail, p0.pool@));
            } else {
                assert(cell_wf(cell_at(p0, yy, xx), p0.pool@));
            }
        }
    }
    assert(plane_refs_injective(p1)) by {
        assert forall|y1: int, x1: int, y2: int, x2: int|
            in_bounds(p1, y1, x1) && in_bounds(p1, y2, x2) && (y1 != y2 || x1 != x2)
                && is_pool_ref(#[trigger] cell_at(p1, y1, x1).gcluster) && is_pool_ref(
                #[trigger] cell_at(p1, y2, x2).gcluster,
            ) implies cell_at(p1, y1, x1).gcluster != cell_at(p1, y2, x2).gcluster by {
            if y1 == y && x1 == x {
                assert(cell_at(p1, y2, x2).gcluster == cell_at(p0, y2, x2).gcluster
                    || cell_at(p1, y2, x2) == tail);
            } else if y2 == y && x2 == x {
                assert(cell_at(p1, y1, x1).gcluster == cell_at(p0, y1, x1).gcluster
                    || cell_at(p1, y1, x1) == tail);
            } else {
                assert(cell_at(p1, y1, x1).gcluster == cell_at(p0, y1, x1).gcluster
                    || cell_at(p1, y1, x1) == tail);
                assert(cell_at(p1, y2, x2).gcluster == cell_at(p0, y2, x2).gcluster
                    || cell_at(p1, y2, x2) == tail);
            }
        }
    }
    assert(plane_wide_wf(p1)) by {
        assert forall|yy: int, xx: int| in_bounds(p1, yy, xx) implies #[trigger] wide_ok(
            p1,
            yy,
            xx,
        ) by {
            assert(wide_ok(p0, yy, xx));
            if yy == y && xx == x {
                if cnew.width == 2 {
                    assert(cell_at(p1, y, x + 1) == tail);
                }
            } else if cnew.width == 2 && yy == y && xx == x + 1 {
                assert(cell_at(p1, y, x).width == 2);
                if x + 2 < p0.cols {
                    assert(wide_ok(p0, y, x + 2));
                }
            } else {
                assert(cell_at(p1, yy, xx) == cell_at(p0, yy, xx));
                if cell_at(p1, yy, xx).width == 2 {
                    assert(xx + 1 < p0.cols);
                    assert(wide_ok(p0, yy, xx + 1));
                    if !(yy == y && xx + 1 == x) && !(cnew.width == 2 && yy == y && xx + 1 == x
                        + 1) {
                        assert(cell_at(p1, yy, xx + 1) == cell_at(p0, yy, xx + 1));
                    } else {
                        assert(cell_at(p0, yy, xx + 1).gcluster == WIDE_TAIL);
                        assert(cell_at(p0, yy, xx + 1) == p0.base);
                        assert(false);
                    }
                }
                if is_wide_tail(cell_at(p1, yy, xx).gcluster) {
                    assert(xx >= 1);
                    assert(wide_ok(p0, yy, xx - 1));
                    if !(yy == y && xx - 1 == x) && !(cnew.width == 2 && yy == y && xx - 1 == x
                        + 1) {
                        assert(cell_at(p1, yy, xx - 1) == cell_at(p0, yy, xx - 1));
                        assert(cell_at(p0, yy, xx - 1).width == 2);
                    } else {
                        assert(cell_at(p0, yy, xx - 1) == p0.base);
                        assert(cell_at(p0, yy, xx - 1).width == 2);
                        assert(false);
                    }
                }
            }
        }
    }
}

/// Finds a free pool slot (or appends one) and stores `s` there, handing
/// back the `gcluster` reference encoding its index. Returns `None`, with
/// nothing changed, only when the pool is full.
pub(crate) fn pool_alloc(pool: &mut Vec<Option<String>>, s: String) -> (r: Option<u32>)
    ensures
        r is None ==> *final(pool) == *old(pool) && !pool_has_room(old(pool)@),
        r matches Some(g) ==> {
            &&& is_pool_ref(g)
            &&& pool_index(g) < final(pool)@.len()
            &&& final(pool)@[pool_index(g)] == Some(s)
            &&& pool_index(g) < old(pool)@.len() ==> old(pool)@[pool_index(g)] is None
                && final(pool)@ == old(pool)@.update(pool_index(g), Some(s))
            &&& pool_index(g) >= old(pool)@.len() ==> final(pool)@ == old(pool)@.push(Some(s))
            &&& final(pool)@.len() >= old(pool)@.len()
            &&& forall|j: int|
                0 <= j < old(pool)@.len() && j != pool_index(g) ==> final(pool)@[j] == old(pool)@[j]
        },
{
    let n = pool.len();
    let limit: usize = if n > POOL_CAP {
        POOL_CAP
    } else {
        n
    };
    let mut i: usize = 0;
    while i < limit
        invariant
            i <= limit,
            limit <= n,
            limit <= POOL_CAP,
            n == pool@.len(),
            *pool == *old(pool),
            forall|j: int| 0 <= j < i ==> pool@[j] is Some,
        decreases limit - i,
    {
        if pool[i].is_none() {
            pool[i] = Some(s);
            return Some(POOL_TAG + (i as u32));
        }
        i = i + 1;
    }
    if n >= POOL_CAP {
        return None;
    }
    pool.push(Some(s));
    Some(POOL_TAG + (n as u32))
}

impl NcPlane {
    /// Writes one grapheme cluster — the first of `egc` — at `(y, x)`,
    /// styled with the plane's write attributes. A wide cluster takes the
    /// two cells `(y, x)` and `(y, x + 1)`; whatever the written cells
    /// held, including halves of wide pairs, is released first, and a
    /// half whose partner is overwritten is cleared to the base cell.
    /// Returns the number of columns taken.
    ///
    /// Fails with an out-of-bounds error when `(y, x)` lies outside the
    /// grid or a wide cluster would cross the right edge, an encoding
    /// error on an empty or control-led text, and a resource error when
    /// the pool is full; on failure nothing is changed.
    pub fn put_egc_yx(&mut self, y: NcDim, x: NcDim, egc: &str) -> (r: NcResult<u8>)
        requires
            plane_wf(*old(self)),
            egc@.len() <= 0x3FFF_FFFF,
        ensures
            plane_wf(*final(self)),
            *final(self) == (NcPlane {
                cells: final(self).cells,
                pool: final(self).pool,
                ..*old(self)
            }),
            r is Ok <==> (y < old(self).rows && x < old(self).cols && egc@.len() > 0
                && !is_control_char(first_egc(egc@)[0]) && (clamp2(egc_width(first_egc(egc@)))
                != 2 || x as int + 1 < old(self).cols) && (first_egc(egc@).len() == 1
                || pool_has_room(old(self).pool@))),
            r is Err ==> final(self).cells@ == old(self).cells@ && final(self).pool@ == old(
                self,
            ).pool@,
            r matches Err(e) ==> e == (if y >= old(self).rows || x >= old(self).cols {
                NcError::OutOfBounds
            } else if egc@.len() == 0 || is_control_char(first_egc(egc@)[0]) {
                NcError::Encoding
            } else if clamp2(egc_width(first_egc(egc@))) == 2 && x as int + 1 >= old(self).cols {
                NcError::OutOfBounds
            } else {
                NcError::Resource
            }),
            r matches Ok(w) ==> {
                let g = first_egc(egc@);
                &&& w == clamp2(egc_width(g))
                &&& text_at(*final(self), y as int, x as int) == g
                &&& cell_at(*final(self), y as int, x as int).stylemask == old(self).attr_style
                &&& cell_at(*final(self), y as int, x as int).channels == old(self).attr_channels
                &&& cell_at(*final(self), y as int, x as int).width == w
                &&& (w == 2 ==> is_wide_tail(cell_at(*final(self), y as int, x as int + 1).gcluster))
            },
            forall|yy: int, xx: int|
                in_bounds(*old(self), yy, xx) && (yy != y || xx < x as int - 1 || xx > x as int
                    + 2) ==> cell_at(*final(self), yy, xx) == cell_at(*old(self), yy, xx)
                    && text_at(*final(self), yy, xx) == text_at(*old(self), yy, xx),
            forall|yy: int, xx: int|
                in_bounds(*old(self), yy, xx) && yy == y && xx == x as int - 1 && cell_at(
                    *old(self),
                    yy,
                    xx,
                ).width != 2 ==> cell_at(*final(self), yy, xx) == cell_at(*old(self), yy, xx)
                    && text_at(*final(self), yy, xx) == text_at(*old(self), yy, xx),
            first_egc(egc@).len() <= egc@.len(),
            egc@.len() > 0 ==> first_egc(egc@).len() > 0,
            egc@.len() == 0 ==> first_egc(egc@).len() == 0,
    {
        let g = first_grapheme(egc);
        let gl = g.as_str().unicode_len();
        if y >= self.rows || x >= self.cols {
            return Err(NcError::OutOfBounds);
        }
        if gl == 0 {
            return Err(NcError::Encoding);
        }
        let c0 = g.as_str().get_char(0);
        if (c0 as u32) < 0x20 || (c0 as u32) == 0x7F {
            return Err(NcError::Encoding);
        }
        let wth = grapheme_width(g.as_str());
        let w: u8 = if wth > 2 {
            2
        } else {
            wth as u8
        };
        if w == 2 && x + 1 >= self.cols {
            return Err(NcError::OutOfBounds);
        }
        let ghost p_pre = *old(self);
        let mut cell = NcCell::new();
        match NcCell::load(self, &mut cell, egc) {
            Ok(_) => {},
            Err(e) => {
                return Err(e);
            },
        }
        cell.stylemask = self.attr_style;
        cell.channels = self.attr_channels;
        let ghost p_al = *self;
        let ghost cw = cell;
        proof {
            assert(cell_wf(cw, p_al.pool@));
            assert(cw.gcluster != 0 && !is_wide_tail(cw.gcluster)) by {
                assert(cell_text(cw, p_al.pool@) == first_egc(egc@));
                assert(first_egc(egc@).len() > 0);
            }
            assert forall|yy: int, xx: int|
                in_bounds(p_al, yy, xx) && is_pool_ref(
                    (#[trigger] cell_at(p_al, yy, xx)).gcluster,
                ) implies cell_at(p_al, yy, xx).gcluster != cw.gcluster by {
                assert(cell_at(p_al, yy, xx) == cell_at(p_pre, yy, xx));
                assert(cell_wf(cell_at(p_pre, yy, xx), p_pre.pool@));
            }
        }
        self.clear_slot(y, x);
        let ghost p_c1 = *self;
        proof {
            lemma_cell_ref_keeps(cw, p_al, p_c1, y as int, x as int);
        }
        if w == 2 {
            proof {
                assert(wide_ok(p_c1, y as int, x as int + 1));
                assert(cell_at(p_c1, y as int, x as int) == p_al.base);
                assert(!is_wide_tail(cell_at(p_c1, y as int, x as int + 1).gcluster)) by {
                    assert(cell_at(p_c1, y as int, x as int).width <= 1);
                }
            }
            self.clear_slot(y, x + 1);
            proof {
                lemma_cell_ref_keeps(cw, p_c1, *self, y as int, x as int + 1);
                assert(cell_at(*self, y as int, x as int) == p_c1.base) by {
                    assert(!clear_touches(p_c1, y as int, x as int + 1, y as int, x as int));
                }
            }
        }
        let ghost p_bw = *self;
        let idx = grid_index(self.rows, self.cols, y, x);
        self.cells[idx] = cell;
        let tail = NcCell {
            gcluster: WIDE_TAIL,
            width: 0,
            stylemask: self.attr_style,
            channels: self.attr_channels,
        };
        if w == 2 {
            let idx2 = grid_index(self.rows, self.cols, y, x + 1);
            self.cells[idx2] = tail;
        }
        proof {
            assert forall|yy: int, xx: int|
                in_bounds(p_bw, yy, xx) && is_pool_ref(
                    (#[trigger] cell_at(p_bw, yy, xx)).gcluster,
                ) implies cell_at(p_bw, yy, xx).gcluster != cw.gcluster by {
                if !clear_touches(p_al, y as int, x as int, yy, xx) && (w != 2 || !clear_touches(
                    p_c1,
                    y as int,
                    x as int + 1,
                    yy,
                    xx,
                )) {
                    assert(cell_at(p_bw, yy, xx) == cell_at(p_al, yy, xx));
                } else {
                    assert(cell_at(p_bw, yy, xx) == p_al.base || cell_at(p_bw, yy, xx) == cell_at(
                        p_al,
                        yy,
                        xx,
                    ));
                }
            }
            lemma_write_slot_wf(p_bw, *self, y as int, x as int, cw, tail);
            assert(text_at(*self, y as int, x as int) == first_egc(egc@)) by {
                assert(cell_at(*self, y as int, x as int) == cw);
                assert(cell_text(cw, p_bw.pool@) == cell_text(cw, p_al.pool@));
            }
            let xm = x as int - 1;
            if in_bounds(p_pre, y as int, xm) && cell_at(p_pre, y as int, xm).width != 2 {
                assert(wide_ok(p_pre, y as int, x as int));
                assert(!clear_touches(p_al, y as int, x as int, y as int, xm)) by {
                    assert(cell_at(p_al, y as int, x as int) == cell_at(p_pre, y as int, x as int));
                    assert(cell_at(p_al, y as int, xm) == cell_at(p_pre, y as int, xm));
                    if is_wide_tail(cell_at(p_pre, y as int, x as int).gcluster) {
                        assert(cell_at(p_pre, y as int, xm).width == 2);
                    }
                }
                assert(cell_at(p_c1, y as int, xm) == cell_at(p_al, y as int, xm));
                assert(text_at(p_c1, y as int, xm) == text_at(p_al, y as int, xm));
                if w == 2 {
                    assert(!clear_touches(p_c1, y as int, x as int + 1, y as int, xm));
                    assert(cell_at(p_bw, y as int, xm) == cell_at(p_c1, y as int, xm));
                    assert(text_at(p_bw, y as int, xm) == text_at(p_c1, y as int, xm));
                }
                assert(cell_at(*self, y as int, xm) == cell_at(p_bw, y as int, xm));
                assert(text_at(*self, y as int, xm) == text_at(p_bw, y as int, xm));
                assert(text_at(p_al, y as int, xm) == text_at(p_pre, y as int, xm)) by {
                    crate::cell::lemma_cell_text_preserved(
                        cell_at(p_pre, y as int, xm),
                        p_pre.pool@,
                        p_al.pool@,
                    );
                }
            }
        }
        Ok(w)
    }
}

impl NcPlane {
    /// Resets every cell to the base cell and discards the whole pool:
    /// the plane is as freshly filled, and always succeeds.
    pub fn erase(&mut self)
        requires
            plane_wf(*old(self)),
        ensures
            plane_wf(*final(self)),
            *final(self) == (NcPlane {
                cells: final(self).cells,
                pool: final(self).pool,
                ..*old(self)
            }),
            final(self).pool@.len() == 0,
            forall|y: int, x: int|
                in_bounds(*old(self), y, x) ==> #[trigger] cell_at(*final(self), y, x) == old(
                    self,
                ).base,
    {
        let n = self.cells.len();
        let mut cells: Vec<NcCell> = Vec::new();
        let mut i: usize = 0;
        while i < n
            invariant
                i <= n,
                cells@.len() == i,
                forall|k: int| 0 <= k < i ==> cells@[k] == old(self).base,
                self.base == old(self).base,
            decreases n - i,
        {
            cells.push(self.base);
            i = i + 1;
        }
        self.cells = cells;
        self.pool = Vec::new();
        proof {
            assert forall|y: int, x: int| in_bounds(*old(self), y, x) implies #[trigger] cell_at(
                *self,
                y,
                x,
            ) == old(self).base by {
                lemma_gidx(self.rows as int, self.cols as int, y, x);
            }
            assert forall|y: int, x: int| in_bounds(*self, y, x) implies #[trigger] wide_ok(
                *self,
                y,
                x,
            ) by {
                lemma_gidx(self.rows as int, self.cols as int, y, x);
                if x + 1 < self.cols {
                    lemma_gidx(self.rows as int, self.cols as int, y, x + 1);
                }
                if x >= 1 {
                    lemma_gidx(self.rows as int, self.cols as int, y, x - 1);
                }
            }
        }
    }

    /// Replaces the base cell: the character shown wherever no explicit
    /// cell has been written, with its style and channels. The base
    /// always occupies a single column; control characters are refused.
    pub fn set_base(&mut self, ch: char, style: NcStyle, channels: NcChannels) -> (r: NcResult<
        (),
    >)
        requires
            plane_wf(*old(self)),
            channels_wf(channels),
        ensures
            plane_wf(*final(self)),
            r is Ok <==> !is_control_char(ch),
            r matches Err(e) ==> e == NcError::Encoding && *final(self) == *old(self),
            r is Ok ==> *final(self) == (NcPlane {
                base: NcCell {
                    gcluster: ch as u32,
                    width: (if ch as u32 == 0 {
                        0u8
                    } else {
                        1u8
                    }),
                    stylemask: style & NCSTYLE_MASK,
                    channels,
                },
                ..*old(self)
            }),
    {
        let v = ch as u32;
        if v < 0x20 || v == 0x7F {
            return Err(NcError::Encoding);
        }
        let ghost p0 = *self;
        self.base = NcCell {
            gcluster: v,
            width: if v == 0 {
                0
            } else {
                1
            },
            stylemask: style & NCSTYLE_MASK,
            channels,
        };
        proof {
            assert forall|y: int, x: int| in_bounds(*self, y, x) implies cell_wf(
                #[trigger] cell_at(*self, y, x),
                self.pool@,
            ) by {
                assert(cell_at(*self, y, x) == cell_at(p0, y, x));
                assert(cell_wf(cell_at(p0, y, x), p0.pool@));
            }
            assert forall|y: int, x: int| in_bounds(*self, y, x) implies #[trigger] wide_ok(
                *self,
                y,
                x,
            ) by {
                assert(wide_ok(p0, y, x));
            }
            assert(plane_refs_injective(*self)) by {
                assert forall|y1: int, x1: int, y2: int, x2: int|
                    in_bounds(*self, y1, x1) && in_bounds(*self, y2, x2) && (y1 != y2 || x1 != x2)
                        && is_pool_ref(#[trigger] cell_at(*self, y1, x1).gcluster) && is_pool_ref(
                        #[trigger] cell_at(*self, y2, x2).gcluster,
                    ) implies cell_at(*self, y1, x1).gcluster != cell_at(*self, y2, x2).gcluster by {
                    assert(cell_at(*self, y1, x1) == cell_at(p0, y1, x1));
                    assert(cell_at(*self, y2, x2) == cell_at(p0, y2, x2));
                }
            }
        }
        Ok(())
    }

    /// The base cell, as currently set.
    pub fn base(&self) -> (r: NcCell)
        ensures
            r == self.base,
    {
        self.base
    }

    /// The style bits applied to newly written glyphs.
    pub fn styles(&self) -> (r: NcStyle)
        ensures
            r == self.attr_style,
    {
        self.attr_style
    }

    /// Replaces the styles applied to newly written glyphs.
    pub fn set_styles(&mut self, stylebits: NcStyle)
        ensures
            *final(self) == (NcPlane { attr_style: stylebits & NCSTYLE_MASK, ..*old(self) }),
            plane_wf(*old(self)) ==> plane_wf(*final(self)),
    {
        let ghost p0 = *self;
        self.attr_style = stylebits & NCSTYLE_MASK;
        proof {
            if plane_wf(p0) {
                lemma_wf_cells_same(p0, *self);
            }
        }
    }

    /// Adds style bits to those applied to newly written glyphs.
    pub fn on_styles(&mut self, stylebits: NcStyle)
        ensures
            *final(self) == (NcPlane {
                attr_style: old(self).attr_style | (stylebits & NCSTYLE_MASK),
                ..*old(self)
            }),
            plane_wf(*old(self)) ==> plane_wf(*final(self)),
    {
        let ghost p0 = *self;
        self.attr_style = self.attr_style | (stylebits & NCSTYLE_MASK);
        proof {
            if plane_wf(p0) {
                lemma_wf_cells_same(p0, *self);
            }
        }
    }

    /// Removes style bits from those applied to newly written glyphs.
    pub fn off_styles(&mut self, stylebits: NcStyle)
        ensures
            *final(self) == (NcPlane {
                attr_style: old(self).attr_style & !(stylebits & NCSTYLE_MASK),
                ..*old(self)
            }),
            plane_wf(*old(self)) ==> plane_wf(*final(self)),
    {
        let ghost p0 = *self;
        self.attr_style = self.attr_style & !(stylebits & NCSTYLE_MASK);
        proof {
            if plane_wf(p0) {
                lemma_wf_cells_same(p0, *self);
            }
        }
    }

    /// The channels applied to newly written glyphs.
    pub fn channels(&self) -> (r: NcChannels)
        ensures
            r == self.attr_channels,
    {
        self.attr_channels
    }

    /// Replaces the channels applied to newly written glyphs.
    pub fn set_channels(&mut self, channels: NcChannels)
        requires
            channels_wf(channels),
        ensures
            *final(self) == (NcPlane { attr_channels: channels, ..*old(self) }),
            plane_wf(*old(self)) ==> plane_wf(*final(self)),
    {
        let ghost p0 = *self;
        self.attr_channels = channels;
        proof {
            if plane_wf(p0) {
                lemma_wf_cells_same(p0, *self);
            }
        }
    }
}

impl NcPlane {
    /// Resets every cell of a rectangular region to the base cell,
    /// releasing what the cells held. The region is clamped to the grid,
    /// so the call always succeeds; a wide pair split by the region's
    /// edge is cleared wholly, on both sides of the edge.
    pub fn erase_region(&mut self, ystart: NcDim, xstart: NcDim, ylen: NcDim, xlen: NcDim)
        requires
            plane_wf(*old(self)),
        ensures
            plane_wf(*final(self)),
            *final(self) == (NcPlane {
                cells: final(self).cells,
                pool: final(self).pool,
                ..*old(self)
            }),
            forall|yy: int, xx: int|
                in_bounds(*old(self), yy, xx) && ystart <= yy && yy < ystart + ylen && xstart
                    <= xx && xx < xstart + xlen ==> #[trigger] cell_at(*final(self), yy, xx)
                    == old(self).base,
            forall|yy: int, xx: int|
                in_bounds(*old(self), yy, xx) && (yy < ystart || yy >= ystart + ylen || xx
                    < xstart - 1 || xx > xstart + xlen) ==> #[trigger] cell_at(
                    *final(self),
                    yy,
                    xx,
                ) == cell_at(*old(self), yy, xx) && text_at(*final(self), yy, xx) == text_at(
                    *old(self),
                    yy,
                    xx,
                ),
    {
        let ghost p0 = *old(self);
        if ystart >= self.rows || xstart >= self.cols || ylen == 0 || xlen == 0 {
            return ;
        }
        let yend: NcDim = if ylen >= self.rows - ystart {
            self.rows
        } else {
            ystart + ylen
        };
        let xend: NcDim = if xlen >= self.cols - xstart {
            self.cols
        } else {
            xstart + xlen
        };
        let mut yy: NcDim = ystart;
        while yy < yend
            invariant
                plane_wf(*self),
                *self == (NcPlane { cells: self.cells, pool: self.pool, ..p0 }),
                ystart <= yy <= yend,
                yend <= self.rows,
                xstart < xend <= self.cols,
                forall|ry: int, rx: int|
                    in_bounds(p0, ry, rx) && ystart <= ry < yy && xstart <= rx < xend
                        ==> #[trigger] cell_at(*self, ry, rx) == p0.base,
                forall|ty: int, tx: int|
                    in_bounds(p0, ty, tx) && (ty < ystart || ty >= yend || tx < xstart - 1 || tx
                        > xend) ==> #[trigger] cell_at(*self, ty, tx) == cell_at(p0, ty, tx)
                        && text_at(*self, ty, tx) == text_at(p0, ty, tx),
            decreases yend - yy,
        {
            let mut xx: NcDim = xstart;
            while xx < xend
                invariant
                    plane_wf(*self),
                    *self == (NcPlane { cells: self.cells, pool: self.pool, ..p0 }),
                    ystart <= yy < yend,
                    yend <= self.rows,
                    xstart <= xx <= xend,
                    xstart < xend <= self.cols,
                    forall|ry: int, rx: int|
                        in_bounds(p0, ry, rx) && ystart <= ry < yy && xstart <= rx < xend
                            ==> #[trigger] cell_at(*self, ry, rx) == p0.base,
                    forall|rx: int|
                        xstart <= rx < xx ==> #[trigger] cell_at(*self, yy as int, rx)
                            == p0.base,
                    forall|ty: int, tx: int|
                        in_bounds(p0, ty, tx) && (ty < ystart || ty >= yend || tx < xstart - 1
                            || tx > xend) ==> #[trigger] cell_at(*self, ty, tx) == cell_at(
                            p0,
                            ty,
                            tx,
                        ) && text_at(*self, ty, tx) == text_at(p0, ty, tx),
                decreases xend - xx,
            {
                let ghost pb = *self;
                self.clear_slot(yy, xx);
                proof {
                    let c = cell_at(pb, yy as int, xx as int);
                    assert(wide_ok(pb, yy as int, xx as int));
                    assert forall|ry: int, rx: int|
                        in_bounds(p0, ry, rx) && ((ystart <= ry < yy && xstart <= rx < xend) || (
                        ry == yy && xstart <= rx < xx)) implies #[trigger] cell_at(
                        *self,
                        ry,
                        rx,
                    ) == p0.base by {
                        assert(cell_at(pb, ry, rx) == p0.base);
                        assert(cell_at(pb, ry, rx).width <= 1);
                        assert(!is_wide_tail(cell_at(pb, ry, rx).gcluster));
                        if is_wide_tail(c.gcluster) && ry == yy && rx == xx as int - 1 {
                            assert(cell_at(pb, yy as int, xx as int - 1).width == 2);
                            assert(false);
                        }
                        assert(!clear_touches(pb, yy as int, xx as int, ry, rx));
                    }
                    assert forall|ty: int, tx: int|
                        in_bounds(p0, ty, tx) && (ty < ystart || ty >= yend || tx < xstart - 1
                            || tx > xend) implies #[trigger] cell_at(*self, ty, tx) == cell_at(
                        p0,
                        ty,
                        tx,
                    ) && text_at(*self, ty, tx) == text_at(p0, ty, tx) by {
                        if clear_touches(pb, yy as int, xx as int, ty, tx) {
                            if ty == yy && tx == xx as int - 1 {
                                assert(tx >= xstart - 1 && tx <= xend);
                                assert(false);
                            } else if ty == yy && tx == xx as int + 1 {
                                assert(tx <= xend);
                                assert(false);
                            } else {
                                assert(false);
                            }
                        }
                        assert(cell_at(*self, ty, tx) == cell_at(pb, ty, tx));
                        assert(text_at(*self, ty, tx) == text_at(pb, ty, tx));
                    }
                }
                xx = xx + 1;
            }
            yy = yy + 1;
        }
    }

    /// Writes a sequence of grapheme clusters starting at `(y, x)`,
    /// each styled with the plane's write attributes, advancing by each
    /// glyph's width. When a glyph would cross the right edge the write
    /// wraps to the start of the next row if scrolling is enabled, and
    /// otherwise clips there; it always clips at the bottom of the
    /// plane. Zero-width clusters are skipped, and the write also stops
    /// at a cluster that cannot be stored (a control character, or a
    /// full pool). Returns the number of glyphs written.
    ///
    /// Fails only with an out-of-bounds error, when `(y, x)` lies
    /// outside the grid; glyphs already written stay written.
    pub fn putstr_yx(&mut self, y: NcDim, x: NcDim, s: &str) -> (r: NcResult<u32>)
        requires
            plane_wf(*old(self)),
            s@.len() <= 0x3FFF_FFFF,
        ensures
            plane_wf(*final(self)),
            *final(self) == (NcPlane {
                cells: final(self).cells,
                pool: final(self).pool,
                ..*old(self)
            }),
            (y >= old(self).rows || x >= old(self).cols) <==> r is Err,
            r matches Err(e) ==> e == NcError::OutOfBounds && *final(self) == *old(self),
            r matches Ok(n) ==> n <= s@.len(),
            (y < old(self).rows && x < old(self).cols && s@.len() > 0 && !is_control_char(
                first_egc(s@)[0],
            ) && clamp2(egc_width(first_egc(s@))) == 1 && (first_egc(s@).len() == 1
                || pool_has_room(old(self).pool@))) ==> (r matches Ok(n) && n >= 1),
            forall|ty: int, tx: int|
                in_bounds(*old(self), ty, tx) && ty < y ==> #[trigger] cell_at(
                    *final(self),
                    ty,
                    tx,
                ) == cell_at(*old(self), ty, tx) && text_at(*final(self), ty, tx) == text_at(
                    *old(self),
                    ty,
                    tx,
                ),
            !old(self).scrolling ==> forall|ty: int, tx: int|
                in_bounds(*old(self), ty, tx) && ty != y ==> #[trigger] cell_at(
                    *final(self),
                    ty,
                    tx,
                ) == cell_at(*old(self), ty, tx) && text_at(*final(self), ty, tx) == text_at(
                    *old(self),
                    ty,
                    tx,
                ),
            (r matches Ok(n) && n > 0 && clamp2(egc_width(first_egc(s@))) == 1) ==> {
                &&& text_at(*final(self), y as int, x as int) == first_egc(s@)
                &&& cell_at(*final(self), y as int, x as int).width == 1
                &&& cell_at(*final(self), y as int, x as int).stylemask == old(self).attr_style
                &&& cell_at(*final(self), y as int, x as int).channels == old(self).attr_channels
            },
    {
        let ghost p0 = *old(self);
        let ghost cgood = s@.len() > 0 && !is_control_char(first_egc(s@)[0]) && clamp2(
            egc_width(first_egc(s@)),
        ) == 1 && (first_egc(s@).len() == 1 || pool_has_room(p0.pool@));
        if y >= self.rows || x >= self.cols {
            return Err(NcError::OutOfBounds);
        }
        let mut count: u32 = 0;
        let mut consumed: u32 = 0;
        let mut cy: NcDim = y;
        let mut cx: NcDim = x;
        let mut stop: bool = false;
        let mut rest: &str = s;
        let mut restlen = rest.unicode_len();
        while restlen > 0 && !stop
            invariant
                p0 == *old(self),
                y < p0.rows,
                x < p0.cols,
                plane_wf(*self),
                *self == (NcPlane { cells: self.cells, pool: self.pool, ..p0 }),
                restlen == rest@.len(),
                rest@.len() + consumed == s@.len(),
                count <= consumed,
                s@.len() <= 0x3FFF_FFFF,
                y <= cy < self.rows,
                cx <= self.cols,
                !p0.scrolling ==> cy == y,
                cgood == (s@.len() > 0 && !is_control_char(first_egc(s@)[0]) && clamp2(
                    egc_width(first_egc(s@)),
                ) == 1 && (first_egc(s@).len() == 1 || pool_has_room(p0.pool@))),
                (count == 0 && clamp2(egc_width(first_egc(s@))) == 1) ==> rest@ == s@ && cy == y
                    && cx == x && self.cells@ == p0.cells@ && self.pool@ == p0.pool@,
                cy == y ==> cx >= x,
                count > 0 ==> (cy > y || cx > x),
                (cgood && stop) ==> count >= 1,
                (count > 0 && clamp2(egc_width(first_egc(s@))) == 1) ==> {
                    &&& text_at(*self, y as int, x as int) == first_egc(s@)
                    &&& cell_at(*self, y as int, x as int).width == 1
                    &&& cell_at(*self, y as int, x as int).stylemask == p0.attr_style
                    &&& cell_at(*self, y as int, x as int).channels == p0.attr_channels
                },
                forall|ty: int, tx: int|
                    in_bounds(p0, ty, tx) && ty < y ==> #[trigger] cell_at(*self, ty, tx)
                        == cell_at(p0, ty, tx) && text_at(*self, ty, tx) == text_at(p0, ty, tx),
                !p0.scrolling ==> forall|ty: int, tx: int|
                    in_bounds(p0, ty, tx) && ty != y ==> #[trigger] cell_at(*self, ty, tx)
                        == cell_at(p0, ty, tx) && text_at(*self, ty, tx) == text_at(p0, ty, tx),
            decreases restlen + (if stop {
                0int
            } else {
                1int
            }),
        {
            let g = first_grapheme(rest);
            let gl = g.as_str().unicode_len();
            if gl == 0 {
                proof {
                    if count == 0 && cgood {
                        assert(rest@ == s@);
                        assert(first_egc(s@).len() > 0);
                        assert(false);
                    }
                }
                stop = true;
            } else {
                let c0 = g.as_str().get_char(0);
                let wth = grapheme_width(g.as_str());
                let w: NcDim = if wth > 2 {
                    2
                } else {
                    wth as NcDim
                };
                if (c0 as u32) < 0x20 || (c0 as u32) == 0x7F {
                    proof {
                        if count == 0 && cgood {
                            assert(rest@ == s@);
                            assert(c0 == first_egc(s@)[0]);
                            assert(false);
                        }
                    }
                    stop = true;
                } else if w == 0 {
                    proof {
                        assert(gl >= 1);
                        if count == 0 && clamp2(egc_width(first_egc(s@))) == 1 {
                            assert(rest@ == s@);
                            assert(false);
                        }
                    }
                    rest = egc_advance(rest);
                    restlen = rest.unicode_len();
                    consumed = consumed + (gl as u32);
                } else if w > self.cols {
                    proof {
                        if count == 0 && cgood {
                            assert(rest@ == s@ && w == 1);
                            assert(false);
                        }
                    }
                    stop = true;
                } else {
                    if cx + w > self.cols {
                        proof {
                            if count == 0 && cgood {
                                assert(rest@ == s@ && w == 1 && cx == x && x < self.cols);
                                assert(false);
                            }
                        }
                        if self.scrolling && cy + 1 < self.rows {
                            cy = cy + 1;
                            cx = 0;
                        } else {
                            stop = true;
                        }
                    }
                    if !stop {
                        let ghost count_prev = count;
                        let ghost cy_at = cy;
                        let ghost cx_at = cx;
                        match self.put_egc_yx(cy, cx, rest) {
                            Ok(wr) => {
                                proof {
                                    assert(g@ == first_egc(rest@));
                                    assert(wr as int == w as int);
                                }
                                count = count + 1;
                                cx = cx + (wr as NcDim);
                                proof {
                                    if count_prev > 0 && clamp2(egc_width(first_egc(s@)))
                                        == 1 {
                                        assert(cy_at > y || cx_at > x);
                                    }
                                }
                                rest = egc_advance(rest);
                                restlen = rest.unicode_len();
                                consumed = consumed + (gl as u32);
                            },
                            Err(_) => {
                                proof {
                                    if count == 0 && cgood {
                                        assert(rest@ == s@);
                                        assert(self.pool@ == p0.pool@);
                                        assert(false);
                                    }
                                }
                                stop = true;
                            },
                        }
                    }
                }
            }
        }
        proof {
            if cgood && count == 0 {
                assert(!stop);
                assert(rest@ == s@);
            }
        }
        Ok(count)
    }
}

/// The cell a resize to `ncols` columns carries over to coordinate
/// `(y, x)`: the old cell where one existed, except that a wide leading
/// cell whose continuation falls off the new right edge is dropped; the
/// base cell everywhere else.
pub open spec fn resized_cell(p: NcPlane, ncols: int, y: int, x: int) -> NcCell {
    if 0 <= y < p.rows && 0 <= x < p.cols {
        if cell_at(p, y, x).width == 2 && x + 1 >= ncols {
            p.base
        } else {
            cell_at(p, y, x)
        }
    } else {
        p.base
    }
}

/// What a successful resize guarantees: the dimensions are the new ones,
/// everything but the grid and pool is untouched, and every coordinate of
/// the new grid shows its [`resized_cell`], with the text it had under
/// the old pool.
pub open spec fn resize_rel(p0: NcPlane, p1: NcPlane, nrows: NcDim, ncols: NcDim) -> bool {
    &&& p1 == (NcPlane {
        rows: nrows,
        cols: ncols,
        cells: p1.cells,
        pool: p1.pool,
        ..p0
    })
    &&& p1.cells@.len() == nrows * ncols
    &&& forall|y: int, x: int|
        0 <= y < nrows && 0 <= x < ncols ==> #[trigger] cell_at(p1, y, x) == resized_cell(
            p0,
            ncols as int,
            y,
            x,
        ) && text_at(p1, y, x) == cell_text(resized_cell(p0, ncols as int, y, x), p0.pool@)
}

/// Shrinking a plane and then restoring its old dimensions preserves
/// every cell that lay within the shrunk bounds and was not a wide pair
/// split by the shrink: content within the unaffected region survives a
/// shrink followed by a grow.
pub proof fn lemma_resize_round_trip(
    p0: NcPlane,
    p1: NcPlane,
    p2: NcPlane,
    nrows: NcDim,
    ncols: NcDim,
    y: int,
    x: int,
)
    requires
        plane_wf(p0),
        resize_rel(p0, p1, nrows, ncols),
        resize_rel(p1, p2, p0.rows, p0.cols),
        0 <= y < nrows,
        y < p0.rows,
        0 <= x < ncols,
        x < p0.cols,
        cell_at(p0, y, x).width == 2 ==> x + 1 < ncols,
    ensures
        cell_at(p2, y, x) == cell_at(p0, y, x),
        text_at(p2, y, x) == text_at(p0, y, x),
{
    assert(wide_ok(p0, y, x));
    assert(cell_at(p1, y, x) == cell_at(p0, y, x));
    assert(text_at(p1, y, x) == text_at(p0, y, x));
    assert(cell_at(p2, y, x) == resized_cell(p1, p0.cols as int, y, x));
    if cell_at(p1, y, x).width == 2 {
        assert(x + 1 < p0.cols);
    }
    assert(cell_at(p2, y, x) == cell_at(p1, y, x));
    assert(text_at(p2, y, x) == cell_text(cell_at(p1, y, x), p1.pool@));
    assert(cell_text(cell_at(p1, y, x), p1.pool@) == text_at(p1, y, x));
}

impl NcPlane {
    /// Resizes the grid in place. Cells at coordinates that exist before
    /// and after keep their content; newly exposed cells take the base
    /// cell; cells cut off are released, and a wide pair split by the new
    /// right edge is dropped wholly, leaving no orphaned half.
    ///
    /// Fails with a geometry error, changing nothing, when either new
    /// dimension is zero or above [`DIM_MAX`].
    pub fn resize(&mut self, rows: NcDim, cols: NcDim) -> (r: NcResult<()>)
        requires
            plane_wf(*old(self)),
        ensures
            plane_wf(*final(self)),
            (1 <= rows <= DIM_MAX && 1 <= cols <= DIM_MAX) <==> r is Ok,
            r matches Err(e) ==> e == NcError::Geometry && *final(self) == *old(self),
            r is Ok ==> resize_rel(*old(self), *final(self), rows, cols),
    {
        if rows < 1 || rows > DIM_MAX || cols < 1 || cols > DIM_MAX {
            return Err(NcError::Geometry);
        }
        let ghost p0 = *old(self);
        let mut ncells: Vec<NcCell> = Vec::new();
        let mut yy: NcDim = 0;
        while yy < rows
            invariant
                p0 == *old(self),
                *self == p0,
                plane_wf(p0),
                1 <= rows <= DIM_MAX,
                1 <= cols <= DIM_MAX,
                yy <= rows,
                ncells@.len() == yy * cols,
                forall|ry: int, rx: int|
                    0 <= ry < yy && 0 <= rx < cols ==> #[trigger] ncells@[gidx(
                        cols as int,
                        ry,
                        rx,
                    )] == resized_cell(p0, cols as int, ry, rx),
            decreases rows - yy,
        {
            let mut xx: NcDim = 0;
            proof {
                assert(yy * cols + cols <= rows * cols) by (nonlinear_arith)
                    requires yy < rows, cols >= 0,
                ;
                assert(rows * cols <= 0xFFFF * 0xFFFF) by (nonlinear_arith)
                    requires rows <= 0xFFFF, cols <= 0xFFFF,
                ;
            }
            while xx < cols
                invariant
                    p0 == *old(self),
                    *self == p0,
                    plane_wf(p0),
                    1 <= rows <= DIM_MAX,
                    1 <= cols <= DIM_MAX,
                    yy < rows,
                    xx <= cols,
                    yy * cols + cols <= rows * cols,
                    rows * cols <= 0xFFFF * 0xFFFF,
                    ncells@.len() == yy * cols + xx,
                    forall|ry: int, rx: int|
                        0 <= ry < yy && 0 <= rx < cols ==> #[trigger] ncells@[gidx(
                            cols as int,
                            ry,
                            rx,
                        )] == resized_cell(p0, cols as int, ry, rx),
                    forall|rx: int|
                        0 <= rx < xx ==> #[trigger] ncells@[gidx(cols as int, yy as int, rx)]
                            == resized_cell(p0, cols as int, yy as int, rx),
                decreases cols - xx,
            {
                let cellv: NcCell;
                if yy < self.rows && xx < self.cols {
                    let idx = grid_index(self.rows, self.cols, yy, xx);
                    let c = self.cells[idx];
                    if c.width == 2 && xx + 1 >= cols {
                        cellv = self.base;
                    } else {
                        cellv = c;
                    }
                } else {
                    cellv = self.base;
                }
                let ghost prev = ncells@;
                ncells.push(cellv);
                proof {
                    assert(ncells@.len() == yy * cols + xx + 1);
                    assert(cellv == resized_cell(p0, cols as int, yy as int, xx as int));
                    assert forall|ry: int, rx: int|
                        (0 <= ry < yy && 0 <= rx < cols) || (ry == yy && 0 <= rx < xx
                            + 1) implies #[trigger] ncells@[gidx(cols as int, ry, rx)]
                        == resized_cell(p0, cols as int, ry, rx) by {
                        lemma_gidx(rows as int, cols as int, ry, rx);
                        let i = gidx(cols as int, ry, rx);
                        if ry < yy {
                            assert(i < yy * cols) by (nonlinear_arith)
                                requires
                                    i == ry * cols + rx,
                                    0 <= ry < yy,
                                    0 <= rx < cols,
                                    cols >= 1,
                            ;
                            assert(i < prev.len());
                            assert(ncells@[i] == prev[i]);
                            assert(prev[i] == resized_cell(p0, cols as int, ry, rx));
                        } else if rx < xx {
                            assert(i == yy * cols + rx);
                            assert(i < prev.len());
                            assert(ncells@[i] == prev[i]);
                            assert(prev[i] == resized_cell(p0, cols as int, ry, rx));
                        } else {
                            assert(i == prev.len());
                            assert(ncells@[i] == cellv);
                        }
                    }
                }
                xx = xx + 1;
            }
            proof {
                assert((yy + 1) * cols == yy * cols + cols) by (nonlinear_arith);
            }
            yy = yy + 1;
        }
        let ghost kept = |ky: int, kx: int|
            0 <= ky < rows && 0 <= kx < cols && !(cell_at(p0, ky, kx).width == 2 && kx + 1
                >= cols);
        let mut fy: NcDim = 0;
        while fy < self.rows
            invariant
                p0 == *old(self),
                self.cells == p0.cells,
                self.rows == p0.rows && self.cols == p0.cols && self.base == p0.base
                    && self.scrolling == p0.scrolling && self.abs_y == p0.abs_y && self.abs_x
                    == p0.abs_x && self.attr_style == p0.attr_style && self.attr_channels
                    == p0.attr_channels,
                plane_wf(p0),
                1 <= rows <= DIM_MAX,
                1 <= cols <= DIM_MAX,
                fy <= p0.rows,
                self.pool@.len() == p0.pool@.len(),
                kept == (|ky: int, kx: int|
                    0 <= ky < rows && 0 <= kx < cols && !(cell_at(p0, ky, kx).width == 2 && kx
                        + 1 >= cols)),
                forall|ky: int, kx: int|
                    in_bounds(p0, ky, kx) && kept(ky, kx) && is_pool_ref(
                        #[trigger] cell_at(p0, ky, kx).gcluster,
                    ) ==> self.pool@[pool_index(cell_at(p0, ky, kx).gcluster)] == p0.pool@[pool_index(
                        cell_at(p0, ky, kx).gcluster,
                    )],
            decreases p0.rows - fy,
        {
            let mut fx: NcDim = 0;
            while fx < self.cols
                invariant
                    p0 == *old(self),
                    self.cells == p0.cells,
                    self.rows == p0.rows && self.cols == p0.cols && self.base == p0.base
                        && self.scrolling == p0.scrolling && self.abs_y == p0.abs_y && self.abs_x
                        == p0.abs_x && self.attr_style == p0.attr_style && self.attr_channels
                        == p0.attr_channels,
                    plane_wf(p0),
                    1 <= rows <= DIM_MAX,
                    1 <= cols <= DIM_MAX,
                    fy < p0.rows,
                    fx <= p0.cols,
                    self.pool@.len() == p0.pool@.len(),
                    kept == (|ky: int, kx: int|
                        0 <= ky < rows && 0 <= kx < cols && !(cell_at(p0, ky, kx).width == 2
                            && kx + 1 >= cols)),
                    forall|ky: int, kx: int|
                        in_bounds(p0, ky, kx) && kept(ky, kx) && is_pool_ref(
                            #[trigger] cell_at(p0, ky, kx).gcluster,
                        ) ==> self.pool@[pool_index(cell_at(p0, ky, kx).gcluster)]
                            == p0.pool@[pool_index(cell_at(p0, ky, kx).gcluster)],
                decreases p0.cols - fx,
            {
                let idx = grid_index(self.rows, self.cols, fy, fx);
                let c = self.cells[idx];
                let keep_it: bool = fy < rows && fx < cols && !(c.width == 2 && fx + 1 >= cols);
                if !keep_it {
                    proof {
                        assert(c == cell_at(p0, fy as int, fx as int));
                        assert(!kept(fy as int, fx as int));
                    }
                    pool_free(&mut self.pool, c.gcluster);
                    proof {
                        assert forall|ky: int, kx: int|
                            in_bounds(p0, ky, kx) && kept(ky, kx) && is_pool_ref(
                                #[trigger] cell_at(p0, ky, kx).gcluster,
                            ) implies self.pool@[pool_index(cell_at(p0, ky, kx).gcluster)]
                            == p0.pool@[pool_index(cell_at(p0, ky, kx).gcluster)] by {
                            if is_pool_ref(c.gcluster) {
                                assert((ky != fy || kx != fx));
                                assert(cell_at(p0, ky, kx).gcluster != c.gcluster);
                            }
                        }
                    }
                }
                fx = fx + 1;
            }
            fy = fy + 1;
        }
        let ghost pool1 = self.pool@;
        self.cells = ncells;
        self.rows = rows;
        self.cols = cols;
        proof {
            let p1 = *self;
            assert forall|y: int, x: int|
                0 <= y < rows && 0 <= x < cols implies #[trigger] cell_at(p1, y, x)
                == resized_cell(p0, cols as int, y, x) by {
                lemma_gidx(rows as int, cols as int, y, x);
            }
            assert forall|y: int, x: int|
                0 <= y < rows && 0 <= x < cols && is_pool_ref(
                    (#[trigger] cell_at(p1, y, x)).gcluster,
                ) implies pool_index(cell_at(p1, y, x).gcluster) < p1.pool@.len()
                && p1.pool@[pool_index(cell_at(p1, y, x).gcluster)] == p0.pool@[pool_index(
                cell_at(p1, y, x).gcluster,
            )] && p0.pool@[pool_index(cell_at(p1, y, x).gcluster)] is Some by {
                assert(cell_at(p1, y, x) == resized_cell(p0, cols as int, y, x));
                assert(!is_pool_ref(p0.base.gcluster));
                assert(in_bounds(p0, y, x));
                assert(cell_at(p1, y, x) == cell_at(p0, y, x));
                assert(kept(y, x));
                assert(cell_wf(cell_at(p0, y, x), p0.pool@));
            }
            assert forall|y: int, x: int|
                0 <= y < rows && 0 <= x < cols implies text_at(p1, y, x) == cell_text(
                resized_cell(p0, cols as int, y, x),
                p0.pool@,
            ) by {
                assert(cell_at(p1, y, x) == resized_cell(p0, cols as int, y, x));
            }
            assert(plane_cells_wf(p1)) by {
                assert forall|y: int, x: int|
                    in_bounds(p1, y, x) implies cell_wf(#[trigger] cell_at(p1, y, x), p1.pool@) by {
                    assert(cell_at(p1, y, x) == resized_cell(p0, cols as int, y, x));
                    if in_bounds(p0, y, x) {
                        assert(cell_wf(cell_at(p0, y, x), p0.pool@));
                    }
                    assert(cell_wf(p0.base, p0.pool@));
                }
                assert(cell_wf(p0.base, p1.pool@));
            }
            assert(plane_refs_injective(p1)) by {
                assert forall|y1: int, x1: int, y2: int, x2: int|
                    in_bounds(p1, y1, x1) && in_bounds(p1, y2, x2) && (y1 != y2 || x1 != x2)
                        && is_pool_ref(#[trigger] cell_at(p1, y1, x1).gcluster) && is_pool_ref(
                        #[trigger] cell_at(p1, y2, x2).gcluster,
                    ) implies cell_at(p1, y1, x1).gcluster != cell_at(p1, y2, x2).gcluster by {
                    assert(cell_at(p1, y1, x1) == resized_cell(p0, cols as int, y1, x1));
                    assert(cell_at(p1, y2, x2) == resized_cell(p0, cols as int, y2, x2));
                    assert(cell_at(p1, y1, x1) == cell_at(p0, y1, x1));
                    assert(cell_at(p1, y2, x2) == cell_at(p0, y2, x2));
                }
            }
            assert(plane_wide_wf(p1)) by {
                assert forall|y: int, x: int| in_bounds(p1, y, x) implies #[trigger] wide_ok(
                    p1,
                    y,
                    x,
                ) by {
                    assert(cell_at(p1, y, x) == resized_cell(p0, cols as int, y, x));
                    if cell_at(p1, y, x).width == 2 {
                        assert(in_bounds(p0, y, x));
                        assert(wide_ok(p0, y, x));
                        assert(x + 1 < cols);
                        assert(x + 1 < p0.cols);
                        assert(cell_at(p1, y, x + 1) == resized_cell(p0, cols as int, y, x + 1));
                        assert(cell_at(p0, y, x + 1).gcluster == WIDE_TAIL);
                        assert(cell_at(p0, y, x + 1).width == 0) by {
                            assert(cell_wf(cell_at(p0, y, x + 1), p0.pool@));
                        }
                        assert(cell_at(p1, y, x + 1) == cell_at(p0, y, x + 1));
                    }
                    if is_wide_tail(cell_at(p1, y, x).gcluster) {
                        assert(in_bounds(p0, y, x));
                        assert(wide_ok(p0, y, x));
                        assert(x >= 1);
                        assert(cell_at(p0, y, x - 1).width == 2);
                        assert(cell_at(p1, y, x - 1) == resized_cell(p0, cols as int, y, x - 1));
                        assert(x - 1 + 1 < cols);
                        assert(cell_at(p1, y, x - 1) == cell_at(p0, y, x - 1));
                    }
                }
            }
        }
        Ok(())
    }
}

/// Well-formedness only reads the grid, the pool, the dimensions, the
/// base cell and the write channels: a plane that agrees on those with a
/// well-formed one is well formed.
pub(crate) proof fn lemma_wf_cells_same(p0: NcPlane, p1: NcPlane)
    requires
        p1.cells == p0.cells,
        p1.pool == p0.pool,
        p1.rows == p0.rows,
        p1.cols == p0.cols,
        p1.base == p0.base,
        channels_wf(p1.attr_channels),
        plane_wf(p0),
    ensures
        plane_wf(p1),
{
    assert forall|y: int, x: int| in_bounds(p1, y, x) implies cell_wf(
        #[trigger] cell_at(p1, y, x),
        p1.pool@,
    ) by {
        assert(cell_at(p1, y, x) == cell_at(p0, y, x));
        assert(cell_wf(cell_at(p0, y, x), p0.pool@));
    }
    assert forall|y: int, x: int| in_bounds(p1, y, x) implies #[trigger] wide_ok(p1, y, x) by {
        assert(wide_ok(p0, y, x));
    }
    assert(plane_refs_injective(p1)) by {
        assert forall|y1: int, x1: int, y2: int, x2: int|
            in_bounds(p1, y1, x1) && in_bounds(p1, y2, x2) && (y1 != y2 || x1 != x2)
                && is_pool_ref(#[trigger] cell_at(p1, y1, x1).gcluster) && is_pool_ref(
                #[trigger] cell_at(p1, y2, x2).gcluster,
            ) implies cell_at(p1, y1, x1).gcluster != cell_at(p1, y2, x2).gcluster by {
            assert(cell_at(p1, y1, x1) == cell_at(p0, y1, x1));
            assert(cell_at(p1, y2, x2) == cell_at(p0, y2, x2));
        }
    }
}

/// A cell whose pool reference no grid cell shares keeps its slot, and
/// with it its text, across a slot clearing.
pub(crate) proof fn lemma_cell_ref_keeps(c: NcCell, p0: NcPlane, p1: NcPlane, y: int, x: int)
    requires
        plane_wf(p0),
        0 <= y < p0.rows,
        0 <= x < p0.cols,
        cell_wf(c, p0.pool@),
        is_pool_ref(c.gcluster) ==> forall|yy: int, xx: int|
            in_bounds(p0, yy, xx) ==> (#[trigger] cell_at(p0, yy, xx)).gcluster != c.gcluster,
        p1.pool@.len() == p0.pool@.len(),
        forall|j: int|
            0 <= j < p0.pool@.len() && p0.pool@[j] is Some && j != ref_of(cell_at(p0, y, x))
                && !(is_wide_tail(cell_at(p0, y, x).gcluster) && j == ref_of(
                cell_at(p0, y, x - 1),
            )) ==> p1.pool@[j] == p0.pool@[j],
        forall|yy: int, xx: int|
            in_bounds(p0, yy, xx) && !clear_touches(p0, y, x, yy, xx) ==> cell_at(p1, yy, xx)
                == cell_at(p0, yy, xx),
        p1.rows == p0.rows && p1.cols == p0.cols,
        cell_at(p1, y, x) == p0.base,
        cell_at(p0, y, x).width == 2 ==> cell_at(p1, y, x + 1) == p0.base,
        is_wide_tail(cell_at(p0, y, x).gcluster) ==> cell_at(p1, y, x - 1) == p0.base,
        !is_pool_ref(p0.base.gcluster),
    ensures
        cell_wf(c, p1.pool@),
        cell_text(c, p1.pool@) == cell_text(c, p0.pool@),
        is_pool_ref(c.gcluster) ==> forall|yy: int, xx: int|
            in_bounds(p1, yy, xx) ==> (#[trigger] cell_at(p1, yy, xx)).gcluster != c.gcluster,
{
    if is_pool_ref(c.gcluster) {
        assert(wide_ok(p0, y, x));
        assert(cell_at(p0, y, x).gcluster != c.gcluster);
        if is_wide_tail(cell_at(p0, y, x).gcluster) {
            assert(in_bounds(p0, y, x - 1));
            assert(cell_at(p0, y, x - 1).gcluster != c.gcluster);
        }
        assert(p1.pool@[pool_index(c.gcluster)] == p0.pool@[pool_index(c.gcluster)]);
        assert forall|yy: int, xx: int|
            in_bounds(p1, yy, xx) implies (#[trigger] cell_at(p1, yy, xx)).gcluster
            != c.gcluster by {
            if clear_touches(p0, y, x, yy, xx) {
                assert(cell_at(p1, yy, xx) == p0.base);
            } else {
                assert(cell_at(p1, yy, xx) == cell_at(p0, yy, xx));
            }
        }
    }
}

/// Does the pool still have room for another cluster: a free slot within
/// the addressable range, or space to grow?
pub open spec fn pool_has_room(pool: Seq<Option<String>>) -> bool {
    pool.len() < POOL_CAP || exists|j: int| 0 <= j < pool.len() && j < POOL_CAP && pool[j] is None
}

/// Frees the pool slot that `g` refers to, if it refers to one.
pub(crate) fn pool_free(pool: &mut Vec<Option<String>>, g: u32)
    ensures
        final(pool)@.len() == old(pool)@.len(),
        is_pool_ref(g) && pool_index(g) < old(pool)@.len() ==> final(pool)@ == old(pool)@.update(pool_index(g), None::<String>),
        !(is_pool_ref(g) && pool_index(g) < old(pool)@.len()) ==> final(pool)@ == old(pool)@,
{
    if g >= POOL_TAG && g < WIDE_TAIL {
        let idx = (g - POOL_TAG) as usize;
        if idx < pool.len() {
            pool[idx] = None;
            proof {
                assert(final(pool)@ =~= old(pool)@.update(pool_index(g), None::<String>));
            }
            return;
        }
    }
    proof {
        assert(final(pool)@ =~= old(pool)@);
    }
}

} // verus!
