//! The placement cursor: where the next tile goes.
//!
//! Tiles fill a square grid ring by ring. Ring `r` is the set of cells that
//! turns a filled `r * r` square into a filled `(r + 1) * (r + 1)` square:
//! first the `r` cells `(0, r) .. (r - 1, r)` along the top edge, then the
//! `r + 1` cells `(r, 0) .. (r, r)` down the right edge.

use vstd::prelude::*;

verus! {

/// The cursor as a pair of naturals.
pub struct CursorView {
    /// Side of the square that is entirely occupied, in cells.
    pub ring: nat,
    /// Cells of the current ring that are occupied.
    pub slot: nat,
}

impl CursorView {
    /// The cursor before the first placement.
    pub open spec fn start() -> Self {
        CursorView { ring: 0, slot: 0 }
    }

    /// The slot lies within the ring, which has `2 * ring + 1` cells.
    pub open spec fn wf(self) -> bool {
        self.slot <= 2 * self.ring
    }

    /// How many cells have been handed out so far.
    pub open spec fn placed(self) -> nat {
        self.ring * self.ring + self.slot
    }

    /// The grid cell that the cursor points at, as (column, row).
    pub open spec fn cell(self) -> (nat, nat) {
        if self.slot < self.ring {
            (self.slot, self.ring)
        } else {
            (self.ring, (self.slot - self.ring) as nat)
        }
    }

    /// The cursor after handing out its cell.
    pub open spec fn advance(self) -> Self {
        if self.slot + 1 >= 2 * self.ring + 1 {
            CursorView { ring: self.ring + 1, slot: 0 }
        } else {
            CursorView { ring: self.ring, slot: self.slot + 1 }
        }
    }

    /// The cursor after `n` placements.
    pub open spec fn after(n: nat) -> Self
        decreases n,
    {
        if n == 0 {
            Self::start()
        } else {
            Self::after((n - 1) as nat).advance()
        }
    }
}

/// Two tiles of `uw * uh` pixels with the given pixel origins share a pixel.
pub open spec fn tiles_overlap(a: (int, int), b: (int, int), uw: int, uh: int) -> bool {
    a.0 < b.0 + uw && b.0 < a.0 + uw && a.1 < b.1 + uh && b.1 < a.1 + uh
}

/// The pixel origin of a grid cell for tiles of `uw * uh` pixels.
pub open spec fn cell_origin(cell: (nat, nat), uw: nat, uh: nat) -> (int, int) {
    ((cell.0 * uw) as int, (cell.1 * uh) as int)
}

/// Advancing keeps the cursor well formed and hands out exactly one cell.
pub proof fn lemma_advance(c: CursorView)
    requires
        c.wf(),
    ensures
        c.advance().wf(),
        c.advance().placed() == c.placed() + 1,
{
    if c.slot + 1 >= 2 * c.ring + 1 {
        assert((c.ring + 1) * (c.ring + 1) == c.ring * c.ring + 2 * c.ring + 1)
            by (nonlinear_arith);
    }
}

/// After `n` placements the cursor is well formed and has handed out `n`
/// cells.
pub proof fn lemma_after(n: nat)
    ensures
        CursorView::after(n).wf(),
        CursorView::after(n).placed() == n,
    decreases n,
{
    if n > 0 {
        lemma_after((n - 1) as nat);
        lemma_advance(CursorView::after((n - 1) as nat));
    } else {
        assert(CursorView::start().placed() == 0) by (nonlinear_arith);
    }
}

/// The ring of a well-formed cursor is the integer square root of the number
/// of placements: `ring * ring <= placed < (ring + 1) * (ring + 1)`.
pub proof fn lemma_ring_bounds(c: CursorView)
    requires
        c.wf(),
    ensures
        c.ring * c.ring <= c.placed() < (c.ring + 1) * (c.ring + 1),
{
    assert((c.ring + 1) * (c.ring + 1) == c.ring * c.ring + 2 * c.ring + 1) by (nonlinear_arith);
}

/// Only one integer has its square at or below `n` and the square of its
/// successor above `n`.
pub proof fn lemma_root_unique(n: nat, s: nat, t: nat)
    requires
        s * s <= n < (s + 1) * (s + 1),
        t * t <= n < (t + 1) * (t + 1),
    ensures
        s == t,
{
    if s < t {
        assert((s + 1) * (s + 1) <= t * t) by (nonlinear_arith)
            requires
                s + 1 <= t,
        ;
    } else if t < s {
        assert((t + 1) * (t + 1) <= s * s) by (nonlinear_arith)
            requires
                t + 1 <= s,
        ;
    }
}

/// The number of placements determines the cursor: a well-formed cursor that
/// has handed out `n` cells is the cursor after `n` placements, and its ring
/// is the one integer `s` with `s * s <= n < (s + 1) * (s + 1)`.
pub proof fn lemma_cursor_of_count(c: CursorView, s: nat)
    requires
        c.wf(),
        s * s <= c.placed() < (s + 1) * (s + 1),
    ensures
        c.ring == s,
        c == CursorView::after(c.placed()),
{
    lemma_ring_bounds(c);
    lemma_root_unique(c.placed(), c.ring, s);
    let d = CursorView::after(c.placed());
    lemma_after(c.placed());
    lemma_ring_bounds(d);
    lemma_root_unique(c.placed(), c.ring, d.ring);
}

/// Different cursors point at different cells.
pub proof fn lemma_cells_distinct(a: CursorView, b: CursorView)
    requires
        a.wf(),
        b.wf(),
        a != b,
    ensures
        a.cell() != b.cell(),
{
}

/// No cell is handed out twice: the cells of two different placements
/// differ.
pub proof fn lemma_placements_distinct(i: nat, j: nat)
    requires
        i != j,
    ensures
        CursorView::after(i).cell() != CursorView::after(j).cell(),
{
    lemma_after(i);
    lemma_after(j);
    lemma_cells_distinct(CursorView::after(i), CursorView::after(j));
}

/// Tiles at different cells share no pixel.
pub proof fn lemma_cells_apart(a: (nat, nat), b: (nat, nat), uw: nat, uh: nat)
    requires
        a != b,
        uw > 0,
        uh > 0,
    ensures
        !tiles_overlap(cell_origin(a, uw, uh), cell_origin(b, uw, uh), uw as int, uh as int),
{
    if a.0 < b.0 {
        assert(a.0 * uw + uw <= b.0 * uw) by (nonlinear_arith)
            requires
                a.0 + 1 <= b.0,
        ;
    } else if b.0 < a.0 {
        assert(b.0 * uw + uw <= a.0 * uw) by (nonlinear_arith)
            requires
                b.0 + 1 <= a.0,
        ;
    } else if a.1 < b.1 {
        assert(a.1 * uh + uh <= b.1 * uh) by (nonlinear_arith)
            requires
                a.1 + 1 <= b.1,
        ;
    } else {
        assert(b.1 * uh + uh <= a.1 * uh) by (nonlinear_arith)
            requires
                b.1 + 1 <= a.1,
        ;
    }
}

/// The tiles of two different placements share no pixel.
pub proof fn lemma_placements_apart(i: nat, j: nat, uw: nat, uh: nat)
    requires
        i != j,
        uw > 0,
        uh > 0,
    ensures
        !tiles_overlap(
            cell_origin(CursorView::after(i).cell(), uw, uh),
            cell_origin(CursorView::after(j).cell(), uw, uh),
            uw as int,
            uh as int,
        ),
{
    lemma_placements_distinct(i, j);
    lemma_cells_apart(CursorView::after(i).cell(), CursorView::after(j).cell(), uw, uh);
}

/// The cell of a well-formed cursor lies within the square of side
/// `ring + 1`.
pub proof fn lemma_cell_in_ring(c: CursorView)
    requires
        c.wf(),
    ensures
        c.cell().0 <= c.ring,
        c.cell().1 <= c.ring,
{
}

/// The placement cursor.
#[derive(Clone, Copy, Debug)]
pub struct Cursor {
    /// Side of the square that is entirely occupied, in cells.
    pub ring: u32,
    /// Cells of the current ring that are occupied.
    pub slot: u32,
}

impl View for Cursor {
    type V = CursorView;

    open spec fn view(&self) -> CursorView {
        CursorView { ring: self.ring as nat, slot: self.slot as nat }
    }
}

impl Cursor {
    /// The cursor before the first placement.
    pub fn new() -> (c: Cursor)
        ensures
            c@ == CursorView::start(),
    {
        Cursor { ring: 0, slot: 0 }
    }

    /// The grid cell that the cursor points at, as (column, row).
    pub fn cell(&self) -> (cell: (u32, u32))
        requires
            self@.wf(),
        ensures
            cell.0 == self@.cell().0,
            cell.1 == self@.cell().1,
    {
        if self.slot < self.ring {
            (self.slot, self.ring)
        } else {
            (self.ring, self.slot - self.ring)
        }
    }

    /// Hands out the cell that the cursor points at and moves on to the
    /// next one.
    pub fn advance(&mut self) -> (cell: (u32, u32))
        requires
            old(self)@.wf(),
            2 * old(self).ring + 1 <= u32::MAX,
        ensures
            cell.0 == old(self)@.cell().0,
            cell.1 == old(self)@.cell().1,
            final(self)@ == old(self)@.advance(),
    {
        let cell = self.cell();
        self.slot = self.slot + 1;
        if self.slot >= self.ring * 2 + 1 {
            self.slot = 0;
            self.ring = self.ring + 1;
        }
        cell
    }
}

} // verus!
