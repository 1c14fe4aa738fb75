//! A single grid row backed by a vector of cells.
use vstd::prelude::*;
use crate::grid::cell::{Cell, cell_is_empty, default_cell, reset_cell};
use crate::index::Column;

verus! {

/// One row of terminal cells.
///
/// `occ` is one past the highest column that was written through
/// [`Row::cell_mut`]; it bounds the part of the row that `is_clear` inspects.
#[derive(Debug)]
pub struct Row {
    pub(crate) inner: Vec<Cell>,
    pub(crate) occ: usize,
}

/// A row of `n` blank cells.
pub open spec fn blank_cells(n: nat) -> Seq<Cell> {
    Seq::new(n, |i: int| default_cell())
}

impl Row {
    /// The cells of the row.
    pub closed spec fn view_cells(&self) -> Seq<Cell> {
        self.inner@
    }

    /// The occupation mark.
    pub closed spec fn occ_spec(&self) -> nat {
        self.occ as nat
    }

    /// Well-formedness: the occupation mark never exceeds the row's width.
    pub closed spec fn wf(&self) -> bool {
        self.occ <= self.inner.len()
    }

    /// A row of `columns` blank cells.
    pub fn new(columns: usize) -> (r: Row)
        ensures
            r.wf(),
            r.view_cells() == blank_cells(columns as nat),
            r.occ_spec() == 0,
    {
        let mut inner: Vec<Cell> = Vec::new();
        let mut i: usize = 0;
        while i < columns
            invariant
                i <= columns,
                inner@ == blank_cells(i as nat),
            decreases columns - i,
        {
            inner.push(Cell::blank());
            i = i + 1;
        }
        Row { inner, occ: 0 }
    }

    /// An empty row with no columns; used as a placeholder while moving rows.
    pub fn empty_row() -> (r: Row)
        ensures
            r.wf(),
            r.view_cells() == Seq::<Cell>::empty(),
    {
        Row { inner: Vec::new(), occ: 0 }
    }

    /// Grows the row to `columns` columns by appending blank cells; a wider
    /// row is left as it is.
    pub fn grow(&mut self, columns: usize)
        requires
            old(self).wf(),
        ensures
            final(self).wf(),
            final(self).occ_spec() == old(self).occ_spec(),
            columns > old(self).view_cells().len() ==> final(self).view_cells() == old(
                self,
            ).view_cells() + blank_cells((columns - old(self).view_cells().len()) as nat),
            columns <= old(self).view_cells().len() ==> final(self).view_cells() == old(
                self,
            ).view_cells(),
    {
        let ghost start = self.inner@;
        let ghost occ0 = self.occ;
        while self.inner.len() < columns
            invariant
                self.occ == occ0,
                occ0 <= start.len(),
                self.inner@.len() >= start.len(),
                self.inner@.len() <= (if columns > start.len() { columns as int } else { start.len() as int }),
                self.inner@ == start + blank_cells((self.inner@.len() - start.len()) as nat),
            decreases columns - self.inner.len(),
        {
            self.inner.push(Cell::blank());
            assert(self.inner@ =~= start + blank_cells((self.inner@.len() - start.len()) as nat));
        }
        proof {
            if columns <= start.len() {
                assert(self.inner@ =~= start);
            }
        }
    }

    /// Shrinks the row to `columns` columns and returns the removed cells; a
    /// row that is not wider is left as it is and an empty vector returned.
    pub fn shrink(&mut self, columns: usize) -> (excess: Vec<Cell>)
        requires
            old(self).wf(),
        ensures
            final(self).wf(),
            columns >= old(self).view_cells().len() ==> {
                &&& final(self).view_cells() == old(self).view_cells()
                &&& final(self).occ_spec() == old(self).occ_spec()
                &&& excess@.len() == 0
            },
            columns < old(self).view_cells().len() ==> {
                &&& final(self).view_cells() == old(self).view_cells().take(columns as int)
                &&& excess@ == old(self).view_cells().skip(columns as int)
                &&& final(self).occ_spec() == (if old(self).occ_spec() < columns {
                    old(self).occ_spec()
                } else {
                    columns as nat
                })
            },
    {
        if columns >= self.inner.len() {
            return Vec::new();
        }
        let excess = self.inner.split_off(columns);
        if self.occ > columns {
            self.occ = columns;
        }
        excess
    }

    /// Resets every cell to a blank carrying the template's colours.
    pub fn reset(&mut self, template: &Cell)
        requires
            old(self).wf(),
        ensures
            final(self).wf(),
            final(self).occ_spec() == 0,
            final(self).view_cells() == Seq::new(
                old(self).view_cells().len(),
                |i: int| reset_cell(*template),
            ),
    {
        let n = self.inner.len();
        let mut i: usize = 0;
        while i < n
            invariant
                n == self.inner.len(),
                i <= n,
                forall|j: int| 0 <= j < i ==> self.inner@[j] == reset_cell(*template),
            decreases n - i,
        {
            self.inner[i].reset(template);
            i = i + 1;
        }
        self.occ = 0;
        assert(self.inner@ =~= Seq::new(n as nat, |j: int| reset_cell(*template)));
    }

    /// `true` when every cell below the occupation mark is empty.
    pub fn is_clear(&self) -> (r: bool)
        requires
            self.wf(),
        ensures
            r == (forall|j: int|
                0 <= j < self.occ_spec() ==> cell_is_empty(#[trigger] self.view_cells()[j])),
    {
        let mut i: usize = 0;
        while i < self.occ
            invariant
                self.occ <= self.inner.len(),
                i <= self.occ,
                forall|j: int| 0 <= j < i ==> cell_is_empty(#[trigger] self.inner@[j]),
            decreases self.occ - i,
        {
            if !self.inner[i].is_empty() {
                assert(!cell_is_empty(self.view_cells()[i as int]));
                return false;
            }
            i = i + 1;
        }
        true
    }

    /// Number of columns in the row.
    pub fn len(&self) -> (r: usize)
        ensures
            r == self.view_cells().len(),
    {
        self.inner.len()
    }

    /// `true` when the row has no columns.
    pub fn is_empty(&self) -> (r: bool)
        ensures
            r == (self.view_cells().len() == 0),
    {
        self.inner.len() == 0
    }

    /// The occupation mark.
    pub fn occ(&self) -> (r: usize)
        ensures
            r == self.occ_spec(),
    {
        self.occ
    }

    /// All cells of the row.
    pub fn cells(&self) -> (r: &[Cell])
        ensures
            r@ == self.view_cells(),
    {
        self.inner.as_slice()
    }

    /// The cell at `col`.
    pub fn cell(&self, col: Column) -> (r: &Cell)
        requires
            col.0 < self.view_cells().len(),
        ensures
            *r == self.view_cells()[col.0 as int],
    {
        &self.inner[col.0]
    }

    /// Mutable access to the cell at `col`; raises the occupation mark past it.
    pub fn cell_mut(&mut self, col: Column) -> (r: &mut Cell)
        requires
            old(self).wf(),
            col.0 < old(self).view_cells().len(),
        ensures
            *r == old(self).view_cells()[col.0 as int],
            final(self).wf(),
            final(self).view_cells() == old(self).view_cells().update(col.0 as int, *final(r)),
            final(self).occ_spec() == (if col.0 >= old(self).occ_spec() {
                col.0 + 1
            } else {
                old(self).occ_spec() as int
            }),
    {
        if col.0 >= self.occ {
            self.occ = col.0 + 1;
        }
        &mut self.inner[col.0]
    }

    /// Replaces the cell at `col`, raising the occupation mark past it.
    pub fn set_cell(&mut self, col: Column, cell: Cell)
        requires
            old(self).wf(),
            col.0 < old(self).view_cells().len(),
        ensures
            final(self).wf(),
            final(self).view_cells() == old(self).view_cells().update(col.0 as int, cell),
            final(self).occ_spec() == (if col.0 >= old(self).occ_spec() {
                col.0 + 1
            } else {
                old(self).occ_spec() as int
            }),
    {
        if col.0 >= self.occ {
            self.occ = col.0 + 1;
        }
        self.inner.set(col.0, cell);
    }
}

} // verus!

verus! {

/// `new` is `old` reset with `template`: same width, every cell a blank with
/// the template's colours, occupation mark cleared.
pub open spec fn is_reset_of(new: Row, old: Row, template: Cell) -> bool {
    &&& new.wf()
    &&& new.occ_spec() == 0
    &&& new.view_cells() == Seq::new(old.view_cells().len(), |i: int| reset_cell(template))
}

} // verus!
