//! Ring-buffer storage for grid rows.
//!
//! Scrolling is O(1): only the `zero` offset moves. Logical row `i` lives at
//! physical index `(zero + i) % inner.len()`.
use vstd::prelude::*;
use vstd::arithmetic::div_mod::{
    lemma_add_mod_noop_right, lemma_mod_bound, lemma_mod_multiples_vanish,
    lemma_mod_sub_multiples_vanish, lemma_small_mod, lemma_fundamental_div_mod, lemma_mod_self_0,
    lemma_mod_add_multiples_vanish,
};
use crate::grid::cell::{Cell, reset_cell};
use crate::grid::row::{Row, blank_cells, is_reset_of};

verus! {

/// When `inner.len() > visible_lines + MAX_CACHE_SIZE`, `truncate()` releases
/// the excess rows.
pub const MAX_CACHE_SIZE: usize = 1000;

/// The cells of a fresh row of `columns` cells carrying `template`'s colours.
pub open spec fn template_cells(columns: nat, template: Cell) -> Seq<Cell> {
    Seq::new(columns, |k: int| reset_cell(template))
}

/// Ring-buffer storage for rows.
///
/// `len` is the number of rows in logical use (viewport + history); it may
/// exceed `inner.len()`, in which case logical rows share physical rows.
#[derive(Debug)]
pub struct Storage {
    /// Physical rows.
    pub inner: Vec<Row>,
    /// Physical index of logical row 0.
    pub zero: usize,
    /// Number of viewport rows.
    pub visible_lines: usize,
    /// Number of rows in logical use.
    pub len: usize,
}

/// `(-a) mod n` expressed through `a mod n`.
proof fn lemma_neg_mod(a: int, n: int)
    requires
        a >= 0,
        n > 0,
    ensures
        (-a) % n == (if a % n == 0 { 0 } else { n - a % n }),
{
    lemma_fundamental_div_mod(a, n);
    let q = a / n;
    let r = a % n;
    lemma_mod_bound(a, n);
    assert(-a == n * (-q) + (-r)) by (nonlinear_arith)
        requires
            a == n * q + r,
    ;
    lemma_mod_multiples_vanish(-q, -r, n);
    assert((-a) % n == (-r) % n);
    if r == 0 {
        lemma_small_mod(0, n as nat);
    } else {
        lemma_mod_sub_multiples_vanish(n - r, n);
        assert(-n + (n - r) == -r);
        lemma_small_mod((n - r) as nat, n as nat);
        assert((-r) % n == (n - r) % n);
    }
}

/// Shifting a ring offset by `a` and then by `b` is shifting it by `a + b`.
pub proof fn lemma_shift_compose(zero: int, a: int, b: int, n: int)
    requires
        n > 0,
    ensures
        (((zero + a) % n) + b) % n == (zero + a + b) % n,
{
    lemma_add_mod_noop_right(b, zero + a, n);
}

impl Storage {
    /// Physical index of logical row `logical`.
    pub open spec fn phys(&self, logical: int) -> int {
        (self.zero + logical) % (self.inner@.len() as int)
    }

    /// The row that logical index `logical` denotes.
    pub open spec fn row_at(&self, logical: int) -> Row {
        self.inner@[self.phys(logical)]
    }

    /// Ring-buffer well-formedness.
    pub open spec fn wf(&self) -> bool {
        &&& (self.inner@.len() == 0 ==> self.zero == 0)
        &&& (self.inner@.len() > 0 ==> self.zero < self.inner@.len())
        &&& forall|i: int| 0 <= i < self.inner@.len() ==> (#[trigger] self.inner@[i]).wf()
        &&& self.visible_lines <= self.len
    }

    /// Every physical row has exactly `columns` cells.
    pub open spec fn rows_exactly(&self, columns: nat) -> bool {
        forall|i: int|
            0 <= i < self.inner@.len() ==> (#[trigger] self.inner@[i]).view_cells().len()
                == columns
    }

    /// A storage of `visible_lines` blank rows of `columns` cells.
    pub fn new(visible_lines: usize, columns: usize) -> (s: Storage)
        ensures
            s.wf(),
            s.zero == 0,
            s.len == visible_lines,
            s.visible_lines == visible_lines,
            s.inner@.len() == visible_lines,
            forall|i: int|
                0 <= i < visible_lines ==> (#[trigger] s.inner@[i]).view_cells() == blank_cells(
                    columns as nat,
                ),
    {
        let mut inner: Vec<Row> = Vec::new();
        let mut i: usize = 0;
        while i < visible_lines
            invariant
                i <= visible_lines,
                inner@.len() == i,
                forall|j: int|
                    0 <= j < i ==> (#[trigger] inner@[j]).wf() && inner@[j].view_cells()
                        == blank_cells(columns as nat),
            decreases visible_lines - i,
        {
            inner.push(Row::new(columns));
            i = i + 1;
        }
        Storage { inner, zero: 0, visible_lines, len: visible_lines }
    }

    /// Number of rows in logical use.
    pub fn len(&self) -> (r: usize)
        ensures
            r == self.len,
    {
        self.len
    }

    /// `true` when no rows are in logical use.
    pub fn is_empty(&self) -> (r: bool)
        ensures
            r == (self.len == 0),
    {
        self.len == 0
    }

    /// Number of physically allocated rows.
    pub fn physical_len(&self) -> (r: usize)
        ensures
            r == self.inner@.len(),
    {
        self.inner.len()
    }

    /// Physical index of logical row `logical`.
    pub fn compute_index(&self, logical: usize) -> (r: usize)
        requires
            self.wf(),
            self.inner@.len() > 0,
        ensures
            r == self.phys(logical as int),
            r < self.inner@.len(),
    {
        let n = self.inner.len();
        let l = logical % n;
        proof {
            lemma_add_mod_noop_right(self.zero as int, logical as int, n as int);
            lemma_mod_bound(logical as int, n as int);
        }
        let d = n - self.zero;
        let r = if l >= d { l - d } else { self.zero + l };
        proof {
            if l >= d {
                lemma_mod_sub_multiples_vanish(self.zero + l, n as int);
                lemma_small_mod((self.zero + l - n) as nat, n as nat);
            } else {
                lemma_small_mod((self.zero + l) as nat, n as nat);
            }
        }
        r
    }

    /// Rotates the ring by `count` positions (positive = forward): logical
    /// row `i` afterwards is the row that was logical row `i + count`.
    pub fn rotate(&mut self, count: isize)
        requires
            old(self).wf(),
            old(self).inner@.len() > 0,
        ensures
            final(self).wf(),
            rotated(*final(self), *old(self), count as int),
            forall|i: int| #[trigger] final(self).row_at(i) == old(self).row_at(i + (count as int)),
    {
        let n = self.inner.len();
        let shift: usize;
        if count >= 0 {
            shift = (count as usize) % n;
        } else {
            let a: usize = (-(count as i128)) as usize;
            let m = a % n;
            shift = if m == 0 { 0 } else { n - m };
            proof {
                lemma_neg_mod(a as int, n as int);
            }
        }
        assert(shift as int == (count as int) % (n as int));
        proof {
            lemma_mod_bound(count as int, n as int);
        }
        let ghost old_self = *self;
        self.rotate_forward(shift);
        proof {
            lemma_add_mod_noop_right(old_self.zero as int, count as int, n as int);
            assert forall|i: int| #[trigger] self.row_at(i) == old_self.row_at(i + (count as int)) by {
                assert(self.row_at(i) == old_self.row_at(i + shift));
                lemma_add_mod_noop_right(old_self.zero + i, count as int, n as int);
                lemma_add_mod_noop_right(old_self.zero + i, shift as int, n as int);
                assert(old_self.zero + i + count == (old_self.zero + i) + count);
            }
        }
    }

    /// Rotates the ring forward by `count` positions: logical row `i`
    /// afterwards is the row that was logical row `i + count`.
    pub fn rotate_forward(&mut self, count: usize)
        requires
            old(self).wf(),
            old(self).inner@.len() > 0,
        ensures
            final(self).wf(),
            rotated(*final(self), *old(self), count as int),
            forall|i: int| #[trigger] final(self).row_at(i) == old(self).row_at(i + count),
    {
        let n = self.inner.len();
        let shift = count % n;
        proof {
            lemma_mod_bound(count as int, n as int);
        }
        let d = n - self.zero;
        let z = if shift >= d { shift - d } else { self.zero + shift };
        proof {
            lemma_add_mod_noop_right(self.zero as int, count as int, n as int);
            if shift >= d {
                lemma_mod_sub_multiples_vanish(self.zero + shift, n as int);
                lemma_small_mod((self.zero + shift - n) as nat, n as nat);
            } else {
                lemma_small_mod((self.zero + shift) as nat, n as nat);
            }
        }
        let ghost old_self = *self;
        self.zero = z;
        assert forall|i: int| #[trigger] self.row_at(i) == old_self.row_at(i + count) by {
            lemma_shift_compose(old_self.zero as int, count as int, i, n as int);
        }
    }

    /// Takes the physical row at `idx`, leaving an empty placeholder.
    pub fn take_row_at(&mut self, idx: usize) -> (r: Row)
        requires
            idx < old(self).inner@.len(),
        ensures
            r == old(self).inner@[idx as int],
            final(self).inner@ == old(self).inner@.update(idx as int, final(self).inner@[idx as int]),
            final(self).inner@[idx as int].wf(),
            final(self).inner@[idx as int].view_cells().len() == 0,
            final(self).zero == old(self).zero,
            final(self).len == old(self).len,
            final(self).visible_lines == old(self).visible_lines,
    {
        self.take_row(idx)
    }

    /// Takes the physical row at `idx`, leaving an empty placeholder.
    fn take_row(&mut self, idx: usize) -> (r: Row)
        requires
            idx < old(self).inner@.len(),
        ensures
            r == old(self).inner@[idx as int],
            final(self).inner@ == old(self).inner@.update(idx as int, final(self).inner@[idx as int]),
            final(self).inner@[idx as int].wf(),
            final(self).inner@[idx as int].view_cells().len() == 0,
            final(self).zero == old(self).zero,
            final(self).len == old(self).len,
            final(self).visible_lines == old(self).visible_lines,
    {
        let mut out = Row::empty_row();
        std::mem::swap(&mut self.inner[idx], &mut out);
        out
    }

    /// Swaps two logical rows.
    pub fn swap(&mut self, a: usize, b: usize)
        requires
            old(self).wf(),
            old(self).inner@.len() > 0,
        ensures
            final(self).wf(),
            swapped(*final(self), *old(self), a as int, b as int),
    {
        let pa = self.compute_index(a);
        let pb = self.compute_index(b);
        let ghost before = self.inner@;
        if pa != pb {
            let ra = self.take_row(pa);
            let rb = self.take_row(pb);
            self.inner.set(pa, rb);
            self.inner.set(pb, ra);
        }
        assert(self.inner@ =~= before.update(pa as int, before[pb as int]).update(
            pb as int,
            before[pa as int],
        ));
    }

    /// The window offset, from logical `from`, of the physical row of
    /// logical `i`, both below the physical length.
    pub proof fn lemma_woff_logical(&self, i: int, from: int)
        requires
            self.inner@.len() > 0,
            0 <= i < self.inner@.len(),
            0 <= from <= self.inner@.len(),
        ensures
            self.woff(self.phys(i), from) == if from <= i { i - from } else { self.inner@.len() + i - from },
    {
        let n = self.inner@.len() as int;
        self.lemma_woff_shift(0, i, from);
        assert(self.phys(0 + i) == self.phys(i));
        if from <= i {
            lemma_small_mod((i - from) as nat, n as nat);
        } else {
            lemma_mod_add_multiples_vanish(i - from, n);
            lemma_small_mod((n + i - from) as nat, n as nat);
        }
    }

    /// Distinct logical rows below the physical length live in distinct
    /// physical rows.
    pub proof fn lemma_phys_injective(&self, a: int, b: int)
        requires
            self.inner@.len() > 0,
            0 <= a < self.inner@.len(),
            0 <= b < self.inner@.len(),
            a != b,
        ensures
            self.phys(a) != self.phys(b),
            0 <= self.phys(a) < self.inner@.len(),
    {
        self.lemma_woff_phys(0, a);
        self.lemma_woff_phys(0, b);
        lemma_mod_bound(self.zero + a, self.inner@.len() as int);
    }

    /// Makes rows `len .. len + additional` available as fresh rows of
    /// `columns` cells carrying the template's colours. Spare cached rows are
    /// used first; when they run short, the ring is first laid out from
    /// physical row 0 and fresh rows are appended. Rows in use keep their
    /// logical place.
    pub fn initialize(&mut self, additional: usize, columns: usize, template: &Cell)
        requires
            old(self).wf(),
            old(self).len + additional <= usize::MAX,
            old(self).len <= old(self).inner@.len(),
        ensures
            final(self).wf(),
            final(self).len == old(self).len,
            final(self).visible_lines == old(self).visible_lines,
            final(self).inner@.len() == (if old(self).len + additional <= old(self).inner@.len() {
                old(self).inner@.len() as int
            } else {
                old(self).len + additional
            }),
            forall|i: int| 0 <= i < old(self).len ==> #[trigger] final(self).row_at(i) == old(self).row_at(i),
            forall|j: int|
                0 <= j < additional ==> #[trigger] final(self).row_at(old(self).len + j).view_cells() == template_cells(
                    columns as nat,
                    *template,
                ),
            old(self).rows_exactly(columns as nat) ==> final(self).rows_exactly(columns as nat),
    {
        let ghost orig = *self;
        if self.len + additional > self.inner.len() {
            self.rezero();
            let ghost rz = *self;
            let need = self.len + additional - self.inner.len();
            let mut k: usize = 0;
            while k < need
                invariant
                    self.wf(),
                    self.zero == 0,
                    self.len == orig.len,
                    self.visible_lines == orig.visible_lines,
                    rz.zero == 0,
                    rz.inner@.len() == orig.inner@.len(),
                    self.inner@.len() == rz.inner@.len() + k,
                    k <= need,
                    need == orig.len + additional - orig.inner@.len(),
                    forall|p: int| 0 <= p < rz.inner@.len() ==> #[trigger] self.inner@[p] == rz.inner@[p],
                    forall|p: int| rz.inner@.len() <= p < self.inner@.len() ==> (#[trigger] self.inner@[p]).view_cells().len() == columns,
                decreases need - k,
            {
                let ghost before = self.inner@;
                self.inner.push(Row::new(columns));
                proof {
                    assert forall|i: int| 0 <= i < self.inner@.len() implies (#[trigger] self.inner@[i]).wf() by {
                        if i < before.len() {
                            assert(self.inner@[i] == before[i]);
                        }
                    }
                }
                k = k + 1;
            }
            proof {
                let n2 = self.inner@.len();
                assert forall|i: int| 0 <= i < orig.len implies #[trigger] self.row_at(i) == orig.row_at(i) by {
                    lemma_small_mod(i as nat, n2);
                    assert(self.inner@[i] == rz.inner@[i]);
                }
                if orig.rows_exactly(columns as nat) {
                    assert forall|p: int| 0 <= p < self.inner@.len() implies (#[trigger] self.inner@[p]).view_cells().len() == columns by {
                        if p < rz.inner@.len() {
                            assert(self.inner@[p] == rz.inner@[p]);
                            assert(rz.inner@[p] == orig.row_at(p));
                            lemma_mod_bound(orig.zero + p, orig.inner@.len() as int);
                        }
                    }
                }
            }
        }
        let ghost mid = *self;
        let mut j: usize = 0;
        while j < additional
            invariant
                self.wf(),
                mid.wf(),
                self.zero == mid.zero,
                self.len == orig.len,
                mid.len == orig.len,
                self.visible_lines == orig.visible_lines,
                self.inner@.len() == mid.inner@.len(),
                orig.len + additional <= mid.inner@.len(),
                orig.len + additional <= usize::MAX,
                j <= additional,
                forall|i: int| 0 <= i < orig.len ==> #[trigger] self.row_at(i) == mid.row_at(i),
                forall|k: int| 0 <= k < j ==> #[trigger] self.row_at(orig.len + k).view_cells() == template_cells(
                    columns as nat,
                    *template,
                ),
                forall|p: int|
                    0 <= p < self.inner@.len() ==> (#[trigger] self.inner@[p]).view_cells().len() == columns
                        || self.inner@[p] == mid.inner@[p],
            decreases additional - j,
        {
            let mut row = Row::new(columns);
            row.reset(template);
            let ghost before = *self;
            self.set_row(self.len + j, row);
            proof {
                let t = orig.len + j;
                assert(row.view_cells() =~= template_cells(columns as nat, *template));
                assert forall|i: int| 0 <= i < orig.len implies #[trigger] self.row_at(i) == mid.row_at(i) by {
                    before.lemma_phys_injective(i, t);
                    assert(self.phys(i) == before.phys(i));
                    assert(self.inner@[before.phys(i)] == before.inner@[before.phys(i)]);
                    assert(before.row_at(i) == mid.row_at(i));
                }
                assert forall|k: int| 0 <= k < j + 1 implies #[trigger] self.row_at(orig.len + k).view_cells() == template_cells(
                    columns as nat,
                    *template,
                ) by {
                    lemma_mod_bound(before.zero + t, before.inner@.len() as int);
                    if k < j {
                        before.lemma_phys_injective(orig.len + k, t);
                        assert(self.inner@[before.phys(orig.len + k)] == before.inner@[before.phys(orig.len + k)]);
                        assert(self.phys(orig.len + k) == before.phys(orig.len + k));
                        assert(before.row_at(orig.len + k).view_cells() == template_cells(columns as nat, *template));
                    } else {
                        assert(self.phys(t) == before.phys(t));
                        assert(self.row_at(t) == row);
                        assert(row.view_cells() == template_cells(columns as nat, *template));
                    }
                }
                assert forall|p: int| 0 <= p < self.inner@.len() implies (#[trigger] self.inner@[p]).view_cells().len() == columns
                    || self.inner@[p] == mid.inner@[p] by {
                    if p != before.phys(t) {
                        assert(self.inner@[p] == before.inner@[p]);
                    }
                }
            }
            j = j + 1;
        }
    }

    /// Adds `lines_added` viewport rows at the bottom: fresh rows of
    /// `columns` cells carrying the template's colours.
    pub fn grow_visible(&mut self, lines_added: usize, columns: usize, template: &Cell)
        requires
            old(self).wf(),
            old(self).len + lines_added <= usize::MAX,
            old(self).len <= old(self).inner@.len(),
        ensures
            final(self).wf(),
            final(self).visible_lines == old(self).visible_lines + lines_added,
            final(self).len == old(self).len + lines_added,
            final(self).len <= final(self).inner@.len(),
            final(self).inner@.len() == (if old(self).len + lines_added <= old(self).inner@.len() {
                old(self).inner@.len() as int
            } else {
                old(self).len + lines_added
            }),
            forall|i: int| 0 <= i < old(self).len ==> #[trigger] final(self).row_at(i) == old(self).row_at(i),
            forall|j: int|
                0 <= j < lines_added ==> #[trigger] final(self).row_at(old(self).len + j).view_cells() == template_cells(
                    columns as nat,
                    *template,
                ),
            old(self).rows_exactly(columns as nat) ==> final(self).rows_exactly(columns as nat),
    {
        self.initialize(lines_added, columns, template);
        let ghost mid = *self;
        self.visible_lines = self.visible_lines + lines_added;
        self.len = self.len + lines_added;
        proof {
            assert forall|i: int| #[trigger] self.row_at(i) == mid.row_at(i) by {}
        }
    }

    /// Removes up to `lines_removed` viewport rows; the rows stay allocated.
    pub fn shrink_visible(&mut self, lines_removed: usize)
        requires
            old(self).wf(),
        ensures
            final(self).wf(),
            final(self).inner@ == old(self).inner@,
            final(self).zero == old(self).zero,
            final(self).visible_lines == old(self).visible_lines - (if lines_removed
                < old(self).visible_lines {
                lines_removed as int
            } else {
                old(self).visible_lines as int
            }),
            final(self).len == old(self).len - (if lines_removed < old(self).visible_lines {
                lines_removed as int
            } else {
                old(self).visible_lines as int
            }),
    {
        let removed = if lines_removed < self.visible_lines {
            lines_removed
        } else {
            self.visible_lines
        };
        self.visible_lines = self.visible_lines - removed;
        self.len = self.len - removed;
    }

    /// Moves the rows so that logical row 0 sits at physical index 0.
    fn rezero(&mut self)
        requires
            old(self).wf(),
        ensures
            final(self).wf(),
            final(self).zero == 0,
            final(self).len == old(self).len,
            final(self).visible_lines == old(self).visible_lines,
            final(self).inner@.len() == old(self).inner@.len(),
            forall|i: int|
                0 <= i < old(self).inner@.len() ==> #[trigger] final(self).inner@[i] == old(
                    self,
                ).row_at(i),
    {
        if self.zero == 0 {
            proof {
                assert forall|i: int| 0 <= i < old(self).inner@.len() implies #[trigger] self.inner@[i]
                    == old(self).row_at(i) by {
                    lemma_small_mod(i as nat, self.inner@.len());
                }
            }
            return;
        }
        let n = self.inner.len();
        let z = self.zero;
        let mut head: Vec<Row> = Vec::new();
        std::mem::swap(&mut self.inner, &mut head);
        let ghost all = head@;
        let mut tail = head.split_off(z);
        tail.append(&mut head);
        self.inner = tail;
        self.zero = 0;
        proof {
            assert(self.inner@ =~= all.skip(z as int) + all.take(z as int));
            assert forall|i: int| 0 <= i < n implies #[trigger] self.inner@[i] == old(self).row_at(i) by {
                if i < n - z {
                    lemma_small_mod((z + i) as nat, n as nat);
                } else {
                    lemma_mod_sub_multiples_vanish(z + i, n as int);
                    lemma_small_mod((z + i - n) as nat, n as nat);
                }
            }
            assert forall|i: int| 0 <= i < self.inner@.len() implies (#[trigger] self.inner@[i]).wf() by {
                assert(self.inner@[i] == old(self).row_at(i));
                lemma_mod_bound(z + i, n as int);
            }
        }
    }

    /// Releases memory when more than `visible_lines + MAX_CACHE_SIZE`
    /// physical rows are held: the ring is laid out from physical row 0 and
    /// only its first `min(len, visible_lines + MAX_CACHE_SIZE)` rows are
    /// kept, the logical length capped at the rows kept.
    pub fn truncate(&mut self)
        requires
            old(self).wf(),
            old(self).visible_lines + MAX_CACHE_SIZE <= usize::MAX,
        ensures
            final(self).wf(),
            final(self).visible_lines == old(self).visible_lines,
            old(self).inner@.len() <= old(self).visible_lines + MAX_CACHE_SIZE ==> *final(self)
                == *old(self),
            old(self).inner@.len() > old(self).visible_lines + MAX_CACHE_SIZE ==> {
                let keep = if old(self).len < old(self).visible_lines + MAX_CACHE_SIZE {
                    old(self).len as int
                } else {
                    old(self).visible_lines + MAX_CACHE_SIZE
                };
                &&& final(self).zero == 0
                &&& final(self).inner@.len() == keep
                &&& final(self).len == keep
                &&& forall|i: int| 0 <= i < keep ==> #[trigger] final(self).inner@[i] == old(self).row_at(i)
            },
    {
        let max_len = self.visible_lines + MAX_CACHE_SIZE;
        if self.inner.len() <= max_len {
            return;
        }
        self.rezero();
        let keep = if self.len < max_len { self.len } else { max_len };
        self.inner.truncate(keep);
        if self.inner.len() < self.len {
            self.len = self.inner.len();
        }
    }

    /// The row at logical index `logical`.
    pub fn row(&self, logical: usize) -> (r: &Row)
        requires
            self.wf(),
            self.inner@.len() > 0,
        ensures
            *r == self.row_at(logical as int),
    {
        let p = self.compute_index(logical);
        &self.inner[p]
    }

    /// Replaces the row at logical index `logical`.
    pub fn set_row(&mut self, logical: usize, row: Row)
        requires
            old(self).wf(),
            old(self).inner@.len() > 0,
            row.wf(),
        ensures
            final(self).wf(),
            final(self).zero == old(self).zero,
            final(self).len == old(self).len,
            final(self).visible_lines == old(self).visible_lines,
            final(self).inner@ == old(self).inner@.update(old(self).phys(logical as int), row),
    {
        let p = self.compute_index(logical);
        self.inner.set(p, row);
    }

    /// Takes the row at logical index `logical` out, leaving an empty row.
    pub fn take_logical(&mut self, logical: usize) -> (r: Row)
        requires
            old(self).wf(),
            old(self).inner@.len() > 0,
        ensures
            r == old(self).row_at(logical as int),
            final(self).wf(),
            final(self).zero == old(self).zero,
            final(self).len == old(self).len,
            final(self).visible_lines == old(self).visible_lines,
            final(self).inner@ == old(self).inner@.update(old(self).phys(logical as int), final(self).inner@[old(self).phys(logical as int)]),
            final(self).inner@[old(self).phys(logical as int)].view_cells().len() == 0,
    {
        let p = self.compute_index(logical);
        let r = self.take_row(p);
        proof {
            assert forall|i: int| 0 <= i < self.inner@.len() implies (#[trigger] self.inner@[i]).wf() by {
                if i != p {
                    assert(self.inner@[i] == old(self).inner@[i]);
                }
            }
        }
        r
    }
}


impl Storage {
    /// Offset of physical row `p` within the window of logical rows that
    /// starts at `from`.
    pub open spec fn woff(&self, p: int, from: int) -> int {
        (p - self.zero - from) % (self.inner@.len() as int)
    }

    /// The window offset of the physical row of logical `from + k` is `k`.
    pub proof fn lemma_woff_phys(&self, from: int, k: int)
        requires
            self.inner@.len() > 0,
            0 <= k < self.inner@.len(),
        ensures
            self.woff(self.phys(from + k), from) == k,
    {
        let n = self.inner@.len() as int;
        lemma_add_mod_noop_right(-self.zero - from, self.zero + from + k, n);
        assert(-self.zero - from + (self.zero + from + k) == k);
        lemma_small_mod(k as nat, n as nat);
    }

    /// Physical row `p` is the row of logical `from + woff(p, from)`.
    pub proof fn lemma_phys_woff(&self, from: int, p: int)
        requires
            self.inner@.len() > 0,
            0 <= p < self.inner@.len(),
        ensures
            self.phys(from + self.woff(p, from)) == p,
            0 <= self.woff(p, from) < self.inner@.len(),
    {
        let n = self.inner@.len() as int;
        lemma_add_mod_noop_right(self.zero + from, p - self.zero - from, n);
        assert(self.zero + from + (p - self.zero - from) == p);
        lemma_small_mod(p as nat, n as nat);
        lemma_mod_bound(p - self.zero - from, n);
    }

    /// Resets the `count` logical rows starting at `from` with `template`.
    pub fn reset_window(&mut self, from: usize, count: usize, template: &Cell)
        requires
            old(self).wf(),
            old(self).inner@.len() > 0,
            count <= old(self).inner@.len(),
            from + count <= usize::MAX,
        ensures
            final(self).wf(),
            final(self).zero == old(self).zero,
            final(self).len == old(self).len,
            final(self).visible_lines == old(self).visible_lines,
            final(self).inner@.len() == old(self).inner@.len(),
            forall|p: int|
                0 <= p < old(self).inner@.len() ==> if old(self).woff(p, from as int) < count {
                    is_reset_of(#[trigger] final(self).inner@[p], old(self).inner@[p], *template)
                } else {
                    final(self).inner@[p] == old(self).inner@[p]
                },
    {
        let ghost orig = *self;
        let mut i: usize = 0;
        while i < count
            invariant
                self.wf(),
                self.zero == orig.zero,
                self.len == orig.len,
                self.visible_lines == orig.visible_lines,
                self.inner@.len() == orig.inner@.len(),
                orig.inner@.len() > 0,
                count <= orig.inner@.len(),
                from + count <= usize::MAX,
                i <= count,
                forall|p: int|
                    0 <= p < orig.inner@.len() ==> if orig.woff(p, from as int) < i {
                        is_reset_of(#[trigger] self.inner@[p], orig.inner@[p], *template)
                    } else {
                        self.inner@[p] == orig.inner@[p]
                    },
            decreases count - i,
        {
            let ghost before = self.inner@;
            let mut row = self.take_logical(from + i);
            let ghost pi = orig.phys(from + i);
            proof {
                orig.lemma_woff_phys(from as int, i as int);
                assert(self.phys((from + i) as int) == pi);
            }
            row.reset(template);
            self.set_row(from + i, row);
            proof {
                assert forall|p: int| 0 <= p < orig.inner@.len() implies if orig.woff(p, from as int) < i + 1 {
                    is_reset_of(#[trigger] self.inner@[p], orig.inner@[p], *template)
                } else {
                    self.inner@[p] == orig.inner@[p]
                } by {
                    orig.lemma_phys_woff(from as int, p);
                    if p != pi {
                        assert(self.inner@[p] == before[p]);
                        if orig.woff(p, from as int) == i {
                            assert(orig.phys(from + i) == p);
                        }
                    }
                }
                assert forall|q: int| 0 <= q < self.inner@.len() implies (#[trigger] self.inner@[q]).wf() by {
                    if q != pi {
                        assert(self.inner@[q] == before[q]);
                    }
                }
            }
            i = i + 1;
        }
    }

    /// One bubble pass over the window of `width` logical rows starting at
    /// `from`: every row moves up one place and the first row goes last.
    pub fn rotate_window_up(&mut self, from: usize, width: usize)
        requires
            old(self).wf(),
            old(self).inner@.len() > 0,
            1 <= width <= old(self).inner@.len(),
            from + width <= usize::MAX,
        ensures
            final(self).wf(),
            final(self).zero == old(self).zero,
            final(self).len == old(self).len,
            final(self).visible_lines == old(self).visible_lines,
            final(self).inner@.len() == old(self).inner@.len(),
            forall|p: int|
                0 <= p < old(self).inner@.len() ==> #[trigger] final(self).inner@[p] == if old(
                    self,
                ).woff(p, from as int) < width {
                    old(self).inner@[old(self).phys(
                        from + (old(self).woff(p, from as int) + 1) % (width as int),
                    )]
                } else {
                    old(self).inner@[p]
                },
    {
        let ghost orig = *self;
        let mut j: usize = 0;
        proof {
            assert forall|p: int| 0 <= p < orig.inner@.len() implies #[trigger] self.inner@[p] == {
                let w = orig.woff(p, from as int);
                if w < 0 {
                    orig.inner@[orig.phys(from + w + 1)]
                } else if w == 0 {
                    orig.inner@[orig.phys(from as int)]
                } else {
                    orig.inner@[p]
                }
            } by {
                orig.lemma_phys_woff(from as int, p);
            }
        }
        while j + 1 < width
            invariant
                self.wf(),
                self.zero == orig.zero,
                self.len == orig.len,
                self.visible_lines == orig.visible_lines,
                self.inner@.len() == orig.inner@.len(),
                orig.inner@.len() > 0,
                1 <= width <= orig.inner@.len(),
                from + width <= usize::MAX,
                j < width,
                forall|p: int|
                    0 <= p < orig.inner@.len() ==> #[trigger] self.inner@[p] == {
                        let w = orig.woff(p, from as int);
                        if w < j {
                            orig.inner@[orig.phys(from + w + 1)]
                        } else if w == j {
                            orig.inner@[orig.phys(from as int)]
                        } else {
                            orig.inner@[p]
                        }
                    },
            decreases width - j,
        {
            let ghost before = self.inner@;
            proof {
                orig.lemma_woff_phys(from as int, j as int);
                orig.lemma_woff_phys(from as int, j + 1);
            }
            self.swap(from + j, from + j + 1);
            proof {
                assert forall|p: int| 0 <= p < orig.inner@.len() implies #[trigger] self.inner@[p] == {
                    let w = orig.woff(p, from as int);
                    if w < j + 1 {
                        orig.inner@[orig.phys(from + w + 1)]
                    } else if w == j + 1 {
                        orig.inner@[orig.phys(from as int)]
                    } else {
                        orig.inner@[p]
                    }
                } by {
                    orig.lemma_phys_woff(from as int, p);
                }
            }
            j = j + 1;
        }
        proof {
            assert forall|p: int| 0 <= p < orig.inner@.len() implies #[trigger] self.inner@[p] == if orig.woff(p, from as int) < width {
                orig.inner@[orig.phys(from + (orig.woff(p, from as int) + 1) % (width as int))]
            } else {
                orig.inner@[p]
            } by {
                let w = orig.woff(p, from as int);
                orig.lemma_phys_woff(from as int, p);
                if w < width {
                    if w + 1 < width {
                        lemma_small_mod((w + 1) as nat, width as nat);
                    } else {
                        lemma_mod_self_0(width as int);
                    }
                }
            }
        }
    }

    /// One bubble pass downward over the window of `width` logical rows
    /// starting at `from`: every row moves down one place and the last row
    /// goes first.
    pub fn rotate_window_down(&mut self, from: usize, width: usize)
        requires
            old(self).wf(),
            old(self).inner@.len() > 0,
            1 <= width <= old(self).inner@.len(),
            from + width <= usize::MAX,
        ensures
            final(self).wf(),
            final(self).zero == old(self).zero,
            final(self).len == old(self).len,
            final(self).visible_lines == old(self).visible_lines,
            final(self).inner@.len() == old(self).inner@.len(),
            forall|p: int|
                0 <= p < old(self).inner@.len() ==> #[trigger] final(self).inner@[p] == if old(
                    self,
                ).woff(p, from as int) < width {
                    old(self).inner@[old(self).phys(
                        from + (old(self).woff(p, from as int) + width - 1) % (width as int),
                    )]
                } else {
                    old(self).inner@[p]
                },
    {
        let ghost orig = *self;
        let mut j: usize = width - 1;
        proof {
            assert forall|p: int| 0 <= p < orig.inner@.len() implies #[trigger] self.inner@[p] == {
                let w = orig.woff(p, from as int);
                if w >= width {
                    orig.inner@[p]
                } else if w > width - 1 {
                    orig.inner@[orig.phys(from + w - 1)]
                } else if w == width - 1 {
                    orig.inner@[orig.phys(from + width - 1)]
                } else {
                    orig.inner@[p]
                }
            } by {
                orig.lemma_phys_woff(from as int, p);
            }
        }
        while j > 0
            invariant
                self.wf(),
                self.zero == orig.zero,
                self.len == orig.len,
                self.visible_lines == orig.visible_lines,
                self.inner@.len() == orig.inner@.len(),
                orig.inner@.len() > 0,
                1 <= width <= orig.inner@.len(),
                from + width <= usize::MAX,
                j < width,
                forall|p: int|
                    0 <= p < orig.inner@.len() ==> #[trigger] self.inner@[p] == {
                        let w = orig.woff(p, from as int);
                        if w >= width {
                            orig.inner@[p]
                        } else if w > j {
                            orig.inner@[orig.phys(from + w - 1)]
                        } else if w == j {
                            orig.inner@[orig.phys(from + width - 1)]
                        } else {
                            orig.inner@[p]
                        }
                    },
            decreases j,
        {
            proof {
                orig.lemma_woff_phys(from as int, j as int);
                orig.lemma_woff_phys(from as int, j - 1);
            }
            self.swap(from + j, from + j - 1);
            proof {
                assert forall|p: int| 0 <= p < orig.inner@.len() implies #[trigger] self.inner@[p] == {
                    let w = orig.woff(p, from as int);
                    if w >= width {
                        orig.inner@[p]
                    } else if w > j - 1 {
                        orig.inner@[orig.phys(from + w - 1)]
                    } else if w == j - 1 {
                        orig.inner@[orig.phys(from + width - 1)]
                    } else {
                        orig.inner@[p]
                    }
                } by {
                    orig.lemma_phys_woff(from as int, p);
                }
            }
            j = j - 1;
        }
        proof {
            assert forall|p: int| 0 <= p < orig.inner@.len() implies #[trigger] self.inner@[p] == if orig.woff(p, from as int) < width {
                orig.inner@[orig.phys(from + (orig.woff(p, from as int) + width - 1) % (width as int))]
            } else {
                orig.inner@[p]
            } by {
                let w = orig.woff(p, from as int);
                orig.lemma_phys_woff(from as int, p);
                if w < width {
                    if w == 0 {
                        lemma_small_mod((width - 1) as nat, width as nat);
                    } else {
                        lemma_mod_add_multiples_vanish(w - 1, width as int);
                        lemma_small_mod((w - 1) as nat, width as nat);
                    }
                }
            }
        }
    }
}


impl Storage {
    /// Window offsets of the same physical row measured from two starts
    /// differ by the distance between the starts.
    pub proof fn lemma_woff_shift(&self, from: int, a: int, d: int)
        requires
            self.inner@.len() > 0,
            0 <= a < self.inner@.len(),
        ensures
            self.woff(self.phys(from + a), from + d) == (a - d) % (self.inner@.len() as int),
    {
        let n = self.inner@.len() as int;
        lemma_add_mod_noop_right(-self.zero - from - d, self.zero + from + a, n);
        assert(-self.zero - from - d + (self.zero + from + a) == a - d);
    }
}


impl Storage {
    /// `count` upward bubble passes over the window of `width` logical rows
    /// starting at `from`: window position `w` receives the row that was at
    /// position `(w + count) % width`.
    pub fn rotate_window_up_n(&mut self, from: usize, width: usize, count: usize)
        requires
            old(self).wf(),
            old(self).inner@.len() > 0,
            1 <= width <= old(self).inner@.len(),
            from + width <= usize::MAX,
        ensures
            final(self).wf(),
            final(self).zero == old(self).zero,
            final(self).len == old(self).len,
            final(self).visible_lines == old(self).visible_lines,
            final(self).inner@.len() == old(self).inner@.len(),
            forall|p: int|
                0 <= p < old(self).inner@.len() ==> #[trigger] final(self).inner@[p] == if old(
                    self,
                ).woff(p, from as int) < width {
                    old(self).inner@[old(self).phys(
                        from + (old(self).woff(p, from as int) + count) % (width as int),
                    )]
                } else {
                    old(self).inner@[p]
                },
    {
        let ghost orig = *self;
        proof {
            assert forall|p: int| 0 <= p < orig.inner@.len() implies #[trigger] self.inner@[p] == if orig.woff(p, from as int) < width {
                orig.inner@[orig.phys(from + (orig.woff(p, from as int) + 0) % (width as int))]
            } else {
                orig.inner@[p]
            } by {
                orig.lemma_phys_woff(from as int, p);
                let w = orig.woff(p, from as int);
                if w < width {
                    lemma_small_mod(w as nat, width as nat);
                }
            }
        }
        let mut k: usize = 0;
        while k < count
            invariant
                self.wf(),
                self.zero == orig.zero,
                self.len == orig.len,
                self.visible_lines == orig.visible_lines,
                self.inner@.len() == orig.inner@.len(),
                orig.inner@.len() > 0,
                1 <= width <= orig.inner@.len(),
                from + width <= usize::MAX,
                k <= count,
                forall|p: int|
                    0 <= p < orig.inner@.len() ==> #[trigger] self.inner@[p] == if orig.woff(p, from as int) < width {
                        orig.inner@[orig.phys(from + (orig.woff(p, from as int) + k) % (width as int))]
                    } else {
                        orig.inner@[p]
                    },
            decreases count - k,
        {
            self.rotate_window_up(from, width);
            proof {
                assert forall|p: int| 0 <= p < orig.inner@.len() implies #[trigger] self.inner@[p] == if orig.woff(p, from as int) < width {
                    orig.inner@[orig.phys(from + (orig.woff(p, from as int) + k + 1) % (width as int))]
                } else {
                    orig.inner@[p]
                } by {
                    let w = orig.woff(p, from as int);
                    if w < width {
                        lemma_mod_bound(w + 1, width as int);
                        orig.lemma_woff_phys(from as int, (w + 1) % (width as int));
                        lemma_add_mod_noop_right(k as int, w + 1, width as int);
                        lemma_mod_bound(orig.zero + from + (w + 1) % (width as int), orig.inner@.len() as int);
                    }
                }
            }
            k = k + 1;
        }
    }

    /// `count` downward bubble passes over the window of `width` logical rows
    /// starting at `from`: window position `w` receives the row that was at
    /// position `(w + width - count) % width`.
    pub fn rotate_window_down_n(&mut self, from: usize, width: usize, count: usize)
        requires
            old(self).wf(),
            old(self).inner@.len() > 0,
            1 <= width <= old(self).inner@.len(),
            from + width <= usize::MAX,
            count <= width,
        ensures
            final(self).wf(),
            final(self).zero == old(self).zero,
            final(self).len == old(self).len,
            final(self).visible_lines == old(self).visible_lines,
            final(self).inner@.len() == old(self).inner@.len(),
            forall|p: int|
                0 <= p < old(self).inner@.len() ==> #[trigger] final(self).inner@[p] == if old(
                    self,
                ).woff(p, from as int) < width {
                    old(self).inner@[old(self).phys(
                        from + (old(self).woff(p, from as int) + width - count) % (width as int),
                    )]
                } else {
                    old(self).inner@[p]
                },
    {
        let ghost orig = *self;
        proof {
            assert forall|p: int| 0 <= p < orig.inner@.len() implies #[trigger] self.inner@[p] == if orig.woff(p, from as int) < width {
                orig.inner@[orig.phys(from + (orig.woff(p, from as int) + width - 0) % (width as int))]
            } else {
                orig.inner@[p]
            } by {
                orig.lemma_phys_woff(from as int, p);
                let w = orig.woff(p, from as int);
                if w < width {
                    lemma_mod_add_multiples_vanish(w, width as int);
                    lemma_small_mod(w as nat, width as nat);
                }
            }
        }
        let mut k: usize = 0;
        while k < count
            invariant
                self.wf(),
                self.zero == orig.zero,
                self.len == orig.len,
                self.visible_lines == orig.visible_lines,
                self.inner@.len() == orig.inner@.len(),
                orig.inner@.len() > 0,
                1 <= width <= orig.inner@.len(),
                from + width <= usize::MAX,
                k <= count,
                count <= width,
                forall|p: int|
                    0 <= p < orig.inner@.len() ==> #[trigger] self.inner@[p] == if orig.woff(p, from as int) < width {
                        orig.inner@[orig.phys(from + (orig.woff(p, from as int) + width - k) % (width as int))]
                    } else {
                        orig.inner@[p]
                    },
            decreases count - k,
        {
            self.rotate_window_down(from, width);
            proof {
                assert forall|p: int| 0 <= p < orig.inner@.len() implies #[trigger] self.inner@[p] == if orig.woff(p, from as int) < width {
                    orig.inner@[orig.phys(from + (orig.woff(p, from as int) + width - (k + 1)) % (width as int))]
                } else {
                    orig.inner@[p]
                } by {
                    let w = orig.woff(p, from as int);
                    if w < width {
                        let w1 = (w + width - 1) % (width as int);
                        lemma_mod_bound(w + width - 1, width as int);
                        orig.lemma_woff_phys(from as int, w1);
                        lemma_add_mod_noop_right(width - k, w + width - 1, width as int);
                        assert(width - k + (w + width - 1) == width + (w + width - (k + 1)));
                        lemma_mod_add_multiples_vanish(w + width - (k + 1), width as int);
                        lemma_mod_bound(orig.zero + from + w1, orig.inner@.len() as int);
                    }
                }
            }
            k = k + 1;
        }
    }
}


/// Rotating the ring by its physical length changes nothing: logical row
/// `i + n` is logical row `i` again, so rotations compose modulo the length.
pub proof fn lemma_rotation_is_circular(s: Storage, i: int)
    requires
        s.wf(),
        s.inner@.len() > 0,
    ensures
        s.row_at(i + s.inner@.len()) == s.row_at(i),
{
    let n = s.inner@.len() as int;
    vstd::arithmetic::div_mod::lemma_mod_add_multiples_vanish(s.zero + i, n);
    assert(s.zero + (i + n) == (s.zero + i) + n);
}

/// `new` is `old` after `rotate(count)`.
pub open spec fn rotated(new: Storage, old: Storage, count: int) -> bool {
    &&& new.inner@ == old.inner@
    &&& new.len == old.len
    &&& new.visible_lines == old.visible_lines
    &&& new.zero == (old.zero + count) % (old.inner@.len() as int)
}

/// `new` is `old` after `swap(a, b)`.
pub open spec fn swapped(new: Storage, old: Storage, a: int, b: int) -> bool {
    &&& new.zero == old.zero
    &&& new.len == old.len
    &&& new.visible_lines == old.visible_lines
    &&& new.inner@ == old.inner@.update(old.phys(a), old.inner@[old.phys(b)]).update(old.phys(b), old.inner@[old.phys(a)])
}

/// Rotating by `count` and then by `-count` gives back the storage: the same
/// rows in the same places, the same lengths.
pub proof fn lemma_rotate_roundtrip(s0: Storage, s1: Storage, s2: Storage, count: int)
    requires
        s0.wf(),
        s0.inner@.len() > 0,
        rotated(s1, s0, count),
        rotated(s2, s1, -count),
    ensures
        s2.inner@ == s0.inner@,
        s2.zero == s0.zero,
        s2.len == s0.len,
        s2.visible_lines == s0.visible_lines,
{
    let n = s0.inner@.len() as int;
    lemma_shift_compose(s0.zero as int, count, -count, n);
    lemma_small_mod(s0.zero as nat, n as nat);
    assert(s2.inner@ =~= s0.inner@);
}

/// Swapping the same two rows twice gives back the storage: the same rows
/// in the same places, the same lengths.
pub proof fn lemma_swap_twice(s0: Storage, s1: Storage, s2: Storage, a: int, b: int)
    requires
        s0.wf(),
        s0.inner@.len() > 0,
        swapped(s1, s0, a, b),
        swapped(s2, s1, a, b),
    ensures
        s2.inner@ == s0.inner@,
        s2.zero == s0.zero,
        s2.len == s0.len,
        s2.visible_lines == s0.visible_lines,
{
    let pa = s0.phys(a);
    let pb = s0.phys(b);
    lemma_mod_bound(s0.zero + a, s0.inner@.len() as int);
    lemma_mod_bound(s0.zero + b, s0.inner@.len() as int);
    assert(s2.inner@ =~= s0.inner@);
}

} // verus!
