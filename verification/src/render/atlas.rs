//! Space allocation in the square glyph atlas: glyphs are placed left to
//! right on horizontal shelves stacked from the top.
use vstd::prelude::*;
use vstd::arithmetic::div_mod::lemma_fundamental_div_mod_converse;

verus! {

/// A rectangle of the glyph atlas.
#[derive(Debug, Clone, Copy, PartialEq, Eq, Structural)]
pub struct AtlasRegion {
    pub x: u32,
    pub y: u32,
    pub width: u32,
    pub height: u32,
}

/// One shelf: a band of rows filled from the left.
#[derive(Debug, Clone, Copy, PartialEq, Eq, Structural)]
pub struct Shelf {
    /// Top row of the shelf.
    pub y: u32,
    /// Height, set by the first glyph placed on it.
    pub height: u32,
    /// Where the next glyph on this shelf goes.
    pub cursor_x: u32,
}

/// The shelf layout of an atlas of `size` x `size` pixels.
#[derive(Debug, Clone)]
pub struct AtlasAllocator {
    size: u32,
    shelves: Vec<Shelf>,
    next_shelf_y: u32,
}

/// The pixel (`px`, `py`) lies in `r`.
pub open spec fn region_has(r: AtlasRegion, px: int, py: int) -> bool {
    r.x <= px < r.x + r.width && r.y <= py < r.y + r.height
}

/// Shelf `s` of an atlas of side `side` takes a `width` x `height` glyph:
/// it is tall enough and has `width` columns left.
pub open spec fn shelf_takes(s: Shelf, width: u32, height: u32, side: nat) -> bool {
    s.height >= height && s.cursor_x + width <= side
}

/// Shelf `i` is the first of `shelves` that takes the glyph.
pub open spec fn first_taker(shelves: Seq<Shelf>, i: int, width: u32, height: u32, side: nat) -> bool {
    &&& 0 <= i < shelves.len()
    &&& shelf_takes(shelves[i], width, height, side)
    &&& forall|j: int| 0 <= j < i ==> !shelf_takes(#[trigger] shelves[j], width, height, side)
}

impl AtlasAllocator {
    /// Side length of the atlas.
    pub closed spec fn side(&self) -> nat {
        self.size as nat
    }

    /// The shelves, top to bottom.
    pub closed spec fn shelf_list(&self) -> Seq<Shelf> {
        self.shelves@
    }

    /// Top row of the next new shelf.
    pub closed spec fn next_y(&self) -> nat {
        self.next_shelf_y as nat
    }

    /// The pixel (`px`, `py`) has been handed out.
    pub open spec fn is_allocated(&self, px: int, py: int) -> bool {
        exists|i: int|
            0 <= i < self.shelf_list().len() && 0 <= px < #[trigger] self.shelf_list()[i].cursor_x && self.shelf_list()[i].y
                <= py < self.shelf_list()[i].y + self.shelf_list()[i].height
    }

    /// Layout invariant: shelves stacked top to bottom inside the atlas, each
    /// filled no further than the right edge.
    pub open spec fn wf(&self) -> bool {
        &&& self.side() <= 32767
        &&& self.next_y() <= self.side()
        &&& forall|i: int| 0 <= i < self.shelf_list().len() ==> {
            &&& (#[trigger] self.shelf_list()[i]).cursor_x <= self.side()
            &&& self.shelf_list()[i].y + self.shelf_list()[i].height <= self.next_y()
        }
        &&& forall|i: int, j: int|
            0 <= i < j < self.shelf_list().len() ==> #[trigger] self.shelf_list()[i].y + self.shelf_list()[i].height
                <= #[trigger] self.shelf_list()[j].y
    }

    /// An empty atlas of `size` x `size` pixels.
    pub fn new(size: u32) -> (r: Self)
        requires
            size <= 32767,
        ensures
            r.wf(),
            r.side() == size,
            r.shelf_list().len() == 0,
            r.next_y() == 0,
    {
        AtlasAllocator { size, shelves: Vec::new(), next_shelf_y: 0 }
    }

    /// Side length of the atlas.
    pub fn size(&self) -> (r: u32)
        ensures
            r == self.side(),
    {
        self.size
    }

    /// Forgets every allocation.
    pub fn clear(&mut self)
        requires
            old(self).wf(),
        ensures
            final(self).wf(),
            final(self).side() == old(self).side(),
            final(self).shelf_list().len() == 0,
            final(self).next_y() == 0,
    {
        self.shelves = Vec::new();
        self.next_shelf_y = 0;
    }

    /// Index of the first shelf at least `height` tall with `width` free
    /// columns left.
    fn find_shelf(&self, width: u32, height: u32) -> (r: Option<usize>)
        requires
            self.wf(),
            width <= self.side(),
        ensures
            match r {
                Some(i) => i < self.shelf_list().len() && self.shelf_list()[i as int].height >= height
                    && self.shelf_list()[i as int].cursor_x + width <= self.side()
                    && forall|j: int| 0 <= j < i ==> !(#[trigger] self.shelf_list()[j].height >= height
                        && self.shelf_list()[j].cursor_x + width <= self.side()),
                None => forall|j: int| 0 <= j < self.shelf_list().len() ==> !(#[trigger] self.shelf_list()[j].height
                    >= height && self.shelf_list()[j].cursor_x + width <= self.side()),
            },
    {
        let mut i: usize = 0;
        while i < self.shelves.len()
            invariant
                self.wf(),
                width <= self.side(),
                i <= self.shelf_list().len(),
                forall|j: int| 0 <= j < i ==> !(#[trigger] self.shelf_list()[j].height >= height
                    && self.shelf_list()[j].cursor_x + width <= self.side()),
            decreases self.shelf_list().len() - i,
        {
            let s = self.shelves[i];
            if s.height >= height && s.cursor_x + width <= self.size {
                return Some(i);
            }
            i = i + 1;
        }
        None
    }

    /// Hands out a `width` x `height` rectangle: on the first shelf tall
    /// enough with room left, else on a new shelf below the others; `None`
    /// for an empty size, a side longer than the atlas, or a full atlas.
    /// The rectangle lies inside the atlas and overlaps nothing handed out
    /// before.
    pub fn reserve(&mut self, width: u32, height: u32) -> (r: Option<AtlasRegion>)
        requires
            old(self).wf(),
        ensures
            final(self).wf(),
            final(self).side() == old(self).side(),
            r is None ==> *final(self) == *old(self),
            r is None <==> (width == 0 || height == 0 || width > old(self).side() || height > old(self).side()
                || ((forall|j: int| 0 <= j < old(self).shelf_list().len() ==> !(#[trigger] old(self).shelf_list()[j].height
                >= height && old(self).shelf_list()[j].cursor_x + width <= old(self).side()))
                && old(self).next_y() + height > old(self).side())),
            r is Some ==> {
                let reg = r->0;
                &&& reg.width == width && reg.height == height
                &&& reg.x + width <= old(self).side() && reg.y + height <= old(self).side()
                &&& forall|px: int, py: int| #[trigger] region_has(reg, px, py) ==> !old(self).is_allocated(px, py)
                    && final(self).is_allocated(px, py)
                &&& forall|px: int, py: int| old(self).is_allocated(px, py) ==> #[trigger] final(self).is_allocated(px, py)
                &&& final(self).next_y() == old(self).next_y() + (if exists|i: int|
                    first_taker(old(self).shelf_list(), i, width, height, old(self).side()) { 0 } else { height as int })
                &&& (exists|i: int| first_taker(old(self).shelf_list(), i, width, height, old(self).side())) ==> exists|i: int|
                    #[trigger] first_taker(old(self).shelf_list(), i, width, height, old(self).side()) && reg.x
                        == old(self).shelf_list()[i].cursor_x && reg.y == old(self).shelf_list()[i].y && final(self).shelf_list()
                        == old(self).shelf_list().update(i, Shelf { cursor_x: (old(self).shelf_list()[i].cursor_x + width) as u32, ..old(self).shelf_list()[i] })
                &&& !(exists|i: int| first_taker(old(self).shelf_list(), i, width, height, old(self).side())) ==> {
                    &&& reg.x == 0
                    &&& reg.y == old(self).next_y()
                    &&& final(self).shelf_list() == old(self).shelf_list().push(Shelf { y: old(self).next_y() as u32, height, cursor_x: width })
                }
            },
    {
        if width == 0 || height == 0 || width > self.size || height > self.size {
            return None;
        }
        let ghost before = *self;
        match self.find_shelf(width, height) {
            Some(idx) => {
                let s = self.shelves[idx];
                let region = AtlasRegion { x: s.cursor_x, y: s.y, width, height };
                self.shelves.set(idx, Shelf { y: s.y, height: s.height, cursor_x: s.cursor_x + width });
                proof {
                    assert(first_taker(before.shelf_list(), idx as int, width, height, before.side()));
                    assert forall|i: int| #[trigger] first_taker(before.shelf_list(), i, width, height, before.side()) implies i == idx by {
                        if i < idx {
                            assert(!shelf_takes(before.shelf_list()[i], width, height, before.side()));
                        } else if i > idx {
                            assert(!shelf_takes(before.shelf_list()[idx as int], width, height, before.side()) || i <= idx);
                        }
                    }
                    assert(self.shelf_list() =~= before.shelf_list().update(idx as int, Shelf { cursor_x: (before.shelf_list()[idx as int].cursor_x + width) as u32, ..before.shelf_list()[idx as int] }));
                    assert forall|px: int, py: int| #[trigger] region_has(region, px, py) implies !before.is_allocated(px, py)
                        && self.is_allocated(px, py) by {
                        assert(self.shelf_list()[idx as int].cursor_x == s.cursor_x + width);
                        if before.is_allocated(px, py) {
                            let i = choose|i: int|
                                0 <= i < before.shelf_list().len() && 0 <= px < #[trigger] before.shelf_list()[i].cursor_x
                                    && before.shelf_list()[i].y <= py < before.shelf_list()[i].y + before.shelf_list()[i].height;
                            if i < idx {
                                assert(before.shelf_list()[i].y + before.shelf_list()[i].height <= before.shelf_list()[idx as int].y);
                            } else if i > idx {
                                assert(before.shelf_list()[idx as int].y + before.shelf_list()[idx as int].height <= before.shelf_list()[i].y);
                            }
                        }
                    }
                    assert forall|px: int, py: int| before.is_allocated(px, py) implies #[trigger] self.is_allocated(px, py) by {
                        let i = choose|i: int|
                            0 <= i < before.shelf_list().len() && 0 <= px < #[trigger] before.shelf_list()[i].cursor_x
                                && before.shelf_list()[i].y <= py < before.shelf_list()[i].y + before.shelf_list()[i].height;
                        assert(self.shelf_list()[i].cursor_x >= before.shelf_list()[i].cursor_x);
                    }
                }
                Some(region)
            },
            None => {
                if self.next_shelf_y + height > self.size {
                    return None;
                }
                let region = AtlasRegion { x: 0, y: self.next_shelf_y, width, height };
                self.shelves.push(Shelf { y: self.next_shelf_y, height, cursor_x: width });
                self.next_shelf_y = self.next_shelf_y + height;
                proof {
                    assert(!(exists|i: int| first_taker(before.shelf_list(), i, width, height, before.side()))) by {
                        assert forall|i: int| !#[trigger] first_taker(before.shelf_list(), i, width, height, before.side()) by {
                            if 0 <= i < before.shelf_list().len() {
                                assert(!(before.shelf_list()[i].height >= height && before.shelf_list()[i].cursor_x + width <= before.side()));
                            }
                        }
                    }
                    assert(self.shelf_list() =~= before.shelf_list().push(Shelf { y: before.next_y() as u32, height, cursor_x: width }));
                    let n = before.shelf_list().len() as int;
                    assert(self.shelf_list()[n] == Shelf { y: before.next_y() as u32, height, cursor_x: width });
                    assert forall|px: int, py: int| #[trigger] region_has(region, px, py) implies !before.is_allocated(px, py)
                        && self.is_allocated(px, py) by {
                        if before.is_allocated(px, py) {
                            let i = choose|i: int|
                                0 <= i < before.shelf_list().len() && 0 <= px < #[trigger] before.shelf_list()[i].cursor_x
                                    && before.shelf_list()[i].y <= py < before.shelf_list()[i].y + before.shelf_list()[i].height;
                            assert(before.shelf_list()[i].y + before.shelf_list()[i].height <= before.next_y());
                        }
                        assert(0 <= px < self.shelf_list()[n].cursor_x);
                    }
                    assert forall|px: int, py: int| before.is_allocated(px, py) implies #[trigger] self.is_allocated(px, py) by {
                        let i = choose|i: int|
                            0 <= i < before.shelf_list().len() && 0 <= px < #[trigger] before.shelf_list()[i].cursor_x
                                && before.shelf_list()[i].y <= py < before.shelf_list()[i].y + before.shelf_list()[i].height;
                        assert(self.shelf_list()[i] == before.shelf_list()[i]);
                    }
                }
                Some(region)
            },
        }
    }
}


/// Two rectangles handed out one after the other never overlap.
pub proof fn lemma_reserved_regions_disjoint(a0: AtlasAllocator, a1: AtlasAllocator, a2: AtlasAllocator, r1: AtlasRegion, r2: AtlasRegion)
    requires
        forall|px: int, py: int| #[trigger] region_has(r1, px, py) ==> !a0.is_allocated(px, py) && a1.is_allocated(px, py),
        forall|px: int, py: int| #[trigger] region_has(r2, px, py) ==> !a1.is_allocated(px, py) && a2.is_allocated(px, py),
    ensures
        forall|px: int, py: int| !(#[trigger] region_has(r1, px, py) && #[trigger] region_has(r2, px, py)),
{
}


/// The byte at `k` of an atlas of side `size` after the RGBA pixels `src`
/// were written into region `r`.
pub open spec fn written_byte(old: Seq<u8>, size: int, r: AtlasRegion, src: Seq<u8>, k: int) -> u8 {
    let stride = size * 4;
    let row = k / stride;
    let col = k % stride;
    if r.y <= row < r.y + r.height && 4 * r.x <= col < 4 * (r.x + r.width) {
        src[(row - r.y) * (4 * r.width) + (col - 4 * r.x)]
    } else {
        old[k]
    }
}

/// The RGBA pixels of the atlas (4 bytes per pixel, rows top to bottom).
#[derive(Debug, Clone)]
pub struct AtlasPixels {
    size: u32,
    data: Vec<u8>,
    dirty: bool,
}

impl AtlasPixels {
    /// Side length.
    pub closed spec fn side(&self) -> nat {
        self.size as nat
    }

    /// The pixel bytes.
    pub closed spec fn bytes(&self) -> Seq<u8> {
        self.data@
    }

    /// The pixels changed since the last upload.
    pub closed spec fn needs_upload(&self) -> bool {
        self.dirty
    }

    /// Invariant: `size * size` pixels of 4 bytes.
    pub open spec fn wf(&self) -> bool {
        self.side() <= 32767 && self.bytes().len() == self.side() * self.side() * 4
    }

    /// A transparent atlas of `size` x `size` pixels.
    pub fn new(size: u32) -> (r: Self)
        requires
            size <= 32767,
        ensures
            r.wf(),
            r.side() == size,
            r.bytes() == Seq::new((size * size * 4) as nat, |k: int| 0u8),
            !r.needs_upload(),
    {
        assert(size as int * size as int * 4 <= 4294705156) by (nonlinear_arith)
            requires
                size <= 32767,
        ;
        let n: usize = size as usize * size as usize * 4;
        let data = vec![0u8; n];
        let r = AtlasPixels { size, data, dirty: false };
        assert(r.bytes() =~= Seq::new((size * size * 4) as nat, |k: int| 0u8));
        r
    }

    /// Side length.
    pub fn size(&self) -> (r: u32)
        ensures
            r == self.side(),
    {
        self.size
    }

    /// The pixel bytes.
    pub fn data(&self) -> (r: &[u8])
        ensures
            r@ == self.bytes(),
    {
        self.data.as_slice()
    }

    /// Whether the pixels changed since the last upload.
    pub fn is_dirty(&self) -> (r: bool)
        ensures
            r == self.needs_upload(),
    {
        self.dirty
    }

    /// Records that the pixels were uploaded.
    pub fn mark_clean(&mut self)
        ensures
            final(self).side() == old(self).side(),
            final(self).bytes() == old(self).bytes(),
            !final(self).needs_upload(),
    {
        self.dirty = false;
    }

    /// Zeroes every pixel and marks the atlas for upload.
    pub fn clear(&mut self)
        requires
            old(self).wf(),
        ensures
            final(self).wf(),
            final(self).side() == old(self).side(),
            final(self).bytes() == Seq::new(old(self).bytes().len(), |k: int| 0u8),
            final(self).needs_upload(),
    {
        let n = self.data.len();
        let mut i: usize = 0;
        while i < n
            invariant
                i <= n,
                n == self.data@.len(),
                self.size == old(self).size,
                n == old(self).data@.len(),
                forall|k: int| 0 <= k < i ==> self.data@[k] == 0u8,
            decreases n - i,
        {
            self.data.set(i, 0);
            i = i + 1;
        }
        self.dirty = true;
        assert(self.bytes() =~= Seq::new(old(self).bytes().len(), |k: int| 0u8));
    }

    /// Writes the RGBA pixels `src` (rows of `4 * width` bytes) into
    /// `region`; data of any other length is ignored.
    pub fn write(&mut self, region: AtlasRegion, src: &[u8])
        requires
            old(self).wf(),
            region.x + region.width <= old(self).side(),
            region.y + region.height <= old(self).side(),
        ensures
            final(self).wf(),
            final(self).side() == old(self).side(),
            src@.len() != 4 * region.width * region.height ==> final(self).bytes() == old(self).bytes()
                && final(self).needs_upload() == old(self).needs_upload(),
            src@.len() == 4 * region.width * region.height ==> final(self).needs_upload() && final(self).bytes() == Seq::new(
                old(self).bytes().len(),
                |k: int| written_byte(old(self).bytes(), old(self).side() as int, region, src@, k),
            ),
    {
        let size = self.size as usize;
        let w = region.width as usize;
        let h = region.height as usize;
        let x = region.x as usize;
        let y = region.y as usize;
        assert(size * size * 4 <= 4294705156) by (nonlinear_arith)
            requires
                size <= 32767,
        ;
        assert(w * h <= size * size) by (nonlinear_arith)
            requires
                w <= size,
                h <= size,
        ;
        let expected = 4 * (w * h);
        assert(expected == 4 * region.width * region.height) by (nonlinear_arith)
            requires
                expected == 4 * (w * h),
                w == region.width,
                h == region.height,
        ;
        if src.len() != expected {
            return;
        }
        let stride = size * 4;
        let ghost old_bytes = self.data@;
        let ghost sz = size as int;
        let mut row: usize = 0;
        while row < h
            invariant
                row <= h,
                size == self.size,
                size * size * 4 <= 4294705156,
                w * h <= size * size,
                sz == size as int,
                self.size == old(self).size,
                size <= 32767,
                stride == size * 4,
                x + w <= size,
                y + h <= size,
                w == region.width,
                h == region.height,
                x == region.x,
                y == region.y,
                src@.len() == 4 * (w * h),
                self.data@.len() == old_bytes.len(),
                old_bytes.len() == size * size * 4,
                old_bytes == old(self).data@,
                forall|k: int| 0 <= k < self.data@.len() ==> #[trigger] self.data@[k] == if region.y <= k / (sz * 4) < region.y + row
                    && 4 * region.x <= k % (sz * 4) < 4 * (region.x + region.width) {
                    src@[(k / (sz * 4) - region.y) * (4 * region.width) + (k % (sz * 4) - 4 * region.x)]
                } else {
                    old_bytes[k]
                },
            decreases h - row,
        {
            assert((y + row) * stride + x * 4 + w * 4 <= size * size * 4) by (nonlinear_arith)
                requires
                    y + row < size,
                    x + w <= size,
                    stride == size * 4,
            ;
            assert((y + row) * stride <= size * size * 4) by (nonlinear_arith)
                requires
                    y + row < size,
                    stride == size * 4,
            ;
            assert(row * (w * 4) + w * 4 <= 4 * (w * h)) by (nonlinear_arith)
                requires
                    row < h,
            ;
            let dst_start = (y + row) * stride + x * 4;
            let src_start = row * (w * 4);
            let mut b: usize = 0;
            while b < w * 4
                invariant
                    b <= w * 4,
                    row < h,
                    size == self.size,
                    size * size * 4 <= 4294705156,
                    w * h <= size * size,
                    sz == size as int,
                    size <= 32767,
                    stride == size * 4,
                    x + w <= size,
                    y + h <= size,
                    w == region.width,
                    h == region.height,
                    x == region.x,
                    y == region.y,
                    dst_start == (y + row) * stride + x * 4,
                    src_start == row * (w * 4),
                    dst_start + w * 4 <= size * size * 4,
                    src_start + w * 4 <= 4 * (w * h),
                    src@.len() == 4 * (w * h),
                    self.data@.len() == old_bytes.len(),
                    old_bytes.len() == size * size * 4,
                    forall|k: int| 0 <= k < self.data@.len() ==> #[trigger] self.data@[k] == if (region.y <= k / (sz * 4) < region.y
                        + row && 4 * region.x <= k % (sz * 4) < 4 * (region.x + region.width)) || (k / (sz * 4) == region.y + row
                        && 4 * region.x <= k % (sz * 4) < 4 * region.x + b) {
                        src@[(k / (sz * 4) - region.y) * (4 * region.width) + (k % (sz * 4) - 4 * region.x)]
                    } else {
                        old_bytes[k]
                    },
                decreases w * 4 - b,
            {
                let k0 = dst_start + b;
                proof {
                    lemma_fundamental_div_mod_converse(k0 as int, sz * 4, (y + row) as int, (4 * x + b) as int);
                }
                let v = src[src_start + b];
                let ghost prev = self.data@;
                self.data.set(k0, v);
                proof {
                    assert forall|k: int| 0 <= k < self.data@.len() implies #[trigger] self.data@[k] == if (region.y <= k / (sz * 4)
                        < region.y + row && 4 * region.x <= k % (sz * 4) < 4 * (region.x + region.width)) || (k / (sz * 4)
                        == region.y + row && 4 * region.x <= k % (sz * 4) < 4 * region.x + b + 1) {
                        src@[(k / (sz * 4) - region.y) * (4 * region.width) + (k % (sz * 4) - 4 * region.x)]
                    } else {
                        old_bytes[k]
                    } by {
                        if k != k0 {
                            assert(self.data@[k] == prev[k]);
                            if k / (sz * 4) == region.y + row && k % (sz * 4) == 4 * region.x + b {
                                assert(k == (k / (sz * 4)) * (sz * 4) + k % (sz * 4)) by {
                                    vstd::arithmetic::div_mod::lemma_fundamental_div_mod(k, sz * 4);
                                }
                            }
                        } else {
                            assert((row * (w * 4) + b) as int == ((k0 as int) / (sz * 4) - region.y) * (4 * region.width) + ((k0 as int) % (sz * 4) - 4 * region.x)) by (nonlinear_arith)
                                requires
                                    (k0 as int) / (sz * 4) == y + row,
                                    (k0 as int) % (sz * 4) == 4 * x + b,
                                    region.y == y,
                                    region.x == x,
                                    region.width == w,
                            ;
                        }
                    }
                }
                b = b + 1;
            }
            proof {
                assert forall|k: int| 0 <= k < self.data@.len() implies #[trigger] self.data@[k] == if region.y <= k / (sz * 4)
                    < region.y + row + 1 && 4 * region.x <= k % (sz * 4) < 4 * (region.x + region.width) {
                    src@[(k / (sz * 4) - region.y) * (4 * region.width) + (k % (sz * 4) - 4 * region.x)]
                } else {
                    old_bytes[k]
                } by {
                }
            }
            row = row + 1;
        }
        self.dirty = true;
        assert(self.bytes() =~= Seq::new(
            old(self).bytes().len(),
            |k: int| written_byte(old(self).bytes(), old(self).side() as int, region, src@, k),
        ));
    }
}

} // verus!
