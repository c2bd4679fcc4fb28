//! A rectangular buffer of copyable values, stored row-major.

use crate::geometry::Size;
use vstd::prelude::*;

verus! {

/// A two-dimensional buffer: `height` rows of `width` values each.
pub struct Vec2D<T> {
    data: Vec<T>,
    width: usize,
    height: usize,
}

impl<T> Vec2D<T> {
    /// The stored vector holds exactly one value per cell.
    pub closed spec fn wf(self) -> bool {
        self.data@.len() == self.spec_width() * self.spec_height()
    }

    pub closed spec fn spec_width(self) -> int {
        self.width as int
    }

    pub closed spec fn spec_height(self) -> int {
        self.height as int
    }

    /// The value stored at the given row and column.
    pub closed spec fn spec_at(self, row: int, col: int) -> T {
        self.data@[row * self.spec_width() + col]
    }
}

impl<T: Copy> Vec2D<T> {
    /// A buffer of the given size with every cell set to `fill`.
    pub fn new(size: &Size, fill: T) -> (r: Self)
        requires
            size.width * size.height <= usize::MAX,
        ensures
            r.wf(),
            r.spec_width() == size.width,
            r.spec_height() == size.height,
            forall|row: int, col: int|
                0 <= row < r.spec_height() && 0 <= col < r.spec_width() ==> r.spec_at(row, col)
                    == fill,
    {
        let w = size.width as usize;
        let h = size.height as usize;
        let n = w * h;
        let mut data: Vec<T> = Vec::new();
        let mut i: usize = 0;
        while i < n
            invariant
                i <= n,
                data@.len() == i,
                forall|j: int| 0 <= j < i ==> data@[j] == fill,
            decreases n - i,
        {
            data.push(fill);
            i = i + 1;
        }
        let r = Self { data, width: w, height: h };
        proof {
            assert(forall|row: int, col: int|
                0 <= row < r.spec_height() && 0 <= col < r.spec_width() ==> 0 <= #[trigger] (row
                    * r.spec_width() + col) < n) by {
                lemma_row_major_in_range(r.spec_width(), r.spec_height());
                assert(r.spec_height() * r.spec_width() == n) by (nonlinear_arith)
                    requires
                        r.spec_width() * r.spec_height() == n,
                ;
            }
        }
        r
    }

    pub fn width(&self) -> (r: usize)
        ensures
            r == self.spec_width(),
    {
        self.width
    }

    pub fn height(&self) -> (r: usize)
        ensures
            r == self.spec_height(),
    {
        self.height
    }

    /// The value at the given cell, or nothing when the cell is outside the
    /// buffer.
    pub fn get(&self, row: usize, col: usize) -> (r: Option<T>)
        requires
            self.wf(),
        ensures
            r is Some <==> (row < self.spec_height() && col < self.spec_width()),
            r matches Some(v) ==> v == self.spec_at(row as int, col as int),
    {
        if row < self.height && col < self.width {
            let n = self.data.len();
            proof {
                lemma_row_major_index(self.spec_width(), self.spec_height(), row as int, col as int);
                assert(self.spec_height() * self.spec_width() == self.spec_width()
                    * self.spec_height()) by (nonlinear_arith);
            }
            Some(self.data[row * self.width + col])
        } else {
            None
        }
    }

    /// Overwrites one cell.
    pub fn set(&mut self, row: usize, col: usize, value: T)
        requires
            old(self).wf(),
            row < old(self).spec_height(),
            col < old(self).spec_width(),
        ensures
            final(self).wf(),
            final(self).spec_width() == old(self).spec_width(),
            final(self).spec_height() == old(self).spec_height(),
            final(self).spec_at(row as int, col as int) == value,
            forall|r: int, c: int|
                0 <= r < old(self).spec_height() && 0 <= c < old(self).spec_width() && !(r == row
                    && c == col) ==> final(self).spec_at(r, c) == old(self).spec_at(r, c),
    {
        let n = self.data.len();
        proof {
            lemma_row_major_index(self.spec_width(), self.spec_height(), row as int, col as int);
            assert(self.spec_height() * self.spec_width() == self.spec_width()
                * self.spec_height()) by (nonlinear_arith);
        }
        let idx = row * self.width + col;
        self.data.set(idx, value);
        proof {
            let w = self.spec_width();
            let h = self.spec_height();
            assert forall|r: int, c: int|
                0 <= r < h && 0 <= c < w && !(r == row && c == col) implies self.spec_at(r, c)
                == old(self).spec_at(r, c) by {
                lemma_row_major_index(w, h, r, c);
                assert(h * w == w * h) by (nonlinear_arith);
                assert(r * w + c != row * w + col) by (nonlinear_arith)
                    requires
                        0 <= c < w,
                        0 <= col < w,
                        r >= 0,
                        row >= 0,
                        !(r == row && c == col),
                ;
            }
        }
    }
}

impl<T: Copy> Vec2D<T> {
    /// The buffer flipped upside down: row order reversed.
    pub fn flipped(&self) -> (r: Self)
        requires
            self.wf(),
        ensures
            r.wf(),
            r.spec_width() == self.spec_width(),
            r.spec_height() == self.spec_height(),
            forall|row: int, col: int|
                0 <= row < r.spec_height() && 0 <= col < r.spec_width() ==> r.spec_at(row, col)
                    == self.spec_at(self.spec_height() - 1 - row, col),
    {
        let w = self.width;
        let h = self.height;
        let data = self.build_transformed(h, w, TransformKind::Flip);
        proof {
            assert(h as int * w == w as int * h) by (nonlinear_arith);
        }
        Self { data, width: w, height: h }
    }

    /// The buffer mirrored left to right: column order reversed.
    pub fn mirrored(&self) -> (r: Self)
        requires
            self.wf(),
        ensures
            r.wf(),
            r.spec_width() == self.spec_width(),
            r.spec_height() == self.spec_height(),
            forall|row: int, col: int|
                0 <= row < r.spec_height() && 0 <= col < r.spec_width() ==> r.spec_at(row, col)
                    == self.spec_at(row, self.spec_width() - 1 - col),
    {
        let w = self.width;
        let h = self.height;
        let data = self.build_transformed(h, w, TransformKind::Mirror);
        proof {
            assert(h as int * w == w as int * h) by (nonlinear_arith);
        }
        Self { data, width: w, height: h }
    }

    /// The buffer rotated a quarter turn clockwise; width and height trade
    /// places.
    pub fn rotated90(&self) -> (r: Self)
        requires
            self.wf(),
        ensures
            r.wf(),
            r.spec_width() == self.spec_height(),
            r.spec_height() == self.spec_width(),
            forall|row: int, col: int|
                0 <= row < r.spec_height() && 0 <= col < r.spec_width() ==> r.spec_at(row, col)
                    == self.spec_at(self.spec_height() - 1 - col, row),
    {
        let w = self.width;
        let h = self.height;
        let data = self.build_transformed(w, h, TransformKind::Rotate);
        proof {
            assert(h as int * w == w as int * h) by (nonlinear_arith);
        }
        Self { data, width: h, height: w }
    }

    /// The source cell a transform reads for a given target cell.
    spec fn source_of(self, kind: TransformKind, row: int, col: int) -> (int, int) {
        match kind {
            TransformKind::Flip => (self.spec_height() - 1 - row, col),
            TransformKind::Mirror => (row, self.spec_width() - 1 - col),
            TransformKind::Rotate => (self.spec_height() - 1 - col, row),
        }
    }

    /// Builds the row-major data of a transformed buffer of `nh` rows and
    /// `nw` columns.
    fn build_transformed(&self, nh: usize, nw: usize, kind: TransformKind) -> (data: Vec<T>)
        requires
            self.wf(),
            kind is Rotate ==> nh == self.spec_width() && nw == self.spec_height(),
            !(kind is Rotate) ==> nh == self.spec_height() && nw == self.spec_width(),
        ensures
            data@.len() == nh * nw,
            forall|row: int, col: int|
                0 <= row < nh && 0 <= col < nw ==> #[trigger] data@[row * nw + col] == self.spec_at(
                    self.source_of(kind, row, col).0,
                    self.source_of(kind, row, col).1,
                ),
    {
        let w = self.width;
        let h = self.height;
        let mut data: Vec<T> = Vec::new();
        let mut i: usize = 0;
        while i < nh
            invariant
                i <= nh,
                self.wf(),
                w == self.spec_width() && h == self.spec_height(),
                kind is Rotate ==> nh == w && nw == h,
                !(kind is Rotate) ==> nh == h && nw == w,
                data@.len() == i * nw,
                forall|row: int, col: int|
                    0 <= row < i && 0 <= col < nw ==> #[trigger] data@[row * nw + col]
                        == self.spec_at(
                        self.source_of(kind, row, col).0,
                        self.source_of(kind, row, col).1,
                    ),
            decreases nh - i,
        {
            let mut j: usize = 0;
            while j < nw
                invariant
                    i < nh,
                    j <= nw,
                    self.wf(),
                    w == self.spec_width() && h == self.spec_height(),
                    kind is Rotate ==> nh == w && nw == h,
                    !(kind is Rotate) ==> nh == h && nw == w,
                    data@.len() == i * nw + j,
                    forall|row: int, col: int|
                        0 <= row < i && 0 <= col < nw ==> #[trigger] data@[row * nw + col]
                            == self.spec_at(
                            self.source_of(kind, row, col).0,
                            self.source_of(kind, row, col).1,
                        ),
                    forall|col: int|
                        0 <= col < j ==> #[trigger] data@[i as int * nw + col] == self.spec_at(
                            self.source_of(kind, i as int, col).0,
                            self.source_of(kind, i as int, col).1,
                        ),
                decreases nw - j,
            {
                let n = self.data.len();
                let (sr, sc): (usize, usize) = match kind {
                    TransformKind::Flip => (h - 1 - i, j),
                    TransformKind::Mirror => (i, w - 1 - j),
                    TransformKind::Rotate => (h - 1 - j, i),
                };
                proof {
                    lemma_row_major_index(w as int, h as int, sr as int, sc as int);
                    assert(h as int * w == w as int * h) by (nonlinear_arith);
                    assert(i as int * nw + j < nh as int * nw) by {
                        lemma_row_major_in_range(nw as int, nh as int);
                    }
                    assert(nh as int * nw == w as int * h) by (nonlinear_arith)
                        requires
                            (nh == w && nw == h) || (nh == h && nw == w),
                    ;
                }
                let v = self.data[sr * w + sc];
                data.push(v);
                proof {
                    assert(data@.len() - 1 == i as int * nw + j);
                    assert(forall|row: int, col: int|
                        0 <= row < i && 0 <= col < nw ==> #[trigger] (row * nw + col) < i as int
                            * nw) by {
                        lemma_row_major_in_range(nw as int, i as int);
                    }
                }
                j = j + 1;
            }
            proof {
                assert((i + 1) as int * nw == i as int * nw + nw) by (nonlinear_arith);
                assert(forall|col: int|
                    0 <= col < nw ==> i as int * nw + col == #[trigger] (i as int * nw + col));
            }
            i = i + 1;
        }
        proof {
            assert(i == nh);
        }
        data
    }
}

/// Which geometric transform a rebuild performs.
enum TransformKind {
    Flip,
    Mirror,
    Rotate,
}

/// Row-major offsets of in-range cells lie inside the buffer.
proof fn lemma_row_major_in_range(w: int, h: int)
    requires
        w >= 0,
        h >= 0,
    ensures
        forall|row: int, col: int| 0 <= row < h && 0 <= col < w ==> #[trigger] (row * w + col) < h * w,
{
    assert forall|row: int, col: int| 0 <= row < h && 0 <= col < w implies #[trigger] (row * w
        + col) < h * w by {
        assert((row + 1) * w <= h * w) by (nonlinear_arith)
            requires
                row + 1 <= h,
                w >= 0,
        ;
        assert(row * w + col < (row + 1) * w) by (nonlinear_arith)
            requires
                col < w,
        ;
    }
}

/// The row-major offset of an in-range cell lies inside the buffer, and is
/// nonnegative.
proof fn lemma_row_major_index(w: int, h: int, row: int, col: int)
    requires
        0 <= row < h,
        0 <= col < w,
    ensures
        0 <= row * w + col < h * w,
{
    lemma_row_major_in_range(w, h);
    assert(row * w >= 0) by (nonlinear_arith)
        requires
            row >= 0,
            w >= 0,
    ;
}

/// Distinct in-range cells have distinct row-major offsets.
proof fn lemma_row_major_distinct(w: int, h: int)
    requires
        w >= 0,
        h >= 0,
    ensures
        forall|r1: int, c1: int, r2: int, c2: int|
            0 <= r1 < h && 0 <= c1 < w && 0 <= r2 < h && 0 <= c2 < w && !(r1 == r2 && c1 == c2)
                ==> #[trigger] (r1 * w + c1) != #[trigger] (r2 * w + c2),
{
    assert forall|r1: int, c1: int, r2: int, c2: int|
        0 <= r1 < h && 0 <= c1 < w && 0 <= r2 < h && 0 <= c2 < w && !(r1 == r2 && c1 == c2)
        implies #[trigger] (r1 * w + c1) != #[trigger] (r2 * w + c2) by {
        if r1 == r2 {
        } else {
            assert(r1 * w + c1 != r2 * w + c2) by (nonlinear_arith)
                requires
                    0 <= c1 < w,
                    0 <= c2 < w,
                    r1 != r2,
                    r1 >= 0,
                    r2 >= 0,
            ;
        }
    }
}

} // verus!
