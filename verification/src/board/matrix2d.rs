use vstd::prelude::*;
use crate::board_pos::BoardPos;
use crate::board_size::BoardSize;

verus! {

/// A dense `w` x `h` grid stored column-major in a single buffer.
pub struct Matrix2D<T> {
    pub data: Vec<T>,
    pub w: u32,
    pub h: u32,
}

impl<T> Matrix2D<T> {
    /// The buffer holds exactly one cell per square.
    pub open spec fn wf(&self) -> bool {
        self.data@.len() == self.w as int * self.h as int && self.data@.len() <= usize::MAX
    }

    /// Buffer offset of a square.
    pub open spec fn spec_index_of(&self, pos: BoardPos) -> int {
        pos.col as int * self.h as int + pos.row as int
    }

    pub open spec fn spec_in_range(&self, pos: BoardPos) -> bool {
        pos.col < self.w && pos.row < self.h
    }

    /// The cell stored at an in-range square.
    pub open spec fn spec_at(&self, pos: BoardPos) -> T {
        self.data@[self.spec_index_of(pos)]
    }

    /// Offsets of in-range squares stay within the buffer.
    pub proof fn lemma_index_in_bounds(&self, pos: BoardPos)
        requires
            self.spec_in_range(pos),
        ensures
            0 <= self.spec_index_of(pos) < self.w as int * self.h as int,
    {
        let c = pos.col as int;
        let r = pos.row as int;
        let w = self.w as int;
        let h = self.h as int;
        assert(c * h + r < w * h) by (nonlinear_arith)
            requires
                0 <= c < w,
                0 <= r < h,
        ;
        assert(c * h + r >= 0) by (nonlinear_arith)
            requires
                0 <= c,
                0 <= r,
                0 <= h,
        ;
    }

    /// Distinct in-range squares have distinct buffer offsets.
    pub broadcast proof fn lemma_index_injective(&self, a: BoardPos, b: BoardPos)
        requires
            self.spec_in_range(a),
            self.spec_in_range(b),
            a != b,
        ensures
            #[trigger] self.spec_index_of(a) != #[trigger] self.spec_index_of(b),
    {
        let h = self.h as int;
        assert(a.col as int * h + a.row as int != b.col as int * h + b.row as int)
            by (nonlinear_arith)
            requires
                0 <= a.row < h,
                0 <= b.row < h,
                a.col != b.col || a.row != b.row,
                0 <= a.col,
                0 <= b.col,
        ;
    }

    pub fn new<F: Fn() -> T>(w: u32, h: u32, f: F) -> (r: Matrix2D<T>)
        requires
            w as int * h as int <= usize::MAX,
            call_requires(f, ()),
        ensures
            r.w == w,
            r.h == h,
            r.wf(),
            forall|i: int| 0 <= i < r.data@.len() ==> call_ensures(f, (), #[trigger] r.data@[i]),
    {
        proof {
            assert(w as int * h as int >= 0) by (nonlinear_arith)
                requires
                    w >= 0,
                    h >= 0,
            ;
        }
        let count: usize = (w as usize) * (h as usize);
        let mut data: Vec<T> = Vec::new();
        let mut i: usize = 0;
        while i < count
            invariant
                i <= count,
                count == w as int * h as int,
                data@.len() == i,
                call_requires(f, ()),
                forall|k: int| 0 <= k < i ==> call_ensures(f, (), #[trigger] data@[k]),
            decreases count - i,
        {
            data.push(f());
            i = i + 1;
        }
        Matrix2D { data, w, h }
    }

    /// Build a new grid of the same shape by applying `f` to every cell.
    pub fn map<R, F: Fn(&T) -> R>(self, f: F) -> (r: Matrix2D<R>)
        requires
            self.wf(),
            forall|t: &T| #[trigger] call_requires(f, (t,)),
        ensures
            r.w == self.w,
            r.h == self.h,
            r.wf(),
            forall|i: int|
                0 <= i < r.data@.len() ==> call_ensures(f, (&self.data@[i],), #[trigger] r.data@[i]),
    {
        let mut data: Vec<R> = Vec::new();
        let n = self.data.len();
        let mut i: usize = 0;
        while i < n
            invariant
                i <= n,
                n == self.data@.len(),
                data@.len() == i,
                forall|t: &T| #[trigger] call_requires(f, (t,)),
                forall|k: int| 0 <= k < i ==> call_ensures(f, (&self.data@[k],), #[trigger] data@[k]),
            decreases n - i,
        {
            data.push(f(&self.data[i]));
            i = i + 1;
        }
        Matrix2D { data, w: self.w, h: self.h }
    }

    pub fn at(&self, pos: BoardPos) -> (r: &T)
        requires
            self.wf(),
            self.spec_in_range(pos),
        ensures
            *r == self.spec_at(pos),
    {
        proof {
            self.lemma_index_in_bounds(pos);
        }
        &self.data[(pos.col as usize) * (self.h as usize) + (pos.row as usize)]
    }

    pub fn at_mut(&mut self, pos: BoardPos) -> (r: &mut T)
        requires
            old(self).wf(),
            old(self).spec_in_range(pos),
        ensures
            *r == old(self).spec_at(pos),
            final(self).w == old(self).w,
            final(self).h == old(self).h,
            final(self).wf(),
            final(self).data@ == old(self).data@.update(old(self).spec_index_of(pos), *final(r)),
            final(self).spec_at(pos) == *final(r),
            forall|j: int|
                0 <= j < old(self).data@.len() && j != old(self).spec_index_of(pos)
                    ==> final(self).data@[j] == old(self).data@[j],
            forall|q: BoardPos|
                old(self).spec_in_range(q) && q != pos
                    ==> final(self).spec_at(q) == old(self).spec_at(q),
    {
        proof {
            self.lemma_index_in_bounds(pos);
            assert forall|q: BoardPos| self.spec_in_range(q) && q != pos implies 0 <= #[trigger] self.spec_index_of(q) < self.data@.len() && self.spec_index_of(q) != self.spec_index_of(pos) by {
                self.lemma_index_in_bounds(q);
                self.lemma_index_injective(q, pos);
            }
        }
        let idx: usize = (pos.col as usize) * (self.h as usize) + (pos.row as usize);
        &mut self.data[idx]
    }

    pub fn is_in_range(&self, pos: BoardPos) -> (r: bool)
        ensures
            r == self.spec_in_range(pos),
    {
        pos.col < self.w && pos.row < self.h
    }

    pub fn size(&self) -> (r: BoardSize)
        ensures
            r == (BoardSize { width: self.w, height: self.h }),
    {
        BoardSize { width: self.w, height: self.h }
    }

    pub fn iter<'a>(&'a self) -> (r: Matrix2DIterator<'a, T>)
        requires
            self.wf(),
        ensures
            r.matrix == self,
            r.start == (BoardPos { col: 0, row: 0 }),
            r.size == (BoardSize { width: self.w, height: self.h }),
            r.col == 0,
            r.row == 0,
    {
        Matrix2DIterator {
            matrix: self,
            col: 0,
            row: 0,
            start: BoardPos { col: 0, row: 0 },
            size: BoardSize { width: self.w, height: self.h },
        }
    }

    pub fn iter_section<'a>(&'a self, start: BoardPos, size: BoardSize) -> (r: Matrix2DIterator<
        'a,
        T,
    >)
        requires
            self.wf(),
            start.col + size.width <= self.w,
            start.row + size.height <= self.h,
        ensures
            r.matrix == self,
            r.start == start,
            r.size == size,
            r.col == start.col,
            r.row == start.row,
    {
        Matrix2DIterator { matrix: self, col: start.col, row: start.row, start, size }
    }
}

/// A row-major cursor over a rectangular window of a grid.
pub struct Matrix2DIterator<'a, T> {
    pub matrix: &'a Matrix2D<T>,
    pub col: u32,
    pub row: u32,
    pub start: BoardPos,
    pub size: BoardSize,
}

impl<'a, T> Matrix2DIterator<'a, T> {
    /// The cursor points into its window, or sits one row past it.
    pub open spec fn wf(&self) -> bool {
        &&& self.matrix.wf()
        &&& self.start.col + self.size.width <= self.matrix.w
        &&& self.start.row + self.size.height <= self.matrix.h
        &&& self.start.col <= self.col
        &&& self.col < self.start.col + self.size.width || (self.size.width == 0 && self.col
            == self.start.col)
        &&& self.start.row <= self.row <= self.start.row + self.size.height
    }

    pub fn start(&self) -> (r: BoardPos)
        ensures
            r == self.start,
    {
        self.start
    }

    pub fn size(&self) -> (r: BoardSize)
        ensures
            r == self.size,
    {
        self.size
    }

    /// Yield the cell under the cursor and advance row-major, or report the
    /// window exhausted.
    pub fn next(&mut self) -> (r: Option<&'a T>)
        requires
            old(self).wf(),
        ensures
            final(self).matrix == old(self).matrix,
            final(self).start == old(self).start,
            final(self).size == old(self).size,
            final(self).wf(),
            old(self).row == old(self).start.row + old(self).size.height || old(self).size.width
                == 0 ==> r is None && *final(self) == *old(self),
            old(self).row < old(self).start.row + old(self).size.height && old(self).size.width > 0
                ==> r == Some(
                &old(self).matrix.spec_at(BoardPos { col: old(self).col, row: old(self).row }),
            ) && (if old(self).col + 1 == old(self).start.col + old(self).size.width {
                final(self).col == old(self).start.col && final(self).row == old(self).row + 1
            } else {
                final(self).col == old(self).col + 1 && final(self).row == old(self).row
            }),
    {
        if self.row == self.start.row + self.size.height || self.size.width == 0 {
            return None;
        }
        let pos = BoardPos { col: self.col, row: self.row };
        let val = self.matrix.at(pos);
        if self.col + 1 == self.start.col + self.size.width {
            self.col = self.start.col;
            self.row = self.row + 1;
        } else {
            self.col = self.col + 1;
        }
        Some(val)
    }
}

} // verus!
