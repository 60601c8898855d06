use vstd::prelude::*;

use crate::matrix::Matrix;
use crate::matrix::row_of;

verus! {

/// Read-only traversal of a matrix, one row view per step, top to bottom.
pub struct Iter<'a, T> {
    matrix: &'a Matrix<T>,
    i: usize,
}

impl<'a, T> Iter<'a, T> {
    /// The matrix being traversed.
    pub closed spec fn source(&self) -> Matrix<T> {
        *self.matrix
    }

    /// The index of the next row to hand out.
    pub closed spec fn pos(&self) -> nat {
        self.i as nat
    }

    /// Hands out the next row, or `None` once every row has been handed out.
    /// An exhausted traversal stays exhausted.
    pub fn next(&mut self) -> (r: Option<&'a [T]>)
        requires
            old(self).source().wf(),
        ensures
            final(self).source() == old(self).source(),
            old(self).pos() < old(self).source().nrows() ==> {
                &&& r is Some
                &&& r.unwrap()@ == old(self).source().row_view(old(self).pos() as int)
                &&& final(self).pos() == old(self).pos() + 1
            },
            old(self).pos() >= old(self).source().nrows() ==> {
                &&& r is None
                &&& final(self).pos() == old(self).pos()
            },
    {
        if self.i >= self.matrix.rows() {
            None
        } else {
            let row = self.matrix.row(self.i);
            self.i = self.i + 1;
            Some(row)
        }
    }
}

/// Mutable traversal of a matrix, one row view per step, top to bottom.
/// The rows not yet handed out are kept as one slice; each step splits the
/// next row off its front, so the views handed out never overlap.
pub struct IterMut<'a, T> {
    rest: &'a mut [T],
    cols: usize,
    rows: usize,
    i: usize,
}

impl<'a, T> IterMut<'a, T> {
    /// The borrow of the rows not yet handed out.
    pub closed spec fn rest(&self) -> &'a mut [T] {
        self.rest
    }

    /// The width of each row.
    pub closed spec fn width(&self) -> nat {
        self.cols as nat
    }

    /// The number of rows of the matrix.
    pub closed spec fn height(&self) -> nat {
        self.rows as nat
    }

    /// The index of the next row to hand out.
    pub closed spec fn pos(&self) -> nat {
        self.i as nat
    }

    /// Once a traversal will not be used again, its rest keeps what it holds now:
    /// the rows never handed out come back to the matrix as they were.
    pub proof fn lemma_resolved(&self)
        requires
            has_resolved(*self),
        ensures
            final(self.rest())@ == self.rest()@,
    {
    }

    /// The rows not yet handed out fill the rest exactly.
    pub closed spec fn wf(&self) -> bool {
        &&& self.i <= self.rows
        &&& self.rest@.len() == (self.rows - self.i) * self.cols
    }

    /// Hands out the next row, mutably, or `None` once every row has been handed out.
    /// What is written through the row lands at the front of the current rest.
    /// An exhausted traversal stays exhausted.
    pub fn next(&mut self) -> (r: Option<&'a mut [T]>)
        requires
            old(self).wf(),
        ensures
            final(self).wf(),
            final(self).width() == old(self).width(),
            final(self).height() == old(self).height(),
            old(self).pos() < old(self).height() ==> {
                &&& r is Some
                &&& r.unwrap()@ == row_of(old(self).rest()@, old(self).width(), 0)
                &&& final(self).pos() == old(self).pos() + 1
                &&& final(self).rest()@ == old(self).rest()@.subrange(
                    old(self).width() as int,
                    old(self).rest()@.len() as int,
                )
                &&& final(old(self).rest())@ == final(r.unwrap())@ + final(final(self).rest())@
            },
            old(self).pos() >= old(self).height() ==> {
                &&& r is None
                &&& *final(self) == *old(self)
            },
    {
        if self.i >= self.rows {
            None
        } else {
            proof {
                assert((self.rows - self.i) * self.cols == self.cols + (self.rows - self.i - 1) * self.cols)
                    by (nonlinear_arith);
            }
            let mut tail: &'a mut [T] = &mut [];
            core::mem::swap(&mut tail, &mut self.rest);
            let (row, rest) = tail.split_at_mut(self.cols);
            self.rest = rest;
            self.i = self.i + 1;
            Some(row)
        }
    }
}

impl<T> Matrix<T> {
    /// Starts a read-only traversal at the first row.
    pub fn iter(&self) -> (it: Iter<'_, T>)
        ensures
            it.source() == *self,
            it.pos() == 0,
    {
        Iter { matrix: self, i: 0 }
    }

    /// Starts a mutable traversal at the first row. The matrix afterwards holds
    /// what the traversal's rows held when it ended; its shape does not change.
    pub fn iter_mut(&mut self) -> (it: IterMut<'_, T>)
        requires
            old(self).wf(),
        ensures
            it.wf(),
            it.pos() == 0,
            it.width() == old(self).ncols(),
            it.height() == old(self).nrows(),
            it.rest()@ == old(self)@,
            final(self).nrows() == old(self).nrows(),
            final(self).ncols() == old(self).ncols(),
            final(self)@ == final(it.rest())@,
    {
        let rows = self.rows();
        let cols = self.cols();
        IterMut { rest: self.as_mut_slice(), cols, rows, i: 0 }
    }
}

} // verus!
