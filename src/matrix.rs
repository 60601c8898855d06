use vstd::prelude::*;

verus! {

/// Why a matrix could not be built from the data it was given.
#[derive(Debug, Clone, Copy, PartialEq, Eq, Structural)]
pub enum ShapeError {
    /// A flat buffer of `len` elements cannot be cut into `rows` rows of equal width
    /// (`rows` is zero, or does not divide `len`).
    InvalidShape { len: usize, rows: usize },
    /// In a list of rows, row `row` holds `found` elements where the first row holds `expected`.
    JaggedRow { row: usize, expected: usize, found: usize },
}

/// A dense matrix stored row-major in one buffer: row `i` is the range
/// `i * cols .. (i + 1) * cols` of the buffer.
#[derive(Debug, Clone)]
pub struct Matrix<T> {
    v: Vec<T>,
    rows: usize,
    cols: usize,
}

impl<T> View for Matrix<T> {
    type V = Seq<T>;

    /// The buffer, row after row.
    closed spec fn view(&self) -> Seq<T> {
        self.v@
    }
}

/// The rows of `rows`, one after another.
pub open spec fn concat<T>(rows: Seq<Vec<T>>) -> Seq<T>
    decreases rows.len(),
{
    if rows.len() == 0 {
        Seq::empty()
    } else {
        rows[0]@ + concat(rows.drop_first())
    }
}

/// Row `i` of a row-major buffer whose rows are `cols` wide.
pub open spec fn row_of<T>(data: Seq<T>, cols: nat, i: int) -> Seq<T> {
    data.subrange(i * cols, i * cols + cols)
}

/// Rows of one width `c`, laid one after another, fill `rows.len() * c` elements,
/// and row `i` of the result is `rows[i]`.
proof fn lemma_concat_uniform<T>(rows: Seq<Vec<T>>, c: nat)
    requires
        forall|k: int| 0 <= k < rows.len() ==> #[trigger] rows[k]@.len() == c,
    ensures
        concat(rows).len() == rows.len() * c,
        forall|i: int| 0 <= i < rows.len() ==> #[trigger] row_of(concat(rows), c, i) == rows[i]@,
    decreases rows.len(),
{
    if rows.len() > 0 {
        let tail = rows.drop_first();
        assert forall|k: int| 0 <= k < tail.len() implies #[trigger] tail[k]@.len() == c by {
            assert(tail[k] == rows[k + 1]);
        }
        lemma_concat_uniform(tail, c);
        let all = concat(rows);
        assert(all == rows[0]@ + concat(tail));
        assert(all.len() == rows.len() * c) by (nonlinear_arith)
            requires all.len() == c + tail.len() * c, tail.len() == rows.len() - 1;
        assert forall|i: int| 0 <= i < rows.len() implies #[trigger] row_of(all, c, i) == rows[i]@ by {
            if i == 0 {
                assert(row_of(all, c, 0) =~= rows[0]@);
            } else {
                assert(tail[i - 1] == rows[i]);
                assert(row_of(concat(tail), c, i - 1) == rows[i]@);
                assert(i * c == c + (i - 1) * c) by (nonlinear_arith);
                assert((i - 1) * c + c <= tail.len() * c) by (nonlinear_arith)
                    requires i - 1 < tail.len();
                assert(0 <= (i - 1) * c) by (nonlinear_arith)
                    requires i >= 1;
                assert(row_of(all, c, i) =~= row_of(concat(tail), c, i - 1));
            }
        }
    }
}

/// The rows of a row-major buffer, laid one after another, give the buffer back.
proof fn lemma_flatten_rows<T>(data: Seq<T>, n: nat, c: nat)
    requires
        data.len() == n * c,
    ensures
        Seq::new(n, |i: int| row_of(data, c, i)).flatten() == data,
    decreases n,
{
    let rows = Seq::new(n, |i: int| row_of(data, c, i));
    if n == 0 {
        assert(data.len() == 0) by (nonlinear_arith)
            requires data.len() == n * c, n == 0;
        assert(data =~= Seq::<T>::empty());
    } else {
        assert(data.len() == c + (n - 1) * c) by (nonlinear_arith)
            requires data.len() == n * c, n > 0;
        let tail = data.subrange(c as int, data.len() as int);
        lemma_flatten_rows(tail, (n - 1) as nat, c);
        let tail_rows = Seq::new((n - 1) as nat, |i: int| row_of(tail, c, i));
        assert forall|i: int| 0 <= i < n - 1 implies #[trigger] rows.drop_first()[i] == tail_rows[i] by {
            assert((i + 1) * c == i * c + c) by (nonlinear_arith);
            assert(0 <= i * c) by (nonlinear_arith)
                requires i >= 0;
            assert(i * c + c <= (n - 1) * c) by (nonlinear_arith)
                requires i < n - 1;
            assert(row_of(data, c, i + 1) =~= row_of(tail, c, i));
        }
        assert(rows.drop_first() =~= tail_rows);
        assert(rows.first() =~= data.subrange(0, c as int));
        assert(rows.flatten() == rows.first() + rows.drop_first().flatten());
        assert(data =~= data.subrange(0, c as int) + tail);
    }
}

/// In a matrix read from a flat buffer of `rows * cols` elements, element `j` of
/// row `i` is element `i * cols + j` of the buffer.
pub proof fn lemma_row_element<T>(m: Matrix<T>, data: Seq<T>, rows: nat, cols: nat)
    requires
        m.wf(),
        m@ == data,
        m.nrows() == rows,
        m.ncols() == cols,
    ensures
        forall|i: int, j: int|
            0 <= i < rows && 0 <= j < cols ==> #[trigger] m.row_view(i)[j] == data[i * cols + j],
{
    assert forall|i: int, j: int| 0 <= i < rows && 0 <= j < cols implies #[trigger] m.row_view(i)[j]
        == data[i * cols + j] by {
        lemma_row_in_bounds(i, rows as int, cols as int);
    }
}

/// Reading a flat buffer as a matrix and laying its rows back one after another,
/// in the order a traversal hands them out, gives the buffer back.
pub proof fn lemma_round_trip<T>(m: Matrix<T>, data: Seq<T>, rows: nat)
    requires
        m.wf(),
        m@ == data,
        m.nrows() == rows,
    ensures
        m.rows_view().flatten() == data,
{
    lemma_flatten_rows(m@, m.nrows(), m.ncols());
    assert(m.rows_view() =~= Seq::new(m.nrows(), |i: int| row_of(m@, m.ncols(), i)));
}

proof fn lemma_row_in_bounds(i: int, rows: int, cols: int)
    requires
        0 <= i < rows,
        0 <= cols,
    ensures
        0 <= i * cols,
        i * cols + cols <= rows * cols,
{
    assert(0 <= i * cols) by (nonlinear_arith)
        requires 0 <= i, 0 <= cols;
    assert(i * cols + cols <= rows * cols) by (nonlinear_arith)
        requires i < rows, 0 <= cols;
}

impl<T> Matrix<T> {
    /// The number of rows.
    pub closed spec fn nrows(&self) -> nat {
        self.rows as nat
    }

    /// The number of columns, the width of every row.
    pub closed spec fn ncols(&self) -> nat {
        self.cols as nat
    }

    /// The buffer holds exactly `nrows * ncols` elements.
    pub open spec fn wf(&self) -> bool {
        &&& self@.len() == self.nrows() * self.ncols()
        &&& self@.len() <= usize::MAX
    }

    /// Row `i`, as a sequence of `ncols` elements.
    pub open spec fn row_view(&self, i: int) -> Seq<T> {
        row_of(self@, self.ncols(), i)
    }

    /// The rows, top to bottom: what a traversal hands out, in order.
    pub open spec fn rows_view(&self) -> Seq<Seq<T>> {
        Seq::new(self.nrows(), |i: int| self.row_view(i))
    }

    /// An empty matrix: no rows, no columns, no elements.
    pub fn new() -> (m: Self)
        ensures
            m.wf(),
            m@ == Seq::<T>::empty(),
            m.nrows() == 0,
            m.ncols() == 0,
    {
        Matrix { v: Vec::new(), rows: 0, cols: 0 }
    }

    /// An empty matrix whose buffer has room for `rows * cols` elements.
    pub fn with_capacity(rows: usize, cols: usize) -> (m: Self)
        requires
            rows * cols <= usize::MAX,
        ensures
            m.wf(),
            m@ == Seq::<T>::empty(),
            m.nrows() == 0,
            m.ncols() == 0,
    {
        Matrix { v: Vec::with_capacity(rows * cols), rows: 0, cols: 0 }
    }

    /// Reads `v` as `rows` rows of `v.len() / rows` elements each.
    /// Fails with `InvalidShape` when `rows` is zero or does not divide `v.len()`.
    pub fn from_vec(v: Vec<T>, rows: usize) -> (r: Result<Self, ShapeError>)
        ensures
            (rows == 0 || v@.len() % (rows as nat) != 0) <==> r is Err,
            r is Err ==> r == Err::<Self, ShapeError>(
                ShapeError::InvalidShape { len: v@.len() as usize, rows },
            ),
            r is Ok ==> {
                let m = r.unwrap();
                &&& m.wf()
                &&& m@ == v@
                &&& m.nrows() == rows
                &&& m.ncols() == v@.len() / (rows as nat)
            },
    {
        let len = v.len();
        if rows == 0 || len % rows != 0 {
            return Err(ShapeError::InvalidShape { len, rows });
        }
        let cols = len / rows;
        assert(len == rows * cols) by (nonlinear_arith)
            requires rows > 0, len % rows == 0, cols == len / rows;
        Ok(Matrix { v, rows, cols })
    }

    /// Builds a matrix from a list of rows, each given as its elements.
    /// Fails with `JaggedRow`, naming the first offending row, when the rows are not
    /// all as long as the first; fails with `InvalidShape` when there are no rows.
    pub fn from_rows(rows: Vec<Vec<T>>) -> (r: Result<Self, ShapeError>)
        ensures
            rows@.len() == 0 ==> r == Err::<Self, ShapeError>(
                ShapeError::InvalidShape { len: 0, rows: 0 },
            ),
            rows@.len() > 0 ==> (r is Ok <==> forall|k: int|
                0 <= k < rows@.len() ==> #[trigger] rows@[k]@.len() == rows@[0]@.len()),
            rows@.len() > 0 && r is Err ==> r->Err_0 is JaggedRow,
            r matches Err(ShapeError::JaggedRow { row, expected, found }) ==> {
                &&& 0 < row < rows@.len()
                &&& expected == rows@[0]@.len()
                &&& found == rows@[row as int]@.len()
                &&& found != expected
                &&& forall|q: int| 0 <= q < row ==> #[trigger] rows@[q]@.len() == expected
            },
            r is Ok ==> {
                let m = r.unwrap();
                &&& m.wf()
                &&& m@ == concat(rows@)
                &&& m.nrows() == rows@.len()
                &&& m.ncols() == rows@[0]@.len()
                &&& forall|i: int| 0 <= i < rows@.len() ==> #[trigger] m.row_view(i) == rows@[i]@
            },
    {
        let n = rows.len();
        if n == 0 {
            return Err(ShapeError::InvalidShape { len: 0, rows: 0 });
        }
        let width = rows[0].len();
        let mut k: usize = 1;
        while k < n
            invariant
                1 <= k <= n,
                n == rows@.len(),
                width == rows@[0]@.len(),
                forall|q: int| 0 <= q < k ==> #[trigger] rows@[q]@.len() == width,
            decreases n - k,
        {
            let found = rows[k].len();
            if found != width {
                return Err(ShapeError::JaggedRow { row: k, expected: width, found });
            }
            k = k + 1;
        }
        let ghost all = rows@;
        let mut data: Vec<T> = Vec::new();
        let mut rest = rows;
        while rest.len() > 0
            invariant
                data@ + concat(rest@) == concat(all),
                all.len() == n,
                forall|q: int| 0 <= q < n ==> #[trigger] all[q]@.len() == width,
            decreases rest@.len(),
        {
            let ghost before = rest@;
            let mut row = rest.remove(0);
            assert(before.drop_first() == rest@);
            data.append(&mut row);
        }
        proof {
            assert(data@ + concat(rest@) =~= data@);
            lemma_concat_uniform(all, width as nat);
            assert(data@.len() == n * width);
            assert((n * width) % (n as int) == 0 && (n * width) / (n as int) == width) by (nonlinear_arith)
                requires n > 0;
        }
        Matrix::from_vec(data, n)
    }

    /// The number of rows.
    pub fn rows(&self) -> (r: usize)
        ensures
            r == self.nrows(),
    {
        self.rows
    }

    /// The number of columns.
    pub fn cols(&self) -> (r: usize)
        ensures
            r == self.ncols(),
    {
        self.cols
    }

    /// The flat buffer, row after row.
    pub fn as_slice(&self) -> (r: &[T])
        ensures
            r@ == self@,
    {
        self.v.as_slice()
    }

    /// The flat buffer, mutably. The shape does not change.
    pub fn as_mut_slice(&mut self) -> (r: &mut [T])
        ensures
            r@ == old(self)@,
            final(self)@ == final(r)@,
            final(self).nrows() == old(self).nrows(),
            final(self).ncols() == old(self).ncols(),
    {
        self.v.as_mut_slice()
    }

    /// A read-only view of row `i`, without copying. Row `i` must exist: an index
    /// past the last row is outside the contract, which verified callers prove they
    /// keep; it is never clamped or wrapped.
    pub fn row(&self, i: usize) -> (r: &[T])
        requires
            self.wf(),
            i < self.nrows(),
        ensures
            r@ == self.row_view(i as int),
    {
        proof {
            lemma_row_in_bounds(i as int, self.rows as int, self.cols as int);
        }
        let start = i * self.cols;
        &self.v.as_slice()[start..start + self.cols]
    }

    /// A mutable view of row `i`, without copying. Row `i` must exist, as for `row`.
    /// What is written through the
    /// view lands in row `i`; every other element keeps its value.
    pub fn row_mut(&mut self, i: usize) -> (r: &mut [T])
        requires
            old(self).wf(),
            i < old(self).nrows(),
        ensures
            r@ == old(self).row_view(i as int),
            final(r)@.len() == r@.len() ==> final(self).wf(),
            final(self).nrows() == old(self).nrows(),
            final(self).ncols() == old(self).ncols(),
            final(self)@ == old(self)@.subrange(0, i * old(self).ncols())
                + final(r)@
                + old(self)@.subrange(i * old(self).ncols() + old(self).ncols(), old(self)@.len() as int),
    {
        proof {
            lemma_row_in_bounds(i as int, self.rows as int, self.cols as int);
        }
        let start = i * self.cols;
        let cols = self.cols;
        let all = self.v.as_mut_slice();
        let (_, tail) = all.split_at_mut(start);
        let (row, _) = tail.split_at_mut(cols);
        row
    }
}

} // verus!
