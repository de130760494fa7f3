use vstd::prelude::*;

verus! {

/// A dense row-major matrix: the element at `[row, col]` lives at
/// `row * cols + col` in the backing vector.
pub struct Matrix<T> {
    array: Vec<T>,
    pub rows: usize,
    pub cols: usize,
}

impl<T> View for Matrix<T> {
    type V = Seq<T>;

    /// The elements of the matrix, row after row.
    closed spec fn view(&self) -> Seq<T> {
        self.array@
    }
}

impl<T> Matrix<T> {
    /// The number of rows, as recorded in the matrix (read it with `rows()`).
    pub closed spec fn num_rows(&self) -> usize {
        self.rows
    }

    /// The number of columns, as recorded in the matrix (read it with `cols()`).
    pub closed spec fn num_cols(&self) -> usize {
        self.cols
    }

    /// A matrix holds at most `usize::MAX` elements.
    pub proof fn lemma_len_fits(&self)
        ensures
            self@.len() <= usize::MAX,
    {
        broadcast use vstd::std_specs::vec::axiom_spec_len;

        assert(self.array@.len() == self.array.len());
    }

    /// The matrix holds exactly `rows * cols` elements, one for each
    /// position.
    pub open spec fn wf(&self) -> bool {
        self@.len() == self.num_rows() * self.num_cols()
    }
}

/// Position in the backing storage of the element at `[row, col]`.
pub open spec fn flat_index(cols: usize, index: [usize; 2]) -> int {
    index[0] * cols + index[1]
}

impl<T> Matrix<T> {
    /// A `rows` by `cols` matrix whose every element is a clone of one
    /// default value.
    pub fn new(rows: usize, cols: usize) -> (m: Self)
        where T: Default + Clone,
        requires
            rows * cols <= usize::MAX,
        ensures
            m.num_rows() == rows,
            m.num_cols() == cols,
            m@.len() == rows * cols,
            m.wf(),
            exists|d: T| #![auto]
                call_ensures(T::default, (), d)
                && forall|i: int| 0 <= i < rows * cols ==> cloned(d, #[trigger] m@[i]),
    {
        let d = T::default();
        let array = vec![d; rows * cols];
        Matrix { array, rows, cols }
    }

    /// The number of rows.
    pub fn rows(&self) -> (r: usize)
        ensures
            r == self.num_rows(),
    {
        self.rows
    }

    /// The number of columns.
    pub fn cols(&self) -> (c: usize)
        ensures
            c == self.num_cols(),
    {
        self.cols
    }

    /// The elements of the matrix, row after row.
    pub fn get_array(&self) -> (a: &[T])
        ensures
            a@ == self@,
    {
        self.array.as_slice()
    }

    /// The element at `[row, col]`.
    pub fn get(&self, index: [usize; 2]) -> (r: &T)
        requires
            flat_index(self.num_cols(), index) < self@.len(),
        ensures
            *r == self@[flat_index(self.num_cols(), index)],
    {
        proof {
            self.lemma_len_fits();
        }
        &self.array[index[0] * self.cols + index[1]]
    }

    /// Mutable access to the element at `[row, col]`.
    pub fn get_mut(&mut self, index: [usize; 2]) -> (r: &mut T)
        requires
            flat_index(old(self).num_cols(), index) < old(self)@.len(),
        ensures
            *r == old(self)@[flat_index(old(self).num_cols(), index)],
            final(self)@ == old(self)@.update(flat_index(old(self).num_cols(), index), *final(r)),
            final(self).num_rows() == old(self).num_rows(),
            final(self).num_cols() == old(self).num_cols(),
            old(self).wf() ==> final(self).wf(),
    {
        proof {
            self.lemma_len_fits();
        }
        let i = index[0] * self.cols + index[1];
        &mut self.array[i]
    }
}

impl<T> std::ops::Index<[usize; 2]> for Matrix<T> {
    type Output = T;

    fn index(&self, index: [usize; 2]) -> (r: &T)
        ensures
            *r == self@[flat_index(self.num_cols(), index)],
    {
        self.get(index)
    }
}

impl<T> vstd::std_specs::core::IndexSpecImpl<[usize; 2]> for Matrix<T> {
    open spec fn index_req(&self, index: &[usize; 2]) -> bool {
        flat_index(self.num_cols(), *index) < self@.len()
    }
}

/// Row-major layout: two positions whose columns lie within the row length
/// and that differ in row or column occupy different slots.
pub proof fn lemma_distinct_positions(cols: usize, a: [usize; 2], b: [usize; 2])
    requires
        a[1] < cols,
        b[1] < cols,
        a[0] != b[0] || a[1] != b[1],
    ensures
        flat_index(cols, a) != flat_index(cols, b),
{
    let (r1, c1, r2, c2) = (a[0] as int, a[1] as int, b[0] as int, b[1] as int);
    let n = cols as int;
    if r1 == r2 {
    } else if r1 < r2 {
        assert(r1 * n + c1 < r2 * n + c2) by (nonlinear_arith)
            requires r1 < r2, 0 <= c1 < n, 0 <= c2, r1 >= 0;
    } else {
        assert(r2 * n + c2 < r1 * n + c1) by (nonlinear_arith)
            requires r2 < r1, 0 <= c2 < n, 0 <= c1, r2 >= 0;
    }
}

/// Row-major layout of a well-formed matrix: every position `[i, j]` with
/// `i < rows` and `j < cols` lies inside the elements, at `i * cols + j`, and
/// distinct positions lie at distinct places.
pub proof fn lemma_row_major<T>(m: Matrix<T>)
    requires
        m.wf(),
    ensures
        m@.len() == m.num_rows() * m.num_cols(),
        forall|a: [usize; 2]|
            a[0] < m.num_rows() && a[1] < m.num_cols() ==> 0 <= #[trigger] flat_index(m.num_cols(), a)
                < m@.len(),
        forall|a: [usize; 2], b: [usize; 2]|
            a[0] < m.num_rows() && a[1] < m.num_cols() && b[0] < m.num_rows() && b[1] < m.num_cols()
                && (a[0] != b[0] || a[1] != b[1]) ==> #[trigger] flat_index(m.num_cols(), a)
                != #[trigger] flat_index(m.num_cols(), b),
{
    let rows = m.num_rows() as int;
    let cols = m.num_cols() as int;
    assert forall|a: [usize; 2]| a[0] < m.num_rows() && a[1] < m.num_cols() implies 0
        <= #[trigger] flat_index(m.num_cols(), a) < m@.len() by {
        let (ii, jj) = (a[0] as int, a[1] as int);
        assert(0 <= ii * cols + jj < rows * cols) by (nonlinear_arith)
            requires 0 <= ii < rows, 0 <= jj < cols;
    }
    assert forall|a: [usize; 2], b: [usize; 2]|
        a[0] < m.num_rows() && a[1] < m.num_cols() && b[0] < m.num_rows() && b[1] < m.num_cols() && (
        a[0] != b[0] || a[1] != b[1]) implies #[trigger] flat_index(m.num_cols(), a)
        != #[trigger] flat_index(m.num_cols(), b) by {
        lemma_distinct_positions(m.num_cols(), a, b);
    }
}

/// A read through `get` after a write through `get_mut` gives back the value
/// written at that position and the earlier value elsewhere.
pub proof fn lemma_read_after_write<T>(before: Seq<T>, cols: usize, written: [usize; 2], read: [usize; 2], value: T)
    requires
        0 <= flat_index(cols, written) < before.len(),
        0 <= flat_index(cols, read) < before.len(),
    ensures
        before.update(flat_index(cols, written), value)[flat_index(cols, read)] == if flat_index(
            cols,
            written,
        ) == flat_index(cols, read) {
            value
        } else {
            before[flat_index(cols, read)]
        },
{
}

} // verus!
