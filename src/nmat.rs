use std::marker::PhantomData;
use vstd::prelude::*;

verus! {

/// (rows, columns)
pub type Dimension = (usize, usize);

/// (row, column)
pub type Coordinate = (usize, usize);

/// How the cells of a matrix are laid out in its flat storage.
pub trait Ordering {
    /// Position of cell (x, y) in the storage of a `rows` x `cols` matrix.
    spec fn spec_idx(rows: int, cols: int, x: int, y: int) -> int;

    spec fn spec_human_name() -> Seq<char>;

    proof fn lemma_idx_in_bounds(rows: int, cols: int, x: int, y: int)
        requires
            0 <= x < rows,
            0 <= y < cols,
        ensures
            0 <= Self::spec_idx(rows, cols, x, y) < rows * cols,
    ;

    proof fn lemma_idx_injective(rows: int, cols: int, x1: int, y1: int, x2: int, y2: int)
        requires
            0 <= x1 < rows,
            0 <= y1 < cols,
            0 <= x2 < rows,
            0 <= y2 < cols,
            x1 != x2 || y1 != y2,
        ensures
            Self::spec_idx(rows, cols, x1, y1) != Self::spec_idx(rows, cols, x2, y2),
    ;

    fn idx(dim: Dimension, coord: Coordinate) -> (r: usize)
        requires
            coord.0 < dim.0,
            coord.1 < dim.1,
            dim.0 * dim.1 <= usize::MAX,
        ensures
            r == Self::spec_idx(dim.0 as int, dim.1 as int, coord.0 as int, coord.1 as int),
            r < dim.0 * dim.1,
    ;

    fn human_name() -> (r: String)
        ensures
            r@ == Self::spec_human_name(),
    ;
}

pub struct RowMajor {}

impl Ordering for RowMajor {
    open spec fn spec_idx(rows: int, cols: int, x: int, y: int) -> int {
        y + x * cols
    }

    open spec fn spec_human_name() -> Seq<char> {
        "RowMajor"@
    }

    proof fn lemma_idx_in_bounds(rows: int, cols: int, x: int, y: int) {
        assert(x * cols + y < rows * cols) by (nonlinear_arith)
            requires
                0 <= x < rows,
                0 <= y < cols,
        ;
    }

    proof fn lemma_idx_injective(rows: int, cols: int, x1: int, y1: int, x2: int, y2: int) {
        if x1 < x2 {
            assert(x1 * cols + y1 < x2 * cols + y2) by (nonlinear_arith)
                requires
                    x1 < x2,
                    0 <= y1 < cols,
                    0 <= y2,
            ;
        } else if x2 < x1 {
            assert(x2 * cols + y2 < x1 * cols + y1) by (nonlinear_arith)
                requires
                    x2 < x1,
                    0 <= y2 < cols,
                    0 <= y1,
            ;
        }
    }

    fn idx(dim: Dimension, coord: Coordinate) -> (r: usize) {
        proof {
            Self::lemma_idx_in_bounds(dim.0 as int, dim.1 as int, coord.0 as int, coord.1 as int);
        }
        let (x, y) = coord;
        assert(x * dim.1 <= x * dim.1 + y) by (nonlinear_arith);
        y + x * dim.1
    }

    fn human_name() -> (r: String) {
        proof {
            reveal_strlit("RowMajor");
        }
        "RowMajor".to_owned()
    }
}

pub struct ColumnMajor {}

impl Ordering for ColumnMajor {
    open spec fn spec_idx(rows: int, cols: int, x: int, y: int) -> int {
        x + y * rows
    }

    open spec fn spec_human_name() -> Seq<char> {
        "ColumnMajor"@
    }

    proof fn lemma_idx_in_bounds(rows: int, cols: int, x: int, y: int) {
        assert(y * rows + x < cols * rows) by (nonlinear_arith)
            requires
                0 <= x < rows,
                0 <= y < cols,
        ;
        assert(cols * rows == rows * cols) by (nonlinear_arith);
    }

    proof fn lemma_idx_injective(rows: int, cols: int, x1: int, y1: int, x2: int, y2: int) {
        if y1 < y2 {
            assert(y1 * rows + x1 < y2 * rows + x2) by (nonlinear_arith)
                requires
                    y1 < y2,
                    0 <= x1 < rows,
                    0 <= x2,
            ;
        } else if y2 < y1 {
            assert(y2 * rows + x2 < y1 * rows + x1) by (nonlinear_arith)
                requires
                    y2 < y1,
                    0 <= x2 < rows,
                    0 <= x1,
            ;
        }
    }

    fn idx(dim: Dimension, coord: Coordinate) -> (r: usize) {
        proof {
            Self::lemma_idx_in_bounds(dim.0 as int, dim.1 as int, coord.0 as int, coord.1 as int);
        }
        let (x, y) = coord;
        assert(y * dim.0 <= y * dim.0 + x) by (nonlinear_arith);
        x + y * dim.0
    }

    fn human_name() -> (r: String) {
        proof {
            reveal_strlit("ColumnMajor");
        }
        "ColumnMajor".to_owned()
    }
}

/// A `rows` x `cols` matrix whose cells are stored in the layout `O`.
pub struct Matrix<T, O: Ordering> {
    dim: Dimension,
    values: Vec<T>,
    ordering: PhantomData<O>,
}

impl<T, O: Ordering> Matrix<T, O> {
    /// The storage holds exactly one cell for each coordinate.
    pub closed spec fn wf(&self) -> bool {
        &&& self.values@.len() == self.dim.0 * self.dim.1
        &&& self.dim.0 * self.dim.1 <= usize::MAX
    }

    pub closed spec fn rows(&self) -> nat {
        self.dim.0 as nat
    }

    pub closed spec fn cols(&self) -> nat {
        self.dim.1 as nat
    }

    /// The cell in row `x` and column `y`.
    pub closed spec fn at(&self, x: int, y: int) -> T {
        self.values@[O::spec_idx(self.dim.0 as int, self.dim.1 as int, x, y)]
    }

    pub open spec fn in_range(&self, x: int, y: int) -> bool {
        0 <= x < self.rows() && 0 <= y < self.cols()
    }

    pub fn dim(&self) -> (r: Dimension)
        ensures
            r.0 == self.rows(),
            r.1 == self.cols(),
    {
        self.dim
    }

    pub fn get(&self, c: Coordinate) -> (r: &T)
        requires
            self.wf(),
            self.in_range(c.0 as int, c.1 as int),
        ensures
            *r == self.at(c.0 as int, c.1 as int),
    {
        let i = O::idx(self.dim, c);
        &self.values[i]
    }

    pub fn set(&mut self, c: Coordinate, v: T)
        requires
            old(self).wf(),
            old(self).in_range(c.0 as int, c.1 as int),
        ensures
            final(self).wf(),
            final(self).rows() == old(self).rows(),
            final(self).cols() == old(self).cols(),
            final(self).at(c.0 as int, c.1 as int) == v,
            forall|x: int, y: int|
                final(self).in_range(x, y) && (x != c.0 || y != c.1) ==> #[trigger] final(self).at(
                    x,
                    y,
                ) == old(self).at(x, y),
    {
        let i = O::idx(self.dim, c);
        self.values.set(i, v);
        proof {
            assert forall|x: int, y: int|
                self.in_range(x, y) && (x != c.0 || y != c.1) implies #[trigger] self.at(x, y)
                == old(self).at(x, y) by {
                O::lemma_idx_injective(
                    self.dim.0 as int,
                    self.dim.1 as int,
                    x,
                    y,
                    c.0 as int,
                    c.1 as int,
                );
                O::lemma_idx_in_bounds(self.dim.0 as int, self.dim.1 as int, x, y);
            }
        }
    }
}

impl<T: Copy, O: Ordering> Matrix<T, O> {
    /// A matrix of the given size with every cell set to `default`.
    pub fn new_with_default(dim: Dimension, default: T) -> (r: Self)
        requires
            dim.0 * dim.1 <= usize::MAX,
        ensures
            r.wf(),
            r.rows() == dim.0,
            r.cols() == dim.1,
            forall|x: int, y: int| r.in_range(x, y) ==> #[trigger] r.at(x, y) == default,
    {
        let n: usize = dim.0 * dim.1;
        let mut values: Vec<T> = Vec::new();
        let mut k: usize = 0;
        while k < n
            invariant
                k <= n,
                values@.len() == k,
                forall|i: int| 0 <= i < k ==> values@[i] == default,
            decreases n - k,
        {
            values.push(default);
            k = k + 1;
        }
        let r = Matrix { dim, values, ordering: PhantomData };
        proof {
            assert forall|x: int, y: int| r.in_range(x, y) implies #[trigger] r.at(x, y)
                == default by {
                O::lemma_idx_in_bounds(dim.0 as int, dim.1 as int, x, y);
            }
        }
        r
    }
}

impl<T: Copy + Default, O: Ordering> Matrix<T, O> {
    /// A matrix of the given size with every cell set to `T::default()`.
    pub fn new(dim: Dimension) -> (r: Self)
        requires
            dim.0 * dim.1 <= usize::MAX,
        ensures
            r.wf(),
            r.rows() == dim.0,
            r.cols() == dim.1,
            forall|x: int, y: int|
                r.in_range(x, y) ==> call_ensures(T::default, (), #[trigger] r.at(x, y)),
    {
        let d = T::default();
        Self::new_with_default(dim, d)
    }
}

impl<T: Copy + Default> Matrix<T, RowMajor> {
    pub fn new_row_major(dim: Dimension) -> (r: Self)
        requires
            dim.0 * dim.1 <= usize::MAX,
        ensures
            r.wf(),
            r.rows() == dim.0,
            r.cols() == dim.1,
            forall|x: int, y: int|
                r.in_range(x, y) ==> call_ensures(T::default, (), #[trigger] r.at(x, y)),
    {
        Matrix::<T, RowMajor>::new(dim)
    }
}

impl<T: Copy + Default> Matrix<T, ColumnMajor> {
    pub fn new_column_major(dim: Dimension) -> (r: Self)
        requires
            dim.0 * dim.1 <= usize::MAX,
        ensures
            r.wf(),
            r.rows() == dim.0,
            r.cols() == dim.1,
            forall|x: int, y: int|
                r.in_range(x, y) ==> call_ensures(T::default, (), #[trigger] r.at(x, y)),
    {
        Matrix::<T, ColumnMajor>::new(dim)
    }
}

/// The sum of a.at(x, t) * b.at(t, y) over t < k.
pub open spec fn dot<O1: Ordering, O2: Ordering>(
    a: &Matrix<i64, O1>,
    b: &Matrix<i64, O2>,
    x: int,
    y: int,
    k: int,
) -> int
    decreases k,
{
    if k <= 0 {
        0
    } else {
        dot(a, b, x, y, k - 1) + a.at(x, k - 1) * b.at(k - 1, y)
    }
}

/// Every partial sum of every cell of the product `a * b` fits in an `i64`.
pub open spec fn product_fits<O1: Ordering, O2: Ordering>(
    a: &Matrix<i64, O1>,
    b: &Matrix<i64, O2>,
) -> bool {
    forall|x: int, y: int, k: int|
        0 <= x < a.rows() && 0 <= y < b.cols() && 0 <= k <= a.cols() ==> i64::MIN <= #[trigger] dot(
            a,
            b,
            x,
            y,
            k,
        ) <= i64::MAX
}

impl<O1: Ordering> Matrix<i64, O1> {
    /// The matrix product `self * rhs`, laid out row by row.
    pub fn mul<O2: Ordering>(&self, rhs: &Matrix<i64, O2>) -> (r: Matrix<i64, RowMajor>)
        requires
            self.wf(),
            rhs.wf(),
            self.cols() == rhs.rows(),
            self.rows() * rhs.cols() <= usize::MAX,
            product_fits(self, rhs),
        ensures
            r.wf(),
            r.rows() == self.rows(),
            r.cols() == rhs.cols(),
            forall|x: int, y: int|
                r.in_range(x, y) ==> #[trigger] r.at(x, y) == dot(self, rhs, x, y, self.cols() as int),
    {
        let (n, m) = self.dim();
        let (_m2, p) = rhs.dim();
        let mut output: Matrix<i64, RowMajor> = Matrix::new_with_default((n, p), 0i64);
        let mut i: usize = 0;
        while i < n
            invariant
                n == self.rows(),
                m == self.cols(),
                m == rhs.rows(),
                p == rhs.cols(),
                self.wf(),
                rhs.wf(),
                product_fits(self, rhs),
                i <= n,
                output.wf(),
                output.rows() == n,
                output.cols() == p,
                forall|x: int, y: int|
                    0 <= x < i && 0 <= y < p ==> #[trigger] output.at(x, y) == dot(self, rhs, x, y, m as int),
            decreases n - i,
        {
            let mut j: usize = 0;
            while j < p
                invariant
                    n == self.rows(),
                    m == self.cols(),
                    m == rhs.rows(),
                    p == rhs.cols(),
                    self.wf(),
                    rhs.wf(),
                    product_fits(self, rhs),
                    i < n,
                    j <= p,
                    output.wf(),
                    output.rows() == n,
                    output.cols() == p,
                    forall|x: int, y: int|
                        (0 <= x < i && 0 <= y < p) || (x == i && 0 <= y < j) ==> #[trigger] output.at(x, y)
                            == dot(self, rhs, x, y, m as int),
                decreases p - j,
            {
                let mut acc: i64 = 0;
                let mut k: usize = 0;
                while k < m
                    invariant
                        n == self.rows(),
                        m == self.cols(),
                        m == rhs.rows(),
                        p == rhs.cols(),
                        self.wf(),
                        rhs.wf(),
                        product_fits(self, rhs),
                        i < n,
                        j < p,
                        k <= m,
                        acc == dot(self, rhs, i as int, j as int, k as int),
                    decreases m - k,
                {
                    proof {
                        assert(i64::MIN <= dot(self, rhs, i as int, j as int, k + 1) <= i64::MAX);
                    }
                    let a = *self.get((i, k)) as i128;
                    let b = *rhs.get((k, j)) as i128;
                    assert(i64::MIN * i64::MAX <= a * b <= i64::MIN * i64::MIN) by (nonlinear_arith)
                        requires
                            i64::MIN <= a <= i64::MAX,
                            i64::MIN <= b <= i64::MAX,
                    ;
                    let sum: i128 = acc as i128 + a * b;
                    acc = sum as i64;
                    k = k + 1;
                }
                output.set((i, j), acc);
                j = j + 1;
            }
            i = i + 1;
        }
        output
    }

    /// Whether both matrices have the same size and the same value in every cell.
    pub fn equals<O2: Ordering>(&self, other: &Matrix<i64, O2>) -> (r: bool)
        requires
            self.wf(),
            other.wf(),
        ensures
            r == (self.rows() == other.rows() && self.cols() == other.cols() && forall|x: int, y: int|
                self.in_range(x, y) ==> #[trigger] self.at(x, y) == other.at(x, y)),
    {
        if self.dim.0 != other.dim().0 || self.dim.1 != other.dim().1 {
            return false;
        }
        let (rows, cols) = self.dim();
        let mut i: usize = 0;
        while i < rows
            invariant
                self.wf(),
                other.wf(),
                rows == self.rows(),
                cols == self.cols(),
                rows == other.rows(),
                cols == other.cols(),
                i <= rows,
                forall|x: int, y: int|
                    0 <= x < i && 0 <= y < cols ==> #[trigger] self.at(x, y) == other.at(x, y),
            decreases rows - i,
        {
            let mut j: usize = 0;
            while j < cols
                invariant
                    self.wf(),
                    other.wf(),
                    rows == self.rows(),
                    cols == self.cols(),
                    rows == other.rows(),
                    cols == other.cols(),
                    i < rows,
                    j <= cols,
                    forall|x: int, y: int|
                        (0 <= x < i && 0 <= y < cols) || (x == i && 0 <= y < j) ==> #[trigger] self.at(x, y)
                            == other.at(x, y),
                decreases cols - j,
            {
                if *self.get((i, j)) != *other.get((i, j)) {
                    return false;
                }
                j = j + 1;
            }
            i = i + 1;
        }
        true
    }
}

} // verus!
