//! Integer matrices with a transpose flag.
//!
//! A [`Determinant`] owns its entries in one row-major vector. Transposing
//! flips a flag; the logical shape and the way an index pair is resolved
//! follow the flag, the storage is never touched.

use vstd::prelude::*;

verus! {

/// A matrix over the integers, as contracts speak of it: its shape and its
/// rows.
pub struct Mat {
    pub rows: nat,
    pub cols: nat,
    pub cells: Seq<Seq<int>>,
}

impl Mat {
    /// There are `rows` rows of `cols` cells each.
    pub open spec fn wf(self) -> bool {
        &&& self.cells.len() == self.rows
        &&& forall|i: int| 0 <= i < self.rows ==> (#[trigger] self.cells[i]).len() == self.cols
    }

    pub open spec fn same_shape(self, other: Mat) -> bool {
        self.rows == other.rows && self.cols == other.cols
    }

    /// The matrix whose cell `(i, j)` is this one's cell `(j, i)`.
    pub open spec fn transpose(self) -> Mat {
        Mat {
            rows: self.cols,
            cols: self.rows,
            cells: Seq::new(
                self.cols,
                |i: int| Seq::new(self.rows, |j: int| self.cells[j][i]),
            ),
        }
    }

    /// The cell-wise sum.
    pub open spec fn sum(self, other: Mat) -> Mat {
        Mat {
            rows: self.rows,
            cols: self.cols,
            cells: Seq::new(
                self.rows,
                |i: int| Seq::new(self.cols, |j: int| self.cells[i][j] + other.cells[i][j]),
            ),
        }
    }

    /// The cell-wise difference.
    pub open spec fn difference(self, other: Mat) -> Mat {
        Mat {
            rows: self.rows,
            cols: self.cols,
            cells: Seq::new(
                self.rows,
                |i: int| Seq::new(self.cols, |j: int| self.cells[i][j] - other.cells[i][j]),
            ),
        }
    }

    /// The sum of the first `len` products of row `i` of `self` with column
    /// `j` of `other`.
    pub open spec fn dot(self, other: Mat, i: int, j: int, len: nat) -> int
        decreases len,
    {
        if len == 0 {
            0
        } else {
            self.dot(other, i, j, (len - 1) as nat) + self.cells[i][len - 1] * other.cells[len
                - 1][j]
        }
    }

    /// The matrix product, defined where `self.cols == other.rows`.
    pub open spec fn product(self, other: Mat) -> Mat {
        Mat {
            rows: self.rows,
            cols: other.cols,
            cells: Seq::new(
                self.rows,
                |i: int| Seq::new(other.cols, |j: int| self.dot(other, i, j, self.cols)),
            ),
        }
    }

    /// Every cell of the sum is an `i128`.
    pub open spec fn sum_fits(self, other: Mat) -> bool {
        forall|i: int, j: int|
            0 <= i < self.rows && 0 <= j < self.cols ==> fits_i128(
                #[trigger] self.cells[i][j] + other.cells[i][j],
            )
    }

    /// Every cell of the difference is an `i128`.
    pub open spec fn difference_fits(self, other: Mat) -> bool {
        forall|i: int, j: int|
            0 <= i < self.rows && 0 <= j < self.cols ==> fits_i128(
                #[trigger] self.cells[i][j] - other.cells[i][j],
            )
    }

    /// Every product of a cell of a row with the cell of a column that it
    /// meets, and every partial sum of these products, is an `i128`.
    pub open spec fn product_fits(self, other: Mat) -> bool {
        &&& forall|i: int, j: int, len: nat|
            0 <= i < self.rows && 0 <= j < other.cols && len <= self.cols ==> fits_i128(
                #[trigger] self.dot(other, i, j, len),
            )
        &&& forall|i: int, j: int, k: int|
            0 <= i < self.rows && 0 <= j < other.cols && 0 <= k < self.cols ==> fits_i128(
                #[trigger] self.cells[i][k] * #[trigger] other.cells[k][j],
            )
    }
}

pub open spec fn fits_i128(v: int) -> bool {
    i128::MIN <= v <= i128::MAX
}

/// The logical matrix that `data` holds: `m` rows of `n` cells in row-major
/// order, read as they stand or, with `t` set, transposed.
pub open spec fn stored(m: nat, n: nat, t: bool, data: Seq<i128>) -> Mat {
    if t {
        Mat {
            rows: n,
            cols: m,
            cells: Seq::new(n, |i: int| Seq::new(m, |j: int| data[j * n + i] as int)),
        }
    } else {
        Mat {
            rows: m,
            cols: n,
            cells: Seq::new(m, |i: int| Seq::new(n, |j: int| data[i * n + j] as int)),
        }
    }
}

/// Why a matrix operation gave no result.
#[derive(Debug, Clone, Copy, PartialEq, Eq, Structural)]
pub enum MatrixError {
    /// The shapes of the operands do not go together.
    DimensionMismatch,
    /// A cell of the result, or a product or partial sum on the way to it, is
    /// no `i128`.
    Overflow,
    /// The result has more cells than a matrix can hold.
    TooLarge,
}

/// An integer matrix: `m * n` entries in row-major order and a transpose flag.
#[derive(Debug, Clone)]
pub struct Determinant {
    m: usize,
    n: usize,
    t: bool,
    elements: Vec<i128>,
}

proof fn lemma_offset_in_range(i: int, j: int, m: int, n: int)
    requires
        0 <= i < m,
        0 <= j < n,
    ensures
        0 <= i * n + j < m * n,
        i * n >= 0,
{
    assert(i * n >= 0) by (nonlinear_arith)
        requires
            0 <= i,
            0 <= n,
    ;
    assert(i * n + n <= m * n) by (nonlinear_arith)
        requires
            i + 1 <= m,
            0 <= n,
    ;
}

impl View for Determinant {
    type V = Mat;

    closed spec fn view(&self) -> Mat {
        stored(self.m as nat, self.n as nat, self.t, self.elements@)
    }
}

impl Determinant {
    /// The storage holds exactly `m * n` entries.
    pub closed spec fn wf(&self) -> bool {
        self.m * self.n == self.elements@.len()
    }

    /// The entries as they lie in storage, whatever the flag says.
    pub closed spec fn storage(&self) -> Seq<i128> {
        self.elements@
    }

    /// Whether the matrix is read transposed.
    pub closed spec fn flag(&self) -> bool {
        self.t
    }

    /// The shape of the storage: rows and columns before the flag is
    /// consulted.
    pub closed spec fn stored_shape(&self) -> (nat, nat) {
        (self.m as nat, self.n as nat)
    }

    /// The view is the storage read through the flag.
    pub proof fn lemma_view(&self)
        ensures
            self@ == stored(self.stored_shape().0, self.stored_shape().1, self.flag(), self.storage()),
            self.wf() ==> self.stored_shape().0 * self.stored_shape().1 == self.storage().len(),
            self@.wf(),
    {
    }

    /// A zero matrix on `m * n` stored entries, read transposed if `t` is set.
    pub fn new(m: usize, n: usize, t: bool) -> (r: Self)
        requires
            m * n <= usize::MAX,
        ensures
            r.wf(),
            r.stored_shape() == (m as nat, n as nat),
            r.flag() == t,
            r.storage() == Seq::new((m * n) as nat, |k: int| 0i128),
            r@.rows == (if t { n } else { m }),
            r@.cols == (if t { m } else { n }),
            forall|i: int, j: int| 0 <= i < r@.rows && 0 <= j < r@.cols ==> r@.cells[i][j] == 0,
    {
        let elements: Vec<i128> = vec![0i128; m * n];
        assert(elements@ =~= Seq::new((m * n) as nat, |k: int| 0i128));
        let r = Self { m, n, t, elements };
        proof {
            assert forall|i: int, j: int| 0 <= i < r@.rows && 0 <= j < r@.cols implies r@.cells[i][j]
                == 0 by {
                if t {
                    lemma_offset_in_range(j, i, m as int, n as int);
                } else {
                    lemma_offset_in_range(i, j, m as int, n as int);
                }
            }
        }
        r
    }

    /// The matrix on the given storage, or nothing if `elements` does not
    /// hold `m * n` entries.
    pub fn from_vec(m: usize, n: usize, t: bool, elements: Vec<i128>) -> (r: Option<Self>)
        ensures
            r is Some <==> m * n == elements@.len(),
            r matches Some(d) ==> {
                &&& d.wf()
                &&& d.stored_shape() == (m as nat, n as nat)
                &&& d.flag() == t
                &&& d.storage() == elements@
                &&& d@ == stored(m as nat, n as nat, t, elements@)
            },
    {
        assert(elements@.len() == elements.len());
        match m.checked_mul(n) {
            Some(len) => {
                if len != elements.len() {
                    None
                } else {
                    Some(Self { m, n, t, elements })
                }
            },
            None => None,
        }
    }

    /// The number of rows of the matrix as it is read.
    pub fn m(&self) -> (r: usize)
        ensures
            r == self@.rows,
    {
        if self.t {
            self.n
        } else {
            self.m
        }
    }

    /// The number of columns of the matrix as it is read.
    pub fn n(&self) -> (r: usize)
        ensures
            r == self@.cols,
    {
        if self.t {
            self.m
        } else {
            self.n
        }
    }

    /// The matrix read transposed: the storage moves over as it is, the flag
    /// flips. Nothing is copied.
    pub fn t(self) -> (r: Self)
        requires
            self.wf(),
        ensures
            r.wf(),
            r.stored_shape() == self.stored_shape(),
            r.storage() == self.storage(),
            r.flag() == !self.flag(),
            r@ == self@.transpose(),
    {
        let ghost before = self;
        let r = Determinant { m: self.m, n: self.n, elements: self.elements, t: !self.t };
        proof {
            before.lemma_transpose_view(&r);
        }
        r
    }

    proof fn lemma_transpose_view(&self, r: &Determinant)
        requires
            self.wf(),
            r.m == self.m,
            r.n == self.n,
            r.elements@ == self.elements@,
            r.t == !self.t,
        ensures
            r@ == self@.transpose(),
    {
        let a = self@;
        let b = r@;
        let c = a.transpose();
        assert(b.rows == c.rows && b.cols == c.cols);
        assert forall|i: int| 0 <= i < b.rows implies #[trigger] b.cells[i] == c.cells[i] by {
            assert forall|j: int| 0 <= j < b.cols implies #[trigger] b.cells[i][j] == c.cells[i][j] by {
                assert(c.cells[i][j] == a.cells[j][i]);
            }
            assert(b.cells[i] =~= c.cells[i]);
        }
        assert(b.cells =~= c.cells);
    }

    /// Transposes in place: the flag flips, the storage stays as it is.
    pub fn transform_t(&mut self)
        requires
            old(self).wf(),
        ensures
            final(self).wf(),
            final(self).stored_shape() == old(self).stored_shape(),
            final(self).storage() == old(self).storage(),
            final(self).flag() == !old(self).flag(),
            final(self)@ == old(self)@.transpose(),
    {
        let ghost before = *self;
        self.t = !self.t;
        proof {
            before.lemma_transpose_view(self);
        }
    }

    /// The storage offset of the cell `(x, y)` of the matrix as it is read:
    /// `x * n + y` as stored, `y * n + x` when transposed.
    pub open spec fn offset(&self, x: int, y: int) -> int {
        if self.flag() {
            y * self.stored_shape().1 + x
        } else {
            x * self.stored_shape().1 + y
        }
    }

    /// Writes `val` to the cell `(x, y)`.
    pub fn set(&mut self, x: usize, y: usize, val: i128)
        requires
            old(self).wf(),
            x < old(self)@.rows,
            y < old(self)@.cols,
        ensures
            final(self).wf(),
            final(self).stored_shape() == old(self).stored_shape(),
            final(self).flag() == old(self).flag(),
            final(self).storage() == old(self).storage().update(old(self).offset(x as int, y as int), val),
            final(self)@.same_shape(old(self)@),
            final(self)@.cells[x as int][y as int] == val,
            forall|i: int, j: int|
                0 <= i < old(self)@.rows && 0 <= j < old(self)@.cols && (i != x || j != y)
                    ==> final(self)@.cells[i][j] == old(self)@.cells[i][j],
    {
        let idx: usize;
        proof {
            assert(self.elements@.len() == self.elements.len());
            if self.t {
                lemma_offset_in_range(y as int, x as int, self.m as int, self.n as int);
            } else {
                lemma_offset_in_range(x as int, y as int, self.m as int, self.n as int);
            }
        }
        if self.t {
            idx = y * self.n + x;
        } else {
            idx = x * self.n + y;
        }
        self.elements.set(idx, val);
        proof {
            let n = self.n as int;
            let m = self.m as int;
            assert forall|i: int, j: int|
                0 <= i < old(self)@.rows && 0 <= j < old(self)@.cols && (i != x || j != y)
                implies final(self)@.cells[i][j] == old(self)@.cells[i][j] by {
                if self.t {
                    lemma_offset_in_range(j, i, m, n);
                    lemma_offset_distinct(j, i, y as int, x as int, n);
                } else {
                    lemma_offset_in_range(i, j, m, n);
                    lemma_offset_distinct(i, j, x as int, y as int, n);
                }
            }
        }
    }

    /// The cell `(x, y)` of the matrix as it is read.
    pub fn index(&self, x: usize, y: usize) -> (r: i128)
        requires
            self.wf(),
            x < self@.rows,
            y < self@.cols,
        ensures
            r == self@.cells[x as int][y as int],
            r == self.storage()[self.offset(x as int, y as int)],
    {
        let idx: usize;
        proof {
            assert(self.elements@.len() == self.elements.len());
            if self.t {
                lemma_offset_in_range(y as int, x as int, self.m as int, self.n as int);
            } else {
                lemma_offset_in_range(x as int, y as int, self.m as int, self.n as int);
            }
        }
        if self.t {
            idx = y * self.n + x;
        } else {
            idx = x * self.n + y;
        }
        self.elements[idx]
    }
}

/// Two matrices of one shape with equal cells are equal.
pub proof fn lemma_mat_equal(a: Mat, b: Mat)
    requires
        a.wf(),
        b.wf(),
        a.same_shape(b),
        forall|i: int, j: int| 0 <= i < a.rows && 0 <= j < a.cols ==> a.cells[i][j] == b.cells[i][j],
    ensures
        a == b,
{
    assert forall|i: int| 0 <= i < a.rows implies #[trigger] a.cells[i] == b.cells[i] by {
        assert(a.cells[i] =~= b.cells[i]);
    }
    assert(a.cells =~= b.cells);
}

impl Determinant {
    /// The cell-wise sum of two matrices of one shape.
    ///
    /// Fails with `DimensionMismatch` exactly when the shapes differ, and
    /// with `Overflow` exactly when they agree and some cell of the sum is no
    /// `i128`.
    pub fn add(&self, other: &Determinant) -> (r: Result<Determinant, MatrixError>)
        requires
            self.wf(),
            other.wf(),
        ensures
            match r {
                Ok(s) => {
                    &&& s.wf()
                    &&& !s.flag()
                    &&& self@.same_shape(other@)
                    &&& self@.sum_fits(other@)
                    &&& s@ == self@.sum(other@)
                },
                Err(MatrixError::DimensionMismatch) => !self@.same_shape(other@),
                Err(MatrixError::Overflow) => self@.same_shape(other@) && !self@.sum_fits(other@),
                Err(MatrixError::TooLarge) => false,
            },
    {
        if self.m() != other.m() {
            return Err(MatrixError::DimensionMismatch);
        } else if self.n() != other.n() {
            return Err(MatrixError::DimensionMismatch);
        }
        let rows = self.m();
        let cols = self.n();
        proof {
            self.lemma_size();
        }
        let mut ret = Determinant::new(rows, cols, false);
        let mut i: usize = 0;
        while i < rows
            invariant
                self.wf(),
                other.wf(),
                ret.wf(),
                !ret.flag(),
                self@.same_shape(other@),
                rows == self@.rows,
                cols == self@.cols,
                ret@.same_shape(self@),
                i <= rows,
                forall|a: int, b: int|
                    0 <= a < i && 0 <= b < cols ==> ret@.cells[a][b] == #[trigger] self@.cells[a][b]
                        + other@.cells[a][b],
                forall|a: int, b: int|
                    0 <= a < i && 0 <= b < cols ==> fits_i128(
                        #[trigger] self@.cells[a][b] + other@.cells[a][b],
                    ),
            decreases rows - i,
        {
            let mut j: usize = 0;
            while j < cols
                invariant
                    self.wf(),
                    other.wf(),
                    ret.wf(),
                    !ret.flag(),
                    self@.same_shape(other@),
                    rows == self@.rows,
                    cols == self@.cols,
                    ret@.same_shape(self@),
                    i < rows,
                    j <= cols,
                    forall|a: int, b: int|
                        (0 <= a < i && 0 <= b < cols) || (a == i && 0 <= b < j) ==> ret@.cells[a][b]
                            == #[trigger] self@.cells[a][b] + other@.cells[a][b],
                    forall|a: int, b: int|
                        (0 <= a < i && 0 <= b < cols) || (a == i && 0 <= b < j) ==> fits_i128(
                            #[trigger] self@.cells[a][b] + other@.cells[a][b],
                        ),
                decreases cols - j,
            {
                let x = self.index(i, j);
                let y = other.index(i, j);
                match x.checked_add(y) {
                    Some(v) => {
                        ret.set(i, j, v);
                    },
                    None => {
                        assert(!fits_i128(self@.cells[i as int][j as int] + other@.cells[i as int][j as int]));
                        return Err(MatrixError::Overflow);
                    },
                }
                j += 1;
            }
            i += 1;
        }
        proof {
            lemma_mat_equal(ret@, self@.sum(other@));
        }
        Ok(ret)
    }

    /// The cell-wise difference of two matrices of one shape.
    ///
    /// Fails with `DimensionMismatch` exactly when the shapes differ, and
    /// with `Overflow` exactly when they agree and some cell of the
    /// difference is no `i128`.
    pub fn sub(&self, other: &Determinant) -> (r: Result<Determinant, MatrixError>)
        requires
            self.wf(),
            other.wf(),
        ensures
            match r {
                Ok(s) => {
                    &&& s.wf()
                    &&& !s.flag()
                    &&& self@.same_shape(other@)
                    &&& self@.difference_fits(other@)
                    &&& s@ == self@.difference(other@)
                },
                Err(MatrixError::DimensionMismatch) => !self@.same_shape(other@),
                Err(MatrixError::Overflow) => self@.same_shape(other@) && !self@.difference_fits(
                    other@,
                ),
                Err(MatrixError::TooLarge) => false,
            },
    {
        if self.m() != other.m() {
            return Err(MatrixError::DimensionMismatch);
        } else if self.n() != other.n() {
            return Err(MatrixError::DimensionMismatch);
        }
        let rows = self.m();
        let cols = self.n();
        proof {
            self.lemma_size();
        }
        let mut ret = Determinant::new(rows, cols, false);
        let mut i: usize = 0;
        while i < rows
            invariant
                self.wf(),
                other.wf(),
                ret.wf(),
                !ret.flag(),
                self@.same_shape(other@),
                rows == self@.rows,
                cols == self@.cols,
                ret@.same_shape(self@),
                i <= rows,
                forall|a: int, b: int|
                    0 <= a < i && 0 <= b < cols ==> ret@.cells[a][b] == #[trigger] self@.cells[a][b]
                        - other@.cells[a][b],
                forall|a: int, b: int|
                    0 <= a < i && 0 <= b < cols ==> fits_i128(
                        #[trigger] self@.cells[a][b] - other@.cells[a][b],
                    ),
            decreases rows - i,
        {
            let mut j: usize = 0;
            while j < cols
                invariant
                    self.wf(),
                    other.wf(),
                    ret.wf(),
                    !ret.flag(),
                    self@.same_shape(other@),
                    rows == self@.rows,
                    cols == self@.cols,
                    ret@.same_shape(self@),
                    i < rows,
                    j <= cols,
                    forall|a: int, b: int|
                        (0 <= a < i && 0 <= b < cols) || (a == i && 0 <= b < j) ==> ret@.cells[a][b]
                            == #[trigger] self@.cells[a][b] - other@.cells[a][b],
                    forall|a: int, b: int|
                        (0 <= a < i && 0 <= b < cols) || (a == i && 0 <= b < j) ==> fits_i128(
                            #[trigger] self@.cells[a][b] - other@.cells[a][b],
                        ),
                decreases cols - j,
            {
                let x = self.index(i, j);
                let y = other.index(i, j);
                match x.checked_sub(y) {
                    Some(v) => {
                        ret.set(i, j, v);
                    },
                    None => {
                        assert(!fits_i128(self@.cells[i as int][j as int] - other@.cells[i as int][j as int]));
                        return Err(MatrixError::Overflow);
                    },
                }
                j += 1;
            }
            i += 1;
        }
        proof {
            lemma_mat_equal(ret@, self@.difference(other@));
        }
        Ok(ret)
    }

    /// The matrix product.
    ///
    /// Fails with `DimensionMismatch` exactly when this matrix has not as
    /// many columns as `other` has rows. Where the shapes go together it
    /// fails with `TooLarge` exactly when the product has more than
    /// `usize::MAX` cells, and else with `Overflow` exactly when one of the
    /// row-by-column products, or a partial sum of them, is no `i128`.
    pub fn mul(&self, other: &Determinant) -> (r: Result<Determinant, MatrixError>)
        requires
            self.wf(),
            other.wf(),
        ensures
            match r {
                Ok(p) => {
                    &&& p.wf()
                    &&& !p.flag()
                    &&& self@.cols == other@.rows
                    &&& self@.rows * other@.cols <= usize::MAX
                    &&& self@.product_fits(other@)
                    &&& p@ == self@.product(other@)
                },
                Err(MatrixError::DimensionMismatch) => self@.cols != other@.rows,
                Err(MatrixError::TooLarge) => self@.cols == other@.rows && self@.rows * other@.cols
                    > usize::MAX,
                Err(MatrixError::Overflow) => {
                    &&& self@.cols == other@.rows
                    &&& self@.rows * other@.cols <= usize::MAX
                    &&& !self@.product_fits(other@)
                },
            },
    {
        if self.n() != other.m() {
            return Err(MatrixError::DimensionMismatch);
        }
        let rows = self.m();
        let cols = other.n();
        let common = self.n();
        if rows.checked_mul(cols).is_none() {
            return Err(MatrixError::TooLarge);
        }
        let mut ret = Determinant::new(rows, cols, false);
        let mut i: usize = 0;
        while i < rows
            invariant
                self.wf(),
                other.wf(),
                ret.wf(),
                !ret.flag(),
                rows == self@.rows,
                cols == other@.cols,
                common == self@.cols,
                common == other@.rows,
                self@.rows * other@.cols <= usize::MAX,
                ret@.rows == rows,
                ret@.cols == cols,
                i <= rows,
                forall|a: int, b: int|
                    0 <= a < i && 0 <= b < cols ==> #[trigger] ret@.cells[a][b] == self@.dot(
                        other@,
                        a,
                        b,
                        common as nat,
                    ),
                forall|a: int, b: int, len: nat|
                    0 <= a < i && 0 <= b < cols && len <= common ==> fits_i128(
                        #[trigger] self@.dot(other@, a, b, len),
                    ),
                forall|a: int, b: int, c: int|
                    0 <= a < i && 0 <= b < cols && 0 <= c < common ==> fits_i128(
                        #[trigger] self@.cells[a][c] * #[trigger] other@.cells[c][b],
                    ),
            decreases rows - i,
        {
            let mut j: usize = 0;
            while j < cols
                invariant
                    self.wf(),
                    other.wf(),
                    ret.wf(),
                    !ret.flag(),
                    rows == self@.rows,
                    cols == other@.cols,
                    common == self@.cols,
                    common == other@.rows,
                    self@.rows * other@.cols <= usize::MAX,
                    ret@.rows == rows,
                    ret@.cols == cols,
                    i < rows,
                    j <= cols,
                    forall|a: int, b: int|
                        (0 <= a < i && 0 <= b < cols) || (a == i && 0 <= b < j)
                            ==> #[trigger] ret@.cells[a][b] == self@.dot(other@, a, b, common as nat),
                    forall|a: int, b: int, len: nat|
                        ((0 <= a < i && 0 <= b < cols) || (a == i && 0 <= b < j)) && len <= common
                            ==> fits_i128(#[trigger] self@.dot(other@, a, b, len)),
                    forall|a: int, b: int, c: int|
                        ((0 <= a < i && 0 <= b < cols) || (a == i && 0 <= b < j)) && 0 <= c
                            < common ==> fits_i128(
                            #[trigger] self@.cells[a][c] * #[trigger] other@.cells[c][b],
                        ),
                decreases cols - j,
            {
                let mut val: i128 = 0;
                let mut k: usize = 0;
                while k < common
                    invariant
                        self.wf(),
                        other.wf(),
                        common == self@.cols,
                        common == other@.rows,
                        self@.rows * other@.cols <= usize::MAX,
                        i < self@.rows,
                        j < other@.cols,
                        k <= common,
                        val == self@.dot(other@, i as int, j as int, k as nat),
                        forall|len: nat|
                            len <= k ==> fits_i128(
                                #[trigger] self@.dot(other@, i as int, j as int, len),
                            ),
                        forall|c: int|
                            0 <= c < k ==> fits_i128(
                                #[trigger] self@.cells[i as int][c] * other@.cells[c][j as int],
                            ),
                    decreases common - k,
                {
                    let x = self.index(i, k);
                    let y = other.index(k, j);
                    let next = match x.checked_mul(y) {
                        Some(term) => val.checked_add(term),
                        None => None,
                    };
                    match next {
                        Some(v) => {
                            val = v;
                        },
                        None => {
                            assert(!fits_i128(self@.dot(other@, i as int, j as int, (k + 1) as nat))
                                || !fits_i128(
                                self@.cells[i as int][k as int] * other@.cells[k as int][j as int],
                            ));
                            return Err(MatrixError::Overflow);
                        },
                    }
                    k += 1;
                }
                ret.set(i, j, val);
                j += 1;
            }
            i += 1;
        }
        proof {
            lemma_mat_equal(ret@, self@.product(other@));
        }
        Ok(ret)
    }

    /// The entries fit the storage, so the number of cells is a `usize`.
    proof fn lemma_size(&self)
        requires
            self.wf(),
        ensures
            self@.rows * self@.cols <= usize::MAX,
    {
        assert(self.elements@.len() == self.elements.len());
        assert(self.m * self.n == self.n * self.m) by (nonlinear_arith);
    }
}

/// A walk over the cells of a matrix as it is read, row after row.
pub struct DeterminantIter<'a> {
    iter: &'a Determinant,
    x: usize,
    y: usize,
}

impl<'a> DeterminantIter<'a> {
    fn new(iter: &'a Determinant, x: usize, y: usize) -> (r: Self)
        ensures
            r.matrix() == *iter,
            r.row() == x,
            r.col() == y,
    {
        DeterminantIter { iter, x, y }
    }

    /// The matrix that is walked.
    pub closed spec fn matrix(&self) -> Determinant {
        *self.iter
    }

    /// The row of the cell that comes next.
    pub closed spec fn row(&self) -> nat {
        self.x as nat
    }

    /// The column of the cell that comes next.
    pub closed spec fn col(&self) -> nat {
        self.y as nat
    }

    /// The walk stands on a cell of the matrix, or behind the last row.
    pub open spec fn wf(&self) -> bool {
        &&& self.matrix().wf()
        &&& self.row() <= self.matrix()@.rows
        &&& self.row() < self.matrix()@.rows ==> self.col() < self.matrix()@.cols
        &&& self.row() == self.matrix()@.rows ==> self.col() == 0
    }

    /// No cell is left.
    pub open spec fn done(&self) -> bool {
        self.row() == self.matrix()@.rows
    }

    /// The next cell in row-major order, or nothing once every row is
    /// through. A step moves one column on, and to the start of the next row
    /// behind the last column.
    pub fn next(&mut self) -> (r: Option<i128>)
        requires
            old(self).wf(),
        ensures
            final(self).wf(),
            final(self).matrix() == old(self).matrix(),
            old(self).done() ==> r is None && final(self).row() == old(self).row() && final(self).col()
                == old(self).col(),
            !old(self).done() ==> {
                &&& r == Some(
                    old(self).matrix()@.cells[old(self).row() as int][old(self).col() as int] as i128,
                )
                &&& old(self).col() + 1 < old(self).matrix()@.cols ==> final(self).row() == old(self).row()
                    && final(self).col() == old(self).col() + 1
                &&& old(self).col() + 1 == old(self).matrix()@.cols ==> final(self).row() == old(self).row()
                    + 1 && final(self).col() == 0
            },
    {
        if self.x == self.iter.m() {
            None
        } else {
            let ret = self.iter.index(self.x, self.y);
            self.y += 1;
            if self.y == self.iter.n() {
                self.y = 0;
                self.x += 1
            }
            Some(ret)
        }
    }
}

impl Determinant {
    /// A walk over the cells, from the first cell of the first row. A matrix
    /// without columns has no cell to start on, so its walk starts behind the
    /// last row.
    pub fn iter(&self) -> (r: DeterminantIter<'_>)
        requires
            self.wf(),
        ensures
            r.wf(),
            r.matrix() == *self,
            r.col() == 0,
            r.row() == (if self@.cols == 0 {
                self@.rows
            } else {
                0
            }),
    {
        if self.n() == 0 {
            DeterminantIter::new(self, self.m(), 0)
        } else {
            DeterminantIter::new(self, 0, 0)
        }
    }
}

/// The four-by-four matrix whose rows `e` spells out one after the other.
pub open spec fn square4(e: Seq<int>) -> Mat {
    Mat { rows: 4, cols: 4, cells: Seq::new(4, |i: int| Seq::new(4, |j: int| e[4 * i + j])) }
}

/// The four-by-four transform that changes nothing.
pub open spec fn identity4() -> Mat {
    square4(seq![1, 0, 0, 0, 0, 1, 0, 0, 0, 0, 1, 0, 0, 0, 0, 1])
}

/// The row `(x, y, z, w)` as a matrix.
pub open spec fn row4(x: int, y: int, z: int, w: int) -> Mat {
    Mat { rows: 1, cols: 4, cells: seq![seq![x, y, z, w]] }
}

impl Determinant {
    /// The four-by-four transform that changes nothing: the transform that
    /// a model starts with.
    pub fn identity_matrix() -> (r: Determinant)
        ensures
            r.wf(),
            !r.flag(),
            r@ == identity4(),
    {
        let r = Determinant::from_rows4([1, 0, 0, 0, 0, 1, 0, 0, 0, 0, 1, 0, 0, 0, 0, 1]);
        proof {
            lemma_mat_equal(r@, identity4());
        }
        r
    }

    /// The four-by-four matrix on the sixteen entries of `e`, row after row.
    pub fn from_rows4(e: [i128; 16]) -> (r: Determinant)
        ensures
            r.wf(),
            !r.flag(),
            r@ == square4(Seq::new(16, |k: int| e@[k] as int)),
    {
        let mut elements: Vec<i128> = Vec::new();
        let mut k: usize = 0;
        while k < 16
            invariant
                k <= 16,
                elements@.len() == k,
                forall|a: int| 0 <= a < k ==> elements@[a] == e@[a],
            decreases 16 - k,
        {
            elements.push(e[k]);
            k += 1;
        }
        let r = Determinant::from_vec(4, 4, false, elements).unwrap();
        proof {
            lemma_mat_equal(r@, square4(Seq::new(16, |k: int| e@[k] as int)));
        }
        r
    }
}

proof fn lemma_offset_distinct(i: int, j: int, x: int, y: int, n: int)
    requires
        0 <= j < n,
        0 <= y < n,
        0 <= i,
        0 <= x,
        i != x || j != y,
    ensures
        i * n + j != x * n + y,
{
    if i != x {
        if i < x {
            assert(i * n + n <= x * n) by (nonlinear_arith)
                requires
                    i + 1 <= x,
                    0 <= n,
            ;
        } else {
            assert(x * n + n <= i * n) by (nonlinear_arith)
                requires
                    x + 1 <= i,
                    0 <= n,
            ;
        }
    }
}

} // verus!
