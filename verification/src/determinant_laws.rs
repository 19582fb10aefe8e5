//! Laws of the matrix algebra, stated over [`Mat`].

use crate::determinant::lemma_mat_equal;
use crate::determinant::Mat;
use vstd::prelude::*;

verus! {

/// Transposing a matrix twice gives the matrix back, whatever its shape.
pub proof fn law_transpose_involution(a: Mat)
    requires
        a.wf(),
    ensures
        a.transpose().wf(),
        a.transpose().transpose() == a,
{
    lemma_mat_equal(a.transpose().transpose(), a);
}

/// The product keeps the outer shape, and its cells are the full row-by-column
/// sums.
pub proof fn lemma_product_wf(a: Mat, b: Mat)
    ensures
        a.product(b).wf(),
        a.product(b).rows == a.rows,
        a.product(b).cols == b.cols,
        forall|i: int, j: int|
            0 <= i < a.rows && 0 <= j < b.cols ==> #[trigger] a.product(b).cells[i][j] == a.dot(
                b,
                i,
                j,
                a.cols,
            ),
{
}

/// No cell of the matrix is larger in magnitude than `limit`.
pub open spec fn bounded_by(a: Mat, limit: int) -> bool {
    forall|i: int, j: int|
        0 <= i < a.rows && 0 <= j < a.cols ==> -limit <= #[trigger] a.cells[i][j] <= limit
}

/// A partial sum of row-by-column products is no larger in magnitude than the
/// number of its terms times the bounds of the two matrices.
pub proof fn lemma_dot_bound(a: Mat, b: Mat, i: int, j: int, len: nat, la: int, lb: int)
    requires
        bounded_by(a, la),
        bounded_by(b, lb),
        0 <= i < a.rows,
        0 <= j < b.cols,
        len <= a.cols,
        a.cols == b.rows,
    ensures
        -(len * (la * lb)) <= a.dot(b, i, j, len) <= len * (la * lb),
    decreases len,
{
    if len > 0 {
        lemma_dot_bound(a, b, i, j, (len - 1) as nat, la, lb);
        let x = a.cells[i][len - 1];
        let y = b.cells[len - 1][j];
        assert(-(la * lb) <= x * y <= la * lb) by (nonlinear_arith)
            requires
                -la <= x <= la,
                -lb <= y <= lb,
        ;
        assert(len * (la * lb) == (len - 1) * (la * lb) + la * lb) by (nonlinear_arith);
    }
}

/// Where the bounds of two matrices, multiplied with each other and with the
/// number of columns of the first, stay below the largest `i128`, their
/// product can be formed.
pub proof fn lemma_product_fits(a: Mat, b: Mat, la: int, lb: int)
    requires
        bounded_by(a, la),
        bounded_by(b, lb),
        a.cols == b.rows,
        0 <= la,
        0 <= lb,
        a.cols * (la * lb) <= i128::MAX,
    ensures
        a.product_fits(b),
        bounded_by(a.product(b), a.cols * (la * lb)),
{
    assert(la * lb >= 0) by (nonlinear_arith)
        requires
            0 <= la,
            0 <= lb,
    ;
    assert forall|i: int, j: int, len: nat|
        0 <= i < a.rows && 0 <= j < b.cols && len <= a.cols implies crate::determinant::fits_i128(
        #[trigger] a.dot(b, i, j, len),
    ) by {
        lemma_dot_bound(a, b, i, j, len, la, lb);
        assert(len * (la * lb) <= a.cols * (la * lb)) by (nonlinear_arith)
            requires
                len <= a.cols,
                la * lb >= 0,
        ;
    }
    assert forall|i: int, j: int, k: int|
        0 <= i < a.rows && 0 <= j < b.cols && 0 <= k < a.cols implies crate::determinant::fits_i128(
        #[trigger] a.cells[i][k] * #[trigger] b.cells[k][j],
    ) by {
        let x = a.cells[i][k];
        let y = b.cells[k][j];
        assert(-(la * lb) <= x * y <= la * lb) by (nonlinear_arith)
            requires
                -la <= x <= la,
                -lb <= y <= lb,
        ;
        assert(la * lb <= a.cols * (la * lb)) by (nonlinear_arith)
            requires
                1 <= a.cols,
                la * lb >= 0,
        ;
    }
    assert forall|i: int, j: int| 0 <= i < a.rows && 0 <= j < b.cols implies -(a.cols * (la * lb))
        <= #[trigger] a.product(b).cells[i][j] <= a.cols * (la * lb) by {
        lemma_dot_bound(a, b, i, j, a.cols, la, lb);
    }
}

/// One summand of a cell of a triple product.
spec fn term(a: Mat, b: Mat, c: Mat, i: int, j: int, l: int, k: int) -> int {
    a.cells[i][l] * b.cells[l][k] * c.cells[k][j]
}

/// The summands with a fixed `l`, summed over the first `len` values of `k`.
spec fn along_k(a: Mat, b: Mat, c: Mat, i: int, j: int, l: int, len: nat) -> int
    decreases len,
{
    if len == 0 {
        0
    } else {
        along_k(a, b, c, i, j, l, (len - 1) as nat) + term(a, b, c, i, j, l, len - 1)
    }
}

/// The summands with a fixed `k`, summed over the first `len` values of `l`.
spec fn along_l(a: Mat, b: Mat, c: Mat, i: int, j: int, k: int, len: nat) -> int
    decreases len,
{
    if len == 0 {
        0
    } else {
        along_l(a, b, c, i, j, k, (len - 1) as nat) + term(a, b, c, i, j, len - 1, k)
    }
}

/// The double sum, taken `l` by `l`.
spec fn by_l(a: Mat, b: Mat, c: Mat, i: int, j: int, n: nat, p: nat) -> int
    decreases n,
{
    if n == 0 {
        0
    } else {
        by_l(a, b, c, i, j, (n - 1) as nat, p) + along_k(a, b, c, i, j, n - 1, p)
    }
}

/// The double sum, taken `k` by `k`.
spec fn by_k(a: Mat, b: Mat, c: Mat, i: int, j: int, n: nat, p: nat) -> int
    decreases p,
{
    if p == 0 {
        0
    } else {
        by_k(a, b, c, i, j, n, (p - 1) as nat) + along_l(a, b, c, i, j, p - 1, n)
    }
}

proof fn lemma_scale_left(a: Mat, b: Mat, c: Mat, i: int, j: int, l: int, len: nat)
    ensures
        a.cells[i][l] * b.dot(c, l, j, len) == along_k(a, b, c, i, j, l, len),
    decreases len,
{
    let x = a.cells[i][l];
    if len == 0 {
        assert(x * 0 == 0);
    } else {
        lemma_scale_left(a, b, c, i, j, l, (len - 1) as nat);
        let d = b.dot(c, l, j, (len - 1) as nat);
        let y = b.cells[l][len - 1];
        let z = c.cells[len - 1][j];
        assert(x * (d + y * z) == x * d + x * y * z) by (nonlinear_arith);
    }
}

proof fn lemma_scale_right(a: Mat, b: Mat, c: Mat, i: int, j: int, k: int, len: nat)
    ensures
        a.dot(b, i, k, len) * c.cells[k][j] == along_l(a, b, c, i, j, k, len),
    decreases len,
{
    let z = c.cells[k][j];
    if len == 0 {
        assert(0 * z == 0);
    } else {
        lemma_scale_right(a, b, c, i, j, k, (len - 1) as nat);
        let d = a.dot(b, i, k, (len - 1) as nat);
        let x = a.cells[i][len - 1];
        let y = b.cells[len - 1][k];
        assert((d + x * y) * z == d * z + x * y * z) by (nonlinear_arith);
    }
}

proof fn lemma_right_nested(a: Mat, b: Mat, c: Mat, i: int, j: int, len: nat)
    requires
        len <= b.rows,
        0 <= j < c.cols,
    ensures
        a.dot(b.product(c), i, j, len) == by_l(a, b, c, i, j, len, b.cols),
    decreases len,
{
    if len > 0 {
        lemma_right_nested(a, b, c, i, j, (len - 1) as nat);
        lemma_product_wf(b, c);
        assert(b.product(c).cells[len - 1][j] == b.dot(c, len - 1, j, b.cols));
        lemma_scale_left(a, b, c, i, j, len - 1, b.cols);
    }
}

proof fn lemma_left_nested(a: Mat, b: Mat, c: Mat, i: int, j: int, len: nat)
    requires
        0 <= i < a.rows,
        len <= b.cols,
    ensures
        a.product(b).dot(c, i, j, len) == by_k(a, b, c, i, j, a.cols, len),
    decreases len,
{
    if len > 0 {
        lemma_left_nested(a, b, c, i, j, (len - 1) as nat);
        lemma_product_wf(a, b);
        assert(a.product(b).cells[i][len - 1] == a.dot(b, i, len - 1, a.cols));
        lemma_scale_right(a, b, c, i, j, len - 1, a.cols);
    }
}

proof fn lemma_by_k_step(a: Mat, b: Mat, c: Mat, i: int, j: int, n: nat, p: nat)
    requires
        n > 0,
    ensures
        by_k(a, b, c, i, j, n, p) == by_k(a, b, c, i, j, (n - 1) as nat, p) + along_k(
            a,
            b,
            c,
            i,
            j,
            n - 1,
            p,
        ),
    decreases p,
{
    if p > 0 {
        lemma_by_k_step(a, b, c, i, j, n, (p - 1) as nat);
    }
}

proof fn lemma_sum_order(a: Mat, b: Mat, c: Mat, i: int, j: int, n: nat, p: nat)
    ensures
        by_l(a, b, c, i, j, n, p) == by_k(a, b, c, i, j, n, p),
    decreases n,
{
    if n == 0 {
        lemma_by_k_empty(a, b, c, i, j, p);
    } else {
        lemma_sum_order(a, b, c, i, j, (n - 1) as nat, p);
        lemma_by_k_step(a, b, c, i, j, n, p);
    }
}

proof fn lemma_by_k_empty(a: Mat, b: Mat, c: Mat, i: int, j: int, p: nat)
    ensures
        by_k(a, b, c, i, j, 0, p) == 0,
    decreases p,
{
    if p > 0 {
        lemma_by_k_empty(a, b, c, i, j, (p - 1) as nat);
    }
}

/// The matrix product is associative wherever the three shapes go together.
pub proof fn law_product_associative(a: Mat, b: Mat, c: Mat)
    requires
        a.wf(),
        b.wf(),
        c.wf(),
        a.cols == b.rows,
        b.cols == c.rows,
    ensures
        a.product(b).product(c) == a.product(b.product(c)),
{
    let left = a.product(b).product(c);
    let right = a.product(b.product(c));
    lemma_product_wf(a, b);
    lemma_product_wf(b, c);
    lemma_product_wf(a.product(b), c);
    lemma_product_wf(a, b.product(c));
    assert forall|i: int, j: int| 0 <= i < left.rows && 0 <= j < left.cols implies left.cells[i][j]
        == right.cells[i][j] by {
        lemma_left_nested(a, b, c, i, j, b.cols);
        lemma_right_nested(a, b, c, i, j, b.rows);
        lemma_sum_order(a, b, c, i, j, a.cols, b.cols);
    }
    lemma_mat_equal(left, right);
}

} // verus!
