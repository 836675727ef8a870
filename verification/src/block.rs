//! Dense column-major copies of parts of a strided matrix.

use crate::layout::Layout;
use vstd::prelude::*;

verus! {

/// Position of entry `(r, c)` in a dense column-major copy with `m` rows.
pub open spec fn cell(m: int, r: int, c: int) -> int {
    crate::pack::slot(0, m, r, c)
}

/// `values` is the `m` by `n` block of `data` whose first entry is `(row, col)`.
pub open spec fn is_block<T>(
    values: Seq<T>,
    data: Seq<T>,
    layout: Layout,
    row: int,
    col: int,
    m: int,
    n: int,
) -> bool {
    &&& values.len() == m * n
    &&& forall|r: int, c: int|
        0 <= r < m && 0 <= c < n ==> values[#[trigger] cell(m, r, c)] == data[layout.index(
            row + r,
            col + c,
        )]
}

/// The entries of a block have positions below `m * n`, in order of columns and then of rows.
pub proof fn lemma_cell(m: int, n: int, r: int, c: int)
    requires
        0 <= r < m,
        0 <= c < n,
    ensures
        cell(m, r, c) == c * m + r,
        0 <= cell(m, r, c) < m * n,
{
    crate::pack::lemma_slot(0, m, r, c, n);
    assert(n * m == m * n) by (nonlinear_arith);
}

/// Different entries have different positions.
pub proof fn lemma_cell_unique(m: int, r: int, c: int, r2: int, c2: int)
    requires
        0 <= r < m,
        0 <= c,
        0 <= r2 < m,
        0 <= c2,
        cell(m, r, c) == cell(m, r2, c2),
    ensures
        r == r2,
        c == c2,
{
    lemma_cell(m, c + 1, r, c);
    lemma_cell(m, c2 + 1, r2, c2);
    vstd::arithmetic::div_mod::lemma_fundamental_div_mod_converse(c * m + r, m, c, r);
    vstd::arithmetic::div_mod::lemma_fundamental_div_mod_converse(c2 * m + r2, m, c2, r2);
}

/// Copies the `m` by `n` block whose first entry is `(row, col)`.
pub(crate) fn gather<T: Copy>(
    data: &[T],
    layout: Layout,
    row: usize,
    col: usize,
    m: usize,
    n: usize,
) -> (values: Vec<T>)
    requires
        layout.fits(data@.len() as int, row + m, col + n),
        row + m <= usize::MAX,
        col + n <= usize::MAX,
        m * n <= usize::MAX,
    ensures
        is_block(values@, data@, layout, row as int, col as int, m as int, n as int),
{
    let mut values: Vec<T> = Vec::new();
    let mut c: usize = 0;
    proof {
        assert(0 * m == 0);
    }
    while c < n
        invariant
            layout.fits(data@.len() as int, row + m, col + n),
            row + m <= usize::MAX,
            col + n <= usize::MAX,
            c <= n,
            values@.len() == c * m,
            forall|r: int, b: int|
                0 <= r < m && 0 <= b < c ==> values@[#[trigger] cell(m as int, r, b)]
                    == data@[layout.index(row + r, col + b)],
        decreases n - c,
    {
        let mut r: usize = 0;
        while r < m
            invariant
                layout.fits(data@.len() as int, row + m, col + n),
                row + m <= usize::MAX,
                col + n <= usize::MAX,
                c < n,
                r <= m,
                values@.len() == c * m + r,
                forall|a: int, b: int|
                    0 <= a < m && 0 <= b <= c && (b < c || a < r) ==> values@[#[trigger] cell(
                        m as int,
                        a,
                        b,
                    )] == data@[layout.index(row + a, col + b)],
            decreases m - r,
        {
            proof {
                assert(0 <= layout.index(row + r, col + c) < data@.len() == data.len());
            }
            let ghost before = values@;
            values.push(data[layout.locate(row + r, col + c)]);
            proof {
                assert forall|a: int, b: int|
                    0 <= a < m && 0 <= b <= c && (b < c || a < r + 1) implies values@[
                    #[trigger] cell(m as int, a, b)] == data@[layout.index(row + a, col + b)] by {
                    lemma_cell(m as int, b + 1, a, b);
                    if b < c {
                        lemma_cell(m as int, c as int, a, b);
                        assert(m * c == c * m) by (nonlinear_arith);
                    }
                    if b < c || a < r {
                        assert(values@[cell(m as int, a, b)] == before[cell(m as int, a, b)]);
                    }
                }
            }
            r = r + 1;
        }
        proof {
            assert((c + 1) * m == c * m + m) by (nonlinear_arith);
        }
        c = c + 1;
    }
    proof {
        assert(n * m == m * n) by (nonlinear_arith);
    }
    values
}

/// Overwrites the `m` by `n` block whose first entry is `(row, col)`. The whole matrix has `rows`
/// rows and `cols` columns.
pub(crate) fn scatter<T: Copy>(
    data: &mut [T],
    layout: Layout,
    Ghost(rows): Ghost<int>,
    Ghost(cols): Ghost<int>,
    row: usize,
    col: usize,
    m: usize,
    n: usize,
    values: &Vec<T>,
)
    requires
        layout.fits(old(data)@.len() as int, rows, cols),
        layout.distinct(rows, cols),
        row + m <= rows <= usize::MAX,
        col + n <= cols <= usize::MAX,
        values@.len() == m * n,
    ensures
        layout.same_beside(old(data)@, final(data)@, rows, col as int, col + n),
        is_block(values@, final(data)@, layout, row as int, col as int, m as int, n as int),
        forall|i: int, j: int|
            0 <= i < rows && 0 <= j < cols && !(row <= i < row + m && col <= j < col + n)
                ==> final(data)@[#[trigger] layout.index(i, j)] == old(data)@[layout.index(i, j)],
{
    let mut c: usize = 0;
    while c < n
        invariant
            layout.fits(old(data)@.len() as int, rows, cols),
            layout.distinct(rows, cols),
            row + m <= rows <= usize::MAX,
            col + n <= cols <= usize::MAX,
            values@.len() == m * n,
            c <= n,
            layout.same_beside(old(data)@, data@, rows, col as int, col + n),
            part_written(
                old(data)@,
                data@,
                values@,
                layout,
                rows,
                cols,
                row as int,
                col as int,
                m as int,
                0,
                c as int,
            ),
        decreases n - c,
    {
        let mut r: usize = 0;
        while r < m
            invariant
                layout.fits(old(data)@.len() as int, rows, cols),
                layout.distinct(rows, cols),
                row + m <= rows <= usize::MAX,
                col + n <= cols <= usize::MAX,
                values@.len() == m * n,
                c < n,
                r <= m,
                layout.same_beside(old(data)@, data@, rows, col as int, col + n),
                part_written(
                    old(data)@,
                    data@,
                    values@,
                    layout,
                    rows,
                    cols,
                    row as int,
                    col as int,
                    m as int,
                    r as int,
                    c as int,
                ),
            decreases m - r,
        {
            let ghost before = data@;
            proof {
                assert(0 <= layout.index(row + r, col + c) < data@.len() == data.len());
                lemma_cell(m as int, n as int, r as int, c as int);
                assert((c + 1) * m <= n * m) by (nonlinear_arith)
                    requires
                        c + 1 <= n,
                ;
                assert(n * m == m * n) by (nonlinear_arith);
                assert((c + 1) * m == c * m + m) by (nonlinear_arith);
                assert(0 <= c * m) by (nonlinear_arith);
                assert(values.len() == m * n);
            }
            let p: usize = layout.locate(row + r, col + c);
            data[p] = values[c * m + r];
            proof {
                assert forall|i: int, j: int| 0 <= i < rows && 0 <= j < cols implies data@[
                    #[trigger] layout.index(i, j)] == if in_part(
                    row as int,
                    col as int,
                    m as int,
                    r + 1,
                    c as int,
                    i,
                    j,
                ) {
                    values@[cell(m as int, i - row, j - col)]
                } else {
                    old(data)@[layout.index(i, j)]
                } by {
                    let q = layout.index(i, j);
                    if q == p {
                        assert(i == row + r && j == col + c);
                    }
                }
                assert forall|q: int|
                    0 <= q < old(data)@.len() && !layout.holds(
                        rows,
                        col as int,
                        col + n,
                        q,
                    ) implies #[trigger] data@[q] == old(data)@[q] by {
                    assert(before[q] == old(data)@[q]);
                }
            }
            r = r + 1;
        }
        c = c + 1;
    }
    proof {
        assert forall|r: int, b: int| 0 <= r < m && 0 <= b < n implies values@[#[trigger] cell(
            m as int,
            r,
            b,
        )] == data@[layout.index(row + r, col + b)] by {}
    }
}

spec fn in_part(row: int, col: int, m: int, r: int, c: int, i: int, j: int) -> bool {
    0 <= i - row < m && 0 <= j - col && (j - col < c || (j - col == c && i - row < r))
}

spec fn part_written<T>(
    pre: Seq<T>,
    post: Seq<T>,
    values: Seq<T>,
    layout: Layout,
    rows: int,
    cols: int,
    row: int,
    col: int,
    m: int,
    r: int,
    c: int,
) -> bool {
    forall|i: int, j: int|
        0 <= i < rows && 0 <= j < cols ==> post[#[trigger] layout.index(i, j)] == if in_part(
            row,
            col,
            m,
            r,
            c,
            i,
            j,
        ) {
            values[cell(m, i - row, j - col)]
        } else {
            pre[layout.index(i, j)]
        }
}

/// A block is determined by its entries.
pub proof fn lemma_same_block<T>(
    a: Seq<T>,
    b: Seq<T>,
    data: Seq<T>,
    layout: Layout,
    row: int,
    col: int,
    m: int,
    n: int,
)
    requires
        0 < m,
        is_block(a, data, layout, row, col, m, n),
        is_block(b, data, layout, row, col, m, n),
    ensures
        a == b,
{
    assert forall|q: int| 0 <= q < m * n implies a[q] == b[q] by {
        let r = q % m;
        let c = q / m;
        vstd::arithmetic::div_mod::lemma_fundamental_div_mod(q, m);
        assert(0 <= c < n) by (nonlinear_arith)
            requires
                q == m * c + r,
                0 <= r < m,
                0 <= q < m * n,
                0 < m,
        ;
        lemma_cell(m, n, r, c);
        assert(c * m == m * c) by (nonlinear_arith);
        assert(a[cell(m, r, c)] == data[layout.index(row + r, col + c)]);
        assert(b[cell(m, r, c)] == data[layout.index(row + r, col + c)]);
    }
    assert(a =~= b);
}

/// A dense copy goes down the columns: the entry below is the next element, and the entry to the right is
/// one column of `m` elements further.
pub proof fn law_dense_order(m: int, r: int, c: int)
    ensures
        cell(m, 0, 0) == 0,
        cell(m, r + 1, c) == cell(m, r, c) + 1,
        cell(m, r, c + 1) == cell(m, r, c) + m,
{
    reveal(crate::pack::slot);
    assert((c + 1) * m == c * m + m) by (nonlinear_arith);
}

} // verus!
