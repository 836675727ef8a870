//! Entry by entry changes of a strided matrix.

use crate::layout::Layout;
use vstd::prelude::*;

verus! {

/// Every entry of the `m` by `n` matrix is what `f` makes of it, and nothing beside it changes.
pub open spec fn mapped<T, F: Fn(T) -> T>(
    f: F,
    layout: Layout,
    m: int,
    n: int,
    pre: Seq<T>,
    post: Seq<T>,
) -> bool {
    &&& layout.same_beside(pre, post, m, 0, n)
    &&& forall|i: int, j: int|
        0 <= i < m && 0 <= j < n ==> call_ensures(
            f,
            (pre[#[trigger] layout.index(i, j)],),
            post[layout.index(i, j)],
        )
}

/// Every entry of the `m` by `n` matrix is `value`, and nothing beside it changes.
pub open spec fn filled_with<T>(
    value: T,
    layout: Layout,
    m: int,
    n: int,
    pre: Seq<T>,
    post: Seq<T>,
) -> bool {
    &&& layout.same_beside(pre, post, m, 0, n)
    &&& forall|i: int, j: int|
        0 <= i < m && 0 <= j < n ==> post[#[trigger] layout.index(i, j)] == value
}

/// Replaces every entry of the `m` by `n` matrix by what `f` makes of it, column by column.
pub(crate) fn map_entries<T: Copy, F: Fn(T) -> T>(
    f: F,
    dst: &mut [T],
    layout: Layout,
    m: usize,
    n: usize,
)
    requires
        layout.fits(old(dst)@.len() as int, m as int, n as int),
        layout.distinct(m as int, n as int),
        forall|x: T| call_requires(f, (x,)),
    ensures
        mapped(f, layout, m as int, n as int, old(dst)@, final(dst)@),
{
    let ghost pre = dst@;
    let len: usize = dst.len();
    let mut j: usize = 0;
    while j < n
        invariant
            layout.fits(pre.len() as int, m as int, n as int),
            layout.distinct(m as int, n as int),
            forall|x: T| call_requires(f, (x,)),
            j <= n,
            dst@.len() == len,
            layout.same_beside(pre, dst@, m as int, 0, n as int),
            forall|r: int, c: int|
                0 <= r < m && 0 <= c < j ==> call_ensures(
                    f,
                    (pre[#[trigger] layout.index(r, c)],),
                    dst@[layout.index(r, c)],
                ),
            forall|r: int, c: int|
                0 <= r < m && j <= c < n ==> dst@[#[trigger] layout.index(r, c)]
                    == pre[layout.index(r, c)],
        decreases n - j,
    {
        let mut i: usize = 0;
        while i < m
            invariant
                layout.fits(pre.len() as int, m as int, n as int),
                layout.distinct(m as int, n as int),
                forall|x: T| call_requires(f, (x,)),
                j < n,
                i <= m,
                dst@.len() == len,
                layout.same_beside(pre, dst@, m as int, 0, n as int),
                forall|r: int, c: int|
                    0 <= r < m && 0 <= c <= j && (c < j || r < i) ==> call_ensures(
                        f,
                        (pre[#[trigger] layout.index(r, c)],),
                        dst@[layout.index(r, c)],
                    ),
                forall|r: int, c: int|
                    0 <= r < m && j <= c < n && (c > j || r >= i) ==> dst@[#[trigger] layout.index(
                        r,
                        c,
                    )] == pre[layout.index(r, c)],
            decreases m - i,
        {
            let ghost before = dst@;
            let ghost here = layout.index(i as int, j as int);
            proof {
                assert(0 <= here < pre.len());
                assert(layout.holds(m as int, 0, n as int, here));
            }
            let p = layout.locate(i, j);
            let new = f(dst[p]);
            dst[p] = new;
            proof {
                assert forall|q: int|
                    0 <= q < pre.len() && !layout.holds(
                        m as int,
                        0,
                        n as int,
                        q,
                    ) implies #[trigger] dst@[q] == pre[q] by {
                    assert(before[q] == pre[q]);
                }
                assert forall|r: int, c: int|
                    0 <= r < m && 0 <= c <= j && (c < j || r < i + 1) implies call_ensures(
                    f,
                    (pre[#[trigger] layout.index(r, c)],),
                    dst@[layout.index(r, c)],
                ) by {
                    if c < j || r < i {
                        assert(layout.index(r, c) != here);
                    }
                }
                assert forall|r: int, c: int|
                    0 <= r < m && j <= c < n && (c > j || r >= i + 1) implies dst@[
                    #[trigger] layout.index(r, c)
                ] == pre[layout.index(r, c)] by {
                    assert(layout.index(r, c) != here);
                }
            }
            i = i + 1;
        }
        j = j + 1;
    }
}

/// Replaces every entry of the `m` by `n` matrix by `value`.
pub(crate) fn fill_entries<T: Copy>(
    value: T,
    dst: &mut [T],
    layout: Layout,
    m: usize,
    n: usize,
)
    requires
        layout.fits(old(dst)@.len() as int, m as int, n as int),
        layout.distinct(m as int, n as int),
    ensures
        filled_with(value, layout, m as int, n as int, old(dst)@, final(dst)@),
{
    let constant = |x: T| -> (y: T)
        ensures
            y == value,
        { value };
    map_entries(constant, dst, layout, m, n);
}

} // verus!
