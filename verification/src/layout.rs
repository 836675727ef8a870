//! Where the entries of a strided matrix sit in a flat buffer.

use vstd::prelude::*;

verus! {

/// Position of a strided matrix inside a flat buffer.
///
/// Entry `(i, j)` sits `i` row strides and `j` column strides away from `at`. Strides may be
/// negative or zero.
#[derive(Clone, Copy, Debug)]
pub struct Layout {
    pub at: usize,
    pub rs: isize,
    pub cs: isize,
}

impl Layout {
    /// Buffer index of entry `(i, j)`.
    #[verifier::opaque]
    pub open spec fn index(self, i: int, j: int) -> int {
        self.at + i * self.rs + j * self.cs
    }

    /// Every entry of an `m` by `n` matrix lies inside a buffer of `len` elements.
    pub open spec fn fits(self, len: int, m: int, n: int) -> bool {
        forall|i: int, j: int| 0 <= i < m && 0 <= j < n ==> 0 <= #[trigger] self.index(i, j) < len
    }

    /// No two entries of an `m` by `n` matrix share a buffer element.
    pub open spec fn distinct(self, m: int, n: int) -> bool {
        forall|i: int, j: int, i2: int, j2: int|
            0 <= i < m && 0 <= j < n && 0 <= i2 < m && 0 <= j2 < n && #[trigger] self.index(i, j)
                == #[trigger] self.index(i2, j2) ==> i == i2 && j == j2
    }

    /// Buffer element `p` belongs to an entry with row below `m` and column in `lo..hi`.
    pub open spec fn holds(self, m: int, lo: int, hi: int, p: int) -> bool {
        exists|i: int, j: int| 0 <= i < m && lo <= j < hi && #[trigger] self.index(i, j) == p
    }

    /// `post` differs from `pre` only in entries with row below `m` and column in `lo..hi`.
    pub open spec fn same_beside<T>(
        self,
        pre: Seq<T>,
        post: Seq<T>,
        m: int,
        lo: int,
        hi: int,
    ) -> bool {
        &&& post.len() == pre.len()
        &&& forall|p: int|
            0 <= p < pre.len() && !self.holds(m, lo, hi, p) ==> #[trigger] post[p] == pre[p]
    }

    /// The layout of the transposed matrix.
    pub open spec fn transposed(self) -> Layout {
        Layout { at: self.at, rs: self.cs, cs: self.rs }
    }

    /// Exchanges rows and columns.
    pub fn transpose(&self) -> (r: Layout)
        ensures
            r == self.transposed(),
            forall|i: int, j: int| #[trigger] r.index(i, j) == self.index(j, i),
    {
        proof {
            reveal(Layout::index);
        }
        Layout { at: self.at, rs: self.cs, cs: self.rs }
    }

    /// Buffer index of entry `(i, j)`. The strides are applied in a wider type, so that no
    /// intermediate value can overflow.
    pub fn locate(&self, i: usize, j: usize) -> (p: usize)
        requires
            0 <= self.index(i as int, j as int) <= usize::MAX,
        ensures
            p == self.index(i as int, j as int),
    {
        proof {
            reveal(Layout::index);
            lemma_wide_product(i, self.rs);
            lemma_wide_product(j, self.cs);
        }
        let down: i128 = (i as i128) * (self.rs as i128);
        let across: i128 = (j as i128) * (self.cs as i128);
        ((self.at as i128) + (down + across)) as usize
    }

    /// The layout of the submatrix whose first entry is `(i, j)`.
    pub fn shift(&self, i: usize, j: usize) -> (r: Layout)
        requires
            0 <= self.index(i as int, j as int) <= usize::MAX,
        ensures
            r.at == self.index(i as int, j as int),
            r.rs == self.rs,
            r.cs == self.cs,
            forall|a: int, b: int| #[trigger] r.index(a, b) == self.index(i + a, j + b),
    {
        let r = Layout { at: self.locate(i, j), rs: self.rs, cs: self.cs };
        proof {
            assert forall|a: int, b: int| #[trigger] r.index(a, b) == self.index(i + a, j + b) by {
                reveal(Layout::index);
                assert((i + a) * self.rs == i * self.rs + a * self.rs) by (nonlinear_arith);
                assert((j + b) * self.cs == j * self.cs + b * self.cs) by (nonlinear_arith);
            }
        }
        r
    }
}

proof fn lemma_wide_product(i: usize, s: isize)
    ensures
        -0x7fff_ffff_ffff_ffff_ffff_ffff_ffff_ffff <= i * s
            <= 0x7fff_ffff_ffff_ffff_ffff_ffff_ffff_ffff,
{
    assert(-(0xffff_ffff_ffff_ffff * 0x8000_0000_0000_0000) <= i * s <= 0xffff_ffff_ffff_ffff
        * 0x8000_0000_0000_0000) by (nonlinear_arith)
        requires
            0 <= i <= 0xffff_ffff_ffff_ffff,
            -0x8000_0000_0000_0000 <= s <= 0x8000_0000_0000_0000,
    ;
}

/// A layout is what its strides say: one row further is one row stride further, one column further one
/// column stride, and the first entry is where the layout starts.
pub proof fn law_strides(l: Layout, i: int, j: int)
    ensures
        l.index(0, 0) == l.at,
        l.index(i + 1, j) - l.index(i, j) == l.rs,
        l.index(i, j + 1) - l.index(i, j) == l.cs,
{
    reveal(Layout::index);
    assert((i + 1) * l.rs == i * l.rs + l.rs) by (nonlinear_arith);
    assert((j + 1) * l.cs == j * l.cs + l.cs) by (nonlinear_arith);
}

/// What the operations on layouts return.
pub proof fn law_layout_calls(l: Layout, i: usize, j: usize)
    ensures
        forall|p: usize| #[trigger]
            call_ensures(Layout::locate, (&l, i, j), p) ==> p == l.at + i * l.rs + j * l.cs,
        forall|r: Layout| #[trigger]
            call_ensures(Layout::shift, (&l, i, j), r) ==> {
                &&& r.at == l.at + i * l.rs + j * l.cs
                &&& r.rs == l.rs
                &&& r.cs == l.cs
            },
        forall|r: Layout| #[trigger]
            call_ensures(Layout::transpose, (&l,), r) ==> {
                &&& r.at == l.at
                &&& r.rs == l.cs
                &&& r.cs == l.rs
            },
{
    reveal(Layout::index);
}

} // verus!
