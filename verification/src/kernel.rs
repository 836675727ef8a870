//! What the kernels that compute one tile are given and what they give back.

use crate::layout::Layout;
use vstd::prelude::*;

verus! {

/// What the destination is scaled by before the product is added.
#[derive(Clone, Copy, Debug, PartialEq, Eq, Structural)]
pub enum AlphaStatus {
    /// By zero: the destination is not read.
    Zero,
    /// By one.
    One,
    /// By some other number.
    Other,
}

/// The operands of a kernel.
///
/// The kernel computes an `m` by `n` tile from `k` columns of the left operand and `k` rows of the
/// right one. It returns the tile in dense column-major order.
pub struct KernelCall<'a, T> {
    pub m: usize,
    pub n: usize,
    pub k: usize,
    /// The tile as it is, in dense column-major order.
    pub dst: Vec<T>,
    pub lhs: &'a [T],
    pub lhs_layout: Layout,
    /// Where in `lhs` the rows below the tile start; the end of `lhs` where nothing follows. The
    /// kernel may ask for them ahead of time.
    pub next_lhs: usize,
    pub rhs: &'a [T],
    pub rhs_layout: Layout,
    pub alpha: T,
    pub beta: T,
    pub alpha_status: AlphaStatus,
    pub conj_dst: bool,
    pub conj_lhs: bool,
    pub conj_rhs: bool,
}

/// `m` rounded up to whole vectors.
pub open spec fn whole_vectors(m: int, lanes: int) -> int {
    crate::share::ceil_quotient(m, lanes) * lanes
}

impl<'a, T> KernelCall<'a, T> {
    /// The tile is not larger than `mr` by `nr`, the rows of the left operand lie next to one
    /// another, and whole vectors of them can be read.
    pub open spec fn wf(self, lanes: int, mr: int, nr: int) -> bool {
        &&& 0 < self.m <= mr
        &&& 0 < self.n <= nr
        &&& 0 < self.k
        &&& self.dst@.len() == self.m * self.n
        &&& self.lhs_layout.rs == 1
        &&& self.lhs_layout.fits(
            self.lhs@.len() as int,
            whole_vectors(self.m as int, lanes),
            self.k as int,
        )
        &&& self.next_lhs <= self.lhs@.len()
        &&& self.rhs_layout.fits(self.rhs@.len() as int, self.k as int, self.n as int)
    }

    /// The call is one that is asked for, as far as the factors are concerned.
    pub open spec fn asked_by(
        self,
        asked: spec_fn(T, T, AlphaStatus, bool, bool, bool) -> bool,
    ) -> bool {
        asked(
            self.alpha,
            self.beta,
            self.alpha_status,
            self.conj_dst,
            self.conj_lhs,
            self.conj_rhs,
        )
    }
}

/// A table of kernels, by the number of vectors that cover the rows of a tile and by the number of
/// its columns. They can be called for tiles of their shape, with any factors that are asked for.
pub open spec fn kernels_ready<
    T,
    F: for <'a>Fn(KernelCall<'a, T>) -> Vec<T>,
    const NR: usize,
    const MR_DIV_N: usize,
>(
    dispatcher: [[F; NR]; MR_DIV_N],
    lanes: int,
    mr: int,
    asked: spec_fn(T, T, AlphaStatus, bool, bool, bool) -> bool,
) -> bool {
    &&& forall|a: int, b: int, call: KernelCall<T>|
        0 <= a < MR_DIV_N && 0 <= b < NR && call.wf(lanes, mr, NR as int) && serves(
            lanes,
            a,
            b,
            call,
        ) && call.asked_by(asked) ==> #[trigger] call_requires(dispatcher@[a]@[b], (call,))
    &&& forall|a: int, b: int, call: KernelCall<T>, out: Vec<T>|
        0 <= a < MR_DIV_N && 0 <= b < NR && call.wf(lanes, mr, NR as int) && serves(
            lanes,
            a,
            b,
            call,
        ) && call.asked_by(asked) && #[trigger] call_ensures(dispatcher@[a]@[b], (call,), out)
            ==> out@.len() == call.m * call.n
}

/// Kernel `(a, b)` of the table is the one for tiles of this shape.
pub open spec fn serves<T>(lanes: int, a: int, b: int, call: KernelCall<T>) -> bool {
    a == crate::share::ceil_quotient(call.m as int, lanes) - 1 && b == call.n - 1
}

/// The operands of one step: a tile of the destination in the stored precision, and what it is to
/// be updated with in the computing precision.
pub struct TileCall<'a, T, C> {
    pub m: usize,
    pub n: usize,
    pub k: usize,
    /// The tile as it is, in dense column-major order.
    pub dst: Vec<T>,
    pub lhs: &'a [C],
    pub lhs_layout: Layout,
    /// As for a kernel.
    pub next_lhs: usize,
    pub rhs: &'a [C],
    pub rhs_layout: Layout,
    /// This is the first update of the tile.
    pub first: bool,
}

impl<'a, T, C> TileCall<'a, T, C> {
    /// As for a kernel.
    pub open spec fn wf(self, lanes: int, mr: int, nr: int) -> bool {
        &&& 0 < self.m <= mr
        &&& 0 < self.n <= nr
        &&& 0 < self.k
        &&& self.dst@.len() == self.m * self.n
        &&& self.lhs_layout.rs == 1
        &&& self.lhs_layout.fits(
            self.lhs@.len() as int,
            whole_vectors(self.m as int, lanes),
            self.k as int,
        )
        &&& self.next_lhs <= self.lhs@.len()
        &&& self.rhs_layout.fits(self.rhs@.len() as int, self.k as int, self.n as int)
    }
}

/// One way to update a tile.
pub trait TileStep<T, C> {
    /// The step can be made.
    spec fn accepts(&self, call: TileCall<T, C>) -> bool;

    /// The step may turn the tile into `out`.
    spec fn yields(&self, call: TileCall<T, C>, out: Seq<T>) -> bool;

    /// The updated tile, in dense column-major order.
    fn step(&self, call: TileCall<'_, T, C>) -> (out: Vec<T>)
        requires
            self.accepts(call),
        ensures
            out@.len() == call.m * call.n,
            self.yields(call, out@),
    ;
}

/// Whole vectors of rows can be read: every vector of `lanes` rows that a row of the tile belongs to lies
/// inside the left operand, in every column, and the row below it is the next element.
pub proof fn law_whole_vectors_readable<T, C>(
    call: TileCall<T, C>,
    given: KernelCall<C>,
    lanes: int,
    mr: int,
    nr: int,
    r: int,
    d: int,
)
    requires
        0 < lanes,
        0 <= r,
        r - r % lanes < call.m,
        0 <= d < call.k,
    ensures
        call.wf(lanes, mr, nr) ==> 0 <= call.lhs_layout.at + r + d * call.lhs_layout.cs
            < call.lhs@.len(),
        given.m == call.m && given.k == call.k && given.wf(lanes, mr, nr) ==> 0
            <= given.lhs_layout.at + r + d * given.lhs_layout.cs < given.lhs@.len(),
{
    let m = call.m as int;
    let q = crate::share::ceil_quotient(m, lanes);
    crate::share::lemma_ceil_quotient(m, lanes);
    vstd::arithmetic::div_mod::lemma_fundamental_div_mod(r, lanes);
    assert(r < q * lanes) by (nonlinear_arith)
        requires
            r == lanes * (r / lanes) + r % lanes,
            0 <= r % lanes < lanes,
            r - r % lanes < m,
            lanes * q >= m,
    ;
    assert(call.wf(lanes, mr, nr) ==> call.lhs_layout.index(r, d) == call.lhs_layout.at + r + d
        * call.lhs_layout.cs) by {
        reveal(Layout::index);
    }
    assert(given.wf(lanes, mr, nr) ==> given.lhs_layout.index(r, d) == given.lhs_layout.at + r + d
        * given.lhs_layout.cs) by {
        reveal(Layout::index);
    }
}

} // verus!
