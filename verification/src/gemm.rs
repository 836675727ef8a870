//! General matrix multiplication in one precision.

use crate::arch::Arch;
use crate::arch::Machine;
use crate::block::gather;
use crate::block::scatter;
use crate::blocked::multiply_blocked;
use crate::blocked::Plan;
use crate::convert::Keep;
use crate::entries::fill_entries;
use crate::entries::map_entries;
use crate::kernel::AlphaStatus;
use crate::kernel::KernelCall;
use crate::kernel::TileCall;
use crate::kernel::TileStep;
use crate::layout::Layout;
use crate::parallel::Parallelism;
use crate::scalar::Number;
use crate::share::div_ceil;
use crate::scheme::Scheme;
use crate::sweep::Problem;
use crate::thresholds::get_rhs_packing_threshold;
use crate::thresholds::ThresholdValues;
use crate::thresholds::Thresholds;
use crate::tuning::choose_params;
use crate::tuning::fill_columns;
use crate::tuning::should_pack_rhs;
use crate::tuning::Blocking;
use crate::tuning::KernelParams;
use vstd::prelude::*;

verus! {

/// How the destination is to be scaled by `alpha`.
pub open spec fn status_of<T: Number>(alpha: T) -> AlphaStatus {
    if alpha.zero_valued() {
        AlphaStatus::Zero
    } else if alpha.one_valued() {
        AlphaStatus::One
    } else {
        AlphaStatus::Other
    }
}

/// How the destination is to be scaled by `alpha`.
pub fn alpha_status<T: Number>(alpha: T) -> (r: AlphaStatus)
    ensures
        r == status_of(alpha),
{
    if alpha.is_zero() {
        AlphaStatus::Zero
    } else if alpha.is_one() {
        AlphaStatus::One
    } else {
        AlphaStatus::Other
    }
}

/// What the factors of a product are multiplied by, and which of them are conjugated.
pub struct Factors<T> {
    pub alpha: T,
    pub beta: T,
    pub conj_dst: bool,
    pub conj_lhs: bool,
    pub conj_rhs: bool,
}

/// The factors of a product. A destination that is not to be read is scaled by zero.
pub open spec fn factors<T: Number>(
    read_dst: bool,
    alpha: T,
    beta: T,
    conj_dst: bool,
    conj_lhs: bool,
    conj_rhs: bool,
) -> Factors<T> {
    Factors {
        alpha: if read_dst {
            alpha
        } else {
            T::zero_value()
        },
        beta,
        conj_dst,
        conj_lhs,
        conj_rhs,
    }
}

/// What the kernels are asked for: the first update of a tile scales and conjugates the
/// destination, the others add to it.
pub open spec fn asked_of<T: Number>(f: Factors<T>) -> spec_fn(
    T,
    T,
    AlphaStatus,
    bool,
    bool,
    bool,
) -> bool {
    |alpha: T, beta: T, status: AlphaStatus, conj_dst: bool, conj_lhs: bool, conj_rhs: bool|
        {
            &&& alpha == f.alpha && conj_dst == f.conj_dst || alpha == T::one_value() && !conj_dst
            &&& beta == f.beta
            &&& status == status_of(alpha)
            &&& conj_lhs == f.conj_lhs
            &&& conj_rhs == f.conj_rhs
        }
}

/// Updates a tile with a kernel of the table. The first update scales and conjugates the
/// destination; the others add to it.
pub struct KernelStep<'b, T, F, const NR: usize, const MR_DIV_N: usize> {
    pub dispatcher: &'b [[F; NR]; MR_DIV_N],
    pub lanes: usize,
    pub mr: usize,
    pub factors: &'b Factors<T>,
}

impl<
    'b,
    T: Number,
    F: for <'a>Fn(KernelCall<'a, T>) -> Vec<T>,
    const NR: usize,
    const MR_DIV_N: usize,
> KernelStep<'b, T, F, NR, MR_DIV_N> {
    /// What the destination is scaled by.
    pub open spec fn alpha_for(self, first: bool) -> T {
        if first {
            self.factors.alpha
        } else {
            T::one_value()
        }
    }

    /// What the kernel is given.
    pub open spec fn kernel_call<'a>(self, call: TileCall<'a, T, T>) -> KernelCall<'a, T> {
        KernelCall {
            m: call.m,
            n: call.n,
            k: call.k,
            dst: call.dst,
            lhs: call.lhs,
            lhs_layout: call.lhs_layout,
            next_lhs: call.next_lhs,
            rhs: call.rhs,
            rhs_layout: call.rhs_layout,
            alpha: self.alpha_for(call.first),
            beta: self.factors.beta,
            alpha_status: status_of(self.alpha_for(call.first)),
            conj_dst: call.first && self.factors.conj_dst,
            conj_lhs: self.factors.conj_lhs,
            conj_rhs: self.factors.conj_rhs,
        }
    }

    /// The kernels can make the step.
    pub open spec fn takes(self, call: TileCall<T, T>) -> bool {
        &&& 0 < self.lanes
        &&& self.mr == MR_DIV_N * self.lanes
        &&& call.wf(self.lanes as int, self.mr as int, NR as int)
        &&& crate::kernel::kernels_ready(
            *self.dispatcher,
            self.lanes as int,
            self.mr as int,
            asked_of(*self.factors),
        )
    }

    /// The kernel for the shape of the tile may give `out`.
    pub open spec fn gives(self, call: TileCall<T, T>, out: Seq<T>) -> bool {
        exists|res: Vec<T>|
            {
                &&& #[trigger] call_ensures(
                    self.dispatcher@[crate::share::ceil_quotient(
                        call.m as int,
                        self.lanes as int,
                    ) - 1]@[call.n - 1],
                    (self.kernel_call(call),),
                    res,
                )
                &&& res@ == out
            }
    }
}

/// The steps that [`KernelStep`] makes.
pub proof fn lemma_kernel_step<
    T: Number,
    F: for <'a>Fn(KernelCall<'a, T>) -> Vec<T>,
    const NR: usize,
    const MR_DIV_N: usize,
>(step: KernelStep<'_, T, F, NR, MR_DIV_N>)
    ensures
        forall|call: TileCall<T, T>| #[trigger]
            TileStep::<T, T>::accepts(&step, call) == step.takes(call),
        forall|call: TileCall<T, T>, out: Seq<T>| #[trigger]
            TileStep::<T, T>::yields(&step, call, out) == step.gives(call, out),
{
}

impl<
    'b,
    T: Number,
    F: for <'a>Fn(KernelCall<'a, T>) -> Vec<T>,
    const NR: usize,
    const MR_DIV_N: usize,
> TileStep<T, T> for KernelStep<'b, T, F, NR, MR_DIV_N> {
    open spec fn accepts(&self, call: TileCall<T, T>) -> bool {
        self.takes(call)
    }

    open spec fn yields(&self, call: TileCall<T, T>, out: Seq<T>) -> bool {
        self.gives(call, out)
    }

    fn step(&self, call: TileCall<'_, T, T>) -> (out: Vec<T>) {
        proof {
            crate::share::lemma_ceil_quotient(call.m as int, self.lanes as int);
            let q = crate::share::ceil_quotient(call.m as int, self.lanes as int);
            assert(q <= MR_DIV_N) by (nonlinear_arith)
                requires
                    self.lanes * (q - 1) < call.m,
                    call.m <= MR_DIV_N * self.lanes,
                    0 < self.lanes,
            ;
        }
        let ghost given = call;
        let a: usize = div_ceil(call.m, self.lanes) - 1;
        let b: usize = call.n - 1;
        let alpha = if call.first {
            self.factors.alpha
        } else {
            T::one()
        };
        let kernel = &self.dispatcher[a][b];
        let args = KernelCall {
            m: call.m,
            n: call.n,
            k: call.k,
            dst: call.dst,
            lhs: call.lhs,
            lhs_layout: call.lhs_layout,
            next_lhs: call.next_lhs,
            rhs: call.rhs,
            rhs_layout: call.rhs_layout,
            alpha,
            beta: self.factors.beta,
            alpha_status: alpha_status(alpha),
            conj_dst: call.first && self.factors.conj_dst,
            conj_lhs: self.factors.conj_lhs,
            conj_rhs: self.factors.conj_rhs,
        };
        assert(args == self.kernel_call(given));
        kernel(args)
    }
}

/// Ways to compute a product.
#[derive(Clone, Copy, Debug, PartialEq, Eq, Structural)]
pub enum Route {
    /// The destination is empty.
    Nothing,
    /// The destination is only scaled.
    Scale,
    /// As a sum of at most two outer products.
    Outer,
    /// As a matrix times a column, all transposed.
    TransposedVector,
    /// As a matrix times a column.
    Vector,
    /// Block by block.
    Blocked,
}

/// The absolute value of a stride.
pub open spec fn magnitude(stride: int) -> int {
    if stride < 0 {
        -stride
    } else {
        stride
    }
}

/// The way to compute a product. `conj` says whether any factor is conjugated.
pub open spec fn route(m: int, n: int, k: int, lhs: Layout, rhs: Layout, conj: bool) -> Route {
    if m == 0 || n == 0 {
        Route::Nothing
    } else if k == 0 {
        Route::Scale
    } else if !conj && k <= 2 {
        Route::Outer
    } else if !conj && m <= 1 && magnitude(rhs.cs as int) <= magnitude(rhs.rs as int) {
        Route::TransposedVector
    } else if !conj && n <= 1 && magnitude(lhs.rs as int) <= magnitude(lhs.cs as int) {
        Route::Vector
    } else {
        Route::Blocked
    }
}

/// The first stride is not longer than the second one.
fn not_longer(a: isize, b: isize) -> (r: bool)
    ensures
        r == (magnitude(a as int) <= magnitude(b as int)),
{
    let x: i128 = if a < 0 {
        -(a as i128)
    } else {
        a as i128
    };
    let y: i128 = if b < 0 {
        -(b as i128)
    } else {
        b as i128
    };
    x <= y
}

/// The way to compute a product. See [`route`].
pub fn choose_route(m: usize, n: usize, k: usize, lhs: Layout, rhs: Layout, conj: bool) -> (r:
    Route)
    ensures
        r == route(m as int, n as int, k as int, lhs, rhs, conj),
{
    if m == 0 || n == 0 {
        return Route::Nothing;
    }
    if k == 0 {
        return Route::Scale;
    }
    if !conj {
        if k <= 2 {
            return Route::Outer;
        }
        if m <= 1 && not_longer(rhs.cs, rhs.rs) {
            return Route::TransposedVector;
        }
        if n <= 1 && not_longer(lhs.rs, lhs.cs) {
            return Route::Vector;
        }
    }
    Route::Blocked
}

/// The operands of a product that is computed in one go.
pub struct ProductCall<'a, T> {
    pub m: usize,
    pub n: usize,
    pub k: usize,
    /// The destination as it is, in dense column-major order.
    pub dst: Vec<T>,
    pub lhs: &'a [T],
    pub lhs_layout: Layout,
    pub rhs: &'a [T],
    pub rhs_layout: Layout,
    pub alpha: T,
    pub beta: T,
}

impl<'a, T> ProductCall<'a, T> {
    /// Nothing is empty, and all entries lie inside their buffers.
    pub open spec fn wf(self) -> bool {
        &&& 0 < self.m
        &&& 0 < self.n
        &&& 0 < self.k
        &&& self.dst@.len() == self.m * self.n
        &&& self.lhs_layout.fits(self.lhs@.len() as int, self.m as int, self.k as int)
        &&& self.rhs_layout.fits(self.rhs@.len() as int, self.k as int, self.n as int)
    }

    /// The operands are those of the problem, and the destination is as in `pre`.
    pub open spec fn matches_problem(
        self,
        p: Problem<T>,
        alpha: T,
        beta: T,
        pre: Seq<T>,
    ) -> bool {
        &&& self.m == p.m
        &&& self.n == p.n
        &&& self.k == p.k
        &&& crate::block::is_block(
            self.dst@,
            pre,
            p.dst_layout,
            0,
            0,
            p.m as int,
            p.n as int,
        )
        &&& self.lhs@ == p.lhs@
        &&& self.lhs_layout == p.lhs_layout
        &&& self.rhs@ == p.rhs@
        &&& self.rhs_layout == p.rhs_layout
        &&& self.alpha == alpha
        &&& self.beta == beta
    }
}

/// `f` can compute products in one go, with at most `n_max` columns and a depth of at most `k_max`.
pub open spec fn computes_products<T, F: for <'a>Fn(ProductCall<'a, T>) -> Vec<T>>(
    f: F,
    n_max: int,
    k_max: int,
) -> bool {
    &&& forall|call: ProductCall<T>|
        call.wf() && call.n <= n_max && call.k <= k_max ==> #[trigger] call_requires(f, (call,))
    &&& forall|call: ProductCall<T>, out: Vec<T>|
        call.wf() && call.n <= n_max && call.k <= k_max && #[trigger] call_ensures(
            f,
            (call,),
            out,
        ) ==> out@.len() == call.m * call.n
}

/// The destination goes from `pre` to `post` by one call of `f`, and nothing beside it changes.
pub open spec fn computed_by<T, F: for <'a>Fn(ProductCall<'a, T>) -> Vec<T>>(
    f: F,
    p: Problem<T>,
    alpha: T,
    beta: T,
    pre: Seq<T>,
    post: Seq<T>,
) -> bool {
    &&& p.dst_layout.same_beside(pre, post, p.m as int, 0, p.n as int)
    &&& exists|call: ProductCall<T>, out: Vec<T>|
        {
            &&& #[trigger] call_ensures(f, (call,), out)
            &&& call.wf()
            &&& call.matches_problem(p, alpha, beta, pre)
            &&& crate::block::is_block(
                out@,
                post,
                p.dst_layout,
                0,
                0,
                p.m as int,
                p.n as int,
            )
        }
}

/// The transposed problem: the destination and both operands are transposed, and the operands
/// change places.
pub open spec fn transposed_problem<T>(p: Problem<T>) -> Problem<T> {
    Problem {
        m: p.n,
        n: p.m,
        k: p.k,
        lhs: p.rhs,
        lhs_layout: p.rhs_layout.transposed(),
        rhs: p.lhs,
        rhs_layout: p.lhs_layout.transposed(),
        dst_layout: p.dst_layout.transposed(),
    }
}

fn transpose_problem<'a, T>(p: &Problem<'a, T>) -> (r: Problem<'a, T>)
    ensures
        r == transposed_problem(*p),
{
    Problem {
        m: p.n,
        n: p.m,
        k: p.k,
        lhs: p.rhs,
        lhs_layout: p.rhs_layout.transpose(),
        rhs: p.lhs,
        rhs_layout: p.lhs_layout.transpose(),
        dst_layout: p.dst_layout.transpose(),
    }
}

/// A transposed layout has the same entries.
pub proof fn lemma_transposed_layout(l: Layout)
    ensures
        forall|i: int, j: int| #[trigger] l.transposed().index(i, j) == l.index(j, i),
        forall|i: int, j: int| #[trigger] l.index(i, j) == l.transposed().index(j, i),
{
    reveal(Layout::index);
}

/// The transposed problem is as well formed as the problem.
proof fn lemma_transposed_problem<T>(p: Problem<T>, len: int)
    requires
        p.wf(len),
    ensures
        transposed_problem(p).wf(len),
{
    lemma_transposed_layout(p.lhs_layout);
    lemma_transposed_layout(p.rhs_layout);
    lemma_transposed_layout(p.dst_layout);
    assert(p.m * p.n == p.n * p.m) by (nonlinear_arith);
}

/// What lies beside the transposed destination lies beside the destination.
proof fn lemma_transposed_frame<T>(p: Problem<T>, pre: Seq<T>, post: Seq<T>)
    requires
        p.dst_layout.transposed().same_beside(pre, post, p.n as int, 0, p.m as int),
    ensures
        p.dst_layout.same_beside(pre, post, p.m as int, 0, p.n as int),
{
    let l = p.dst_layout;
    lemma_transposed_layout(l);
    assert forall|q: int|
        0 <= q < pre.len() && !l.holds(p.m as int, 0, p.n as int, q) implies #[trigger] post[q]
        == pre[q] by {
        if l.transposed().holds(p.n as int, 0, p.m as int, q) {
            let (i, j) = choose|i: int, j: int|
                0 <= i < p.n && 0 <= j < p.m && #[trigger] l.transposed().index(i, j) == q;
            assert(l.index(j, i) == q);
        }
    }
}

/// Computes a product in one go.
fn multiply_by<T: Copy, F: for <'a>Fn(ProductCall<'a, T>) -> Vec<T>>(
    f: &F,
    p: &Problem<'_, T>,
    alpha: T,
    beta: T,
    dst: &mut [T],
)
    requires
        p.wf(old(dst)@.len() as int),
        0 < p.m,
        0 < p.n,
        0 < p.k,
        computes_products(*f, p.n as int, p.k as int),
    ensures
        computed_by(*f, *p, alpha, beta, old(dst)@, final(dst)@),
{
    let ghost pre = dst@;
    let values = gather(&*dst, p.dst_layout, 0, 0, p.m, p.n);
    let call = ProductCall {
        m: p.m,
        n: p.n,
        k: p.k,
        dst: values,
        lhs: p.lhs,
        lhs_layout: p.lhs_layout,
        rhs: p.rhs,
        rhs_layout: p.rhs_layout,
        alpha,
        beta,
    };
    let ghost given = call;
    let out = f(call);
    scatter(dst, p.dst_layout, Ghost(p.m as int), Ghost(p.n as int), 0, 0, p.m, p.n, &out);
    assert(call_ensures(*f, (given,), out));
    assert(given.matches_problem(*p, alpha, beta, pre));
}

/// `y` is `alpha` times `x` or its conjugate.
pub open spec fn scaled<T: Number, M: Fn(T, T) -> T>(
    times: &M,
    alpha: T,
    conj: bool,
    x: T,
    y: T,
) -> bool {
    call_ensures(
        *times,
        (
            alpha,
            if conj {
                x.conjugate()
            } else {
                x
            },
        ),
        y,
    )
}

/// Every number can be multiplied by `alpha`.
pub open spec fn multiplies<T, M: Fn(T, T) -> T>(times: &M, alpha: T) -> bool {
    forall|x: T| call_requires(*times, (alpha, x))
}

/// The destination goes from `pre` to `post` by scaling its entries, and nothing beside it changes.
pub open spec fn scaled_all<T: Number, M: Fn(T, T) -> T>(
    times: &M,
    p: Problem<T>,
    alpha: T,
    conj: bool,
    pre: Seq<T>,
    post: Seq<T>,
) -> bool {
    if alpha.zero_valued() {
        crate::entries::filled_with(
            T::zero_value(),
            p.dst_layout,
            p.m as int,
            p.n as int,
            pre,
            post,
        )
    } else if alpha.one_valued() && !conj {
        post == pre
    } else {
        &&& p.dst_layout.same_beside(pre, post, p.m as int, 0, p.n as int)
        &&& forall|i: int, j: int|
            0 <= i < p.m && 0 <= j < p.n ==> scaled(
                times,
                alpha,
                conj,
                pre[#[trigger] p.dst_layout.index(i, j)],
                post[p.dst_layout.index(i, j)],
            )
    }
}

/// Scales the entries of the destination.
fn scale_all<T: Number, M: Fn(T, T) -> T>(
    times: &M,
    p: &Problem<'_, T>,
    alpha: T,
    conj: bool,
    dst: &mut [T],
)
    requires
        p.wf(old(dst)@.len() as int),
        multiplies(times, alpha),
    ensures
        scaled_all(times, *p, alpha, conj, old(dst)@, final(dst)@),
{
    if alpha.is_zero() {
        fill_entries(T::zero(), dst, p.dst_layout, p.m, p.n);
        return;
    }
    if alpha.is_one() && !conj {
        return;
    }
    let scale = |x: T| -> (y: T)
        requires
            multiplies(times, alpha),
        ensures
            scaled(times, alpha, conj, x, y),
        {
            if conj {
                times(alpha, x.conj())
            } else {
                times(alpha, x)
            }
        };
    map_entries(scale, dst, p.dst_layout, p.m, p.n);
}

/// The operands of a product, and where the entries of the destination are.
pub open spec fn problem<'a, T>(
    m: usize,
    n: usize,
    k: usize,
    dst_layout: Layout,
    lhs: &'a [T],
    lhs_layout: Layout,
    rhs: &'a [T],
    rhs_layout: Layout,
) -> Problem<'a, T> {
    Problem { m, n, k, lhs, lhs_layout, rhs, rhs_layout, dst_layout }
}

/// The way to compute the product.
pub open spec fn route_of<T>(p: Problem<T>, f: Factors<T>) -> Route {
    route(
        p.m as int,
        p.n as int,
        p.k as int,
        p.lhs_layout,
        p.rhs_layout,
        f.conj_dst || f.conj_lhs || f.conj_rhs,
    )
}

/// The sizes of the blocks that a product is computed in, with tiles of `mr` by `nr` entries.
pub open spec fn blocking_of<T: Number>(
    p: Problem<T>,
    mr: int,
    nr: int,
    parallelism: Parallelism,
    machine: Machine,
    tuned: KernelParams,
) -> Blocking {
    crate::tuning::with_columns(
        crate::tuning::chosen_blocking(
            p.m as int,
            p.n as int,
            p.k as int,
            mr,
            nr,
            T::bytes(),
            machine.l2_bytes as int,
            tuned@,
        ),
        p.n as int,
        nr,
        parallelism,
    )
}

/// The right operand is packed.
pub open spec fn packs<T>(
    p: Problem<T>,
    mr: int,
    thresholds: ThresholdValues,
    machine: Machine,
) -> bool {
    crate::tuning::packs_rhs(
        machine.arch is Aarch64,
        p.rhs_layout.rs as int,
        p.m as int,
        mr,
        thresholds.rhs_packing,
    )
}

/// How a product is computed block by block, with tiles of `mr` by `nr` entries: the left operand may
/// be read in place, the right one is if it is not packed.
pub open spec fn scheme_of<'a, T: Number>(
    p: Problem<'a, T>,
    lanes: usize,
    mr: usize,
    nr: usize,
    parallelism: Parallelism,
    thresholds: ThresholdValues,
    machine: Machine,
    tuned: KernelParams,
) -> Scheme<'a, T> {
    Scheme {
        blocking: blocking_of(p, mr as int, nr as int, parallelism, machine, tuned),
        lanes,
        mr,
        nr,
        lhs_direct: Some(p.lhs),
        rhs_direct: if packs(p, mr as int, thresholds, machine) {
            None
        } else {
            Some(p.rhs)
        },
        parallelism,
        thresholds,
    }
}

/// What is needed to compute a product block by block.
pub open spec fn blocks_ready<
    T: Number,
    F: for <'a>Fn(KernelCall<'a, T>) -> Vec<T>,
    const NR: usize,
    const MR_DIV_N: usize,
>(
    p: Problem<T>,
    f: Factors<T>,
    dispatcher: [[F; NR]; MR_DIV_N],
    lanes: int,
    mr: int,
    parallelism: Parallelism,
    thresholds: ThresholdValues,
    machine: Machine,
    tuned: KernelParams,
) -> bool {
    let blocking = blocking_of(p, mr, NR as int, parallelism, machine, tuned);
    &&& 0 < lanes
    &&& mr == MR_DIV_N * lanes
    &&& 0 < mr <= isize::MAX
    &&& 0 < NR <= isize::MAX
    &&& crate::kernel::kernels_ready(dispatcher, lanes, mr, asked_of(f))
    &&& blocking.wf(mr, NR as int, packs(p, mr, thresholds, machine))
    &&& blocking.work_counts(p.m as int, p.n as int, p.k as int, parallelism)
    &&& parallelism is Rayon ==> thresholds.threading > 0
}

/// The destination goes from `pre` to `post` by the product.
pub open spec fn multiplied<
    T: Number,
    M: Fn(T, T) -> T,
    O: for <'a>Fn(ProductCall<'a, T>) -> Vec<T>,
    V: for <'a>Fn(ProductCall<'a, T>) -> Vec<T>,
    F: for <'a>Fn(KernelCall<'a, T>) -> Vec<T>,
    const NR: usize,
    const MR_DIV_N: usize,
>(
    p: Problem<T>,
    f: Factors<T>,
    times: M,
    outer: O,
    vector: V,
    dispatcher: [[F; NR]; MR_DIV_N],
    scheme: Scheme<T>,
    pre: Seq<T>,
    post: Seq<T>,
) -> bool {
    match route_of(p, f) {
        Route::Nothing => post == pre,
        Route::Scale => scaled_all(&times, p, f.alpha, f.conj_dst, pre, post),
        Route::Outer => computed_by(outer, p, f.alpha, f.beta, pre, post),
        Route::TransposedVector => {
            &&& computed_by(vector, transposed_problem(p), f.alpha, f.beta, pre, post)
            &&& p.dst_layout.same_beside(pre, post, p.m as int, 0, p.n as int)
        },
        Route::Vector => computed_by(vector, p, f.alpha, f.beta, pre, post),
        Route::Blocked => crate::blocked::accumulated(
            p,
            Keep,
            KernelStep {
                dispatcher: &dispatcher,
                lanes: scheme.lanes,
                mr: scheme.mr,
                factors: &f,
            },
            scheme,
            pre,
            post,
        ),
    }
}

/// Computes `dst = alpha * conj?(dst) + beta * conj?(lhs) * conj?(rhs)`, where `dst` has `m` rows
/// and `n` columns and the operands are `k` deep. Each factor is conjugated only on demand. With
/// `read_dst` unset, `alpha` counts as zero.
///
/// `times` multiplies two numbers. `outer` and `vector` compute products of a small depth or with a
/// single column in one go. `dispatcher` holds the kernels, by the number of vectors of `N` rows
/// and by the number of columns of a tile. `tuned` are the block sizes for large products; no
/// number of columns stands for one that depends on `parallelism`.
pub fn gemm_basic_generic<
    T: Number + Send + Sync,
    M: Fn(T, T) -> T,
    O: for <'a>Fn(ProductCall<'a, T>) -> Vec<T>,
    V: for <'a>Fn(ProductCall<'a, T>) -> Vec<T>,
    F: for <'a>Fn(KernelCall<'a, T>) -> Vec<T> + Sync,
    const N: usize,
    const MR: usize,
    const NR: usize,
    const MR_DIV_N: usize,
>(
    m: usize,
    n: usize,
    k: usize,
    dst: &mut [T],
    dst_layout: Layout,
    read_dst: bool,
    lhs: &[T],
    lhs_layout: Layout,
    rhs: &[T],
    rhs_layout: Layout,
    alpha: T,
    beta: T,
    conj_dst: bool,
    conj_lhs: bool,
    conj_rhs: bool,
    times: M,
    outer: O,
    vector: V,
    dispatcher: &[[F; NR]; MR_DIV_N],
    parallelism: Parallelism,
    thresholds: &Thresholds,
    machine: Machine,
    tuned: KernelParams,
)
    requires
        ({
            let p = problem(m, n, k, dst_layout, lhs, lhs_layout, rhs, rhs_layout);
            let f = factors(read_dst, alpha, beta, conj_dst, conj_lhs, conj_rhs);
            &&& p.wf(old(dst)@.len() as int)
            &&& route_of(p, f) is Scale ==> multiplies(&times, f.alpha)
            &&& route_of(p, f) is Outer ==> computes_products(outer, usize::MAX as int, 2)
            &&& route_of(p, f) is TransposedVector || route_of(p, f) is Vector
                ==> computes_products(vector, 1, usize::MAX as int)
            &&& route_of(p, f) is Blocked ==> blocks_ready(
                p,
                f,
                *dispatcher,
                N as int,
                MR as int,
                parallelism,
                thresholds@,
                machine,
                tuned,
            )
        }),
    ensures
        ({
            let p = problem(m, n, k, dst_layout, lhs, lhs_layout, rhs, rhs_layout);
            let f = factors(read_dst, alpha, beta, conj_dst, conj_lhs, conj_rhs);
            multiplied(
                p,
                f,
                times,
                outer,
                vector,
                *dispatcher,
                scheme_of(p, N, MR, NR, parallelism, thresholds@, machine, tuned),
                old(dst)@,
                final(dst)@,
            )
        }),
{
    let p = Problem { m, n, k, lhs, lhs_layout, rhs, rhs_layout, dst_layout };
    let alpha = if read_dst {
        alpha
    } else {
        T::zero()
    };
    let f = Factors { alpha, beta, conj_dst, conj_lhs, conj_rhs };
    match choose_route(m, n, k, lhs_layout, rhs_layout, conj_dst || conj_lhs || conj_rhs) {
        Route::Nothing => {},
        Route::Scale => {
            scale_all(&times, &p, alpha, conj_dst, dst);
        },
        Route::Outer => {
            multiply_by(&outer, &p, alpha, beta, dst);
        },
        Route::TransposedVector => {
            let ghost pre = dst@;
            let t = transpose_problem(&p);
            proof {
                lemma_transposed_problem(p, dst@.len() as int);
            }
            multiply_by(&vector, &t, alpha, beta, dst);
            proof {
                lemma_transposed_frame(p, pre, dst@);
            }
        },
        Route::Vector => {
            multiply_by(&vector, &p, alpha, beta, dst);
        },
        Route::Blocked => {
            proof {
                crate::share::lemma_ceil_quotient(n as int, NR as int);
                let c = crate::share::ceil_quotient(n as int, NR as int);
                assert(c * NR > 0) by (nonlinear_arith)
                    requires
                        c >= 1,
                        NR > 0,
                ;
                vstd::arithmetic::div_mod::lemma_mod_multiples_basic(MR_DIV_N as int, N as int);
            }
            let chosen = choose_params(
                m,
                n,
                k,
                MR,
                NR,
                T::byte_size(),
                machine.l2_bytes,
                tuned,
            );
            let params = fill_columns(chosen, n, NR, parallelism);
            let aarch64: bool = match machine.arch {
                Arch::Aarch64 => true,
                _ => false,
            };
            let do_pack_rhs = should_pack_rhs(
                aarch64,
                rhs_layout.rs,
                m,
                MR,
                get_rhs_packing_threshold(thresholds),
            );
            let step = KernelStep { dispatcher, lanes: N, mr: MR, factors: &f };
            let plan = Plan {
                problem: p,
                conv: &Keep,
                step: &step,
                zero: T::zero(),
                params,
                lhs_direct: Some(lhs),
                rhs_direct: if do_pack_rhs {
                    None
                } else {
                    Some(rhs)
                },
                parallelism,
                thresholds,
            };
            multiply_blocked::<T, T, Keep, KernelStep<'_, T, F, NR, MR_DIV_N>, N, MR, NR>(
                &plan,
                dst,
            );
        },
    }
}

/// The way that is taken: nothing is done for an empty destination, and it is only scaled where there is no
/// depth. A shallow product is a sum of outer products; one row or one column is a matrix times a
/// column, where the strides of the other operand suit that. Whatever is conjugated goes block by block.
pub proof fn law_choose_route(
    m: usize,
    n: usize,
    k: usize,
    lhs: Layout,
    rhs: Layout,
    conj: bool,
    r: Route,
)
    requires
        call_ensures(choose_route, (m, n, k, lhs, rhs, conj), r),
    ensures
        r is Nothing <==> m * n == 0,
        r is Scale <==> m * n > 0 && k == 0,
        r is Outer <==> m * n > 0 && !conj && (k == 1 || k == 2),
        r is TransposedVector <==> n > 0 && k >= 3 && !conj && m == 1 && rhs.cs * rhs.cs <= rhs.rs
            * rhs.rs,
        r is Vector <==> m > 0 && k >= 3 && !conj && n == 1 && lhs.rs * lhs.rs <= lhs.cs * lhs.cs
            && !(r is TransposedVector),
        conj && m * n > 0 && k > 0 ==> r is Blocked,
{
    assert(m * n == 0 <==> m == 0 || n == 0) by (nonlinear_arith);
    assert(m * n >= 0) by (nonlinear_arith);
    lemma_magnitude(rhs.cs as int, rhs.rs as int);
    lemma_magnitude(lhs.rs as int, lhs.cs as int);
}

/// A stride is longer than another one where its square is.
proof fn lemma_magnitude(a: int, b: int)
    ensures
        magnitude(a) <= magnitude(b) <==> a * a <= b * b,
{
    let x = magnitude(a);
    let y = magnitude(b);
    assert(x * x == a * a) by (nonlinear_arith)
        requires
            x == a || x == -a,
    ;
    assert(y * y == b * b) by (nonlinear_arith)
        requires
            y == b || y == -b,
    ;
    assert(x <= y <==> x * x <= y * y) by (nonlinear_arith)
        requires
            0 <= x,
            0 <= y,
    ;
}

} // verus!
