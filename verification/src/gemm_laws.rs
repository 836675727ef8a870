//! What holds of products in one precision, whichever way they are computed.

use crate::arch::Machine;
use crate::convert::Keep;
use crate::gemm::Factors;
use crate::gemm::KernelStep;
use crate::gemm::ProductCall;
use crate::gemm::Route;
use crate::kernel::KernelCall;
use crate::kernel::TileCall;
use crate::kernel::TileStep;
use crate::parallel::Parallelism;
use crate::scalar::Number;
use crate::scheme::Scheme;
use crate::sweep::Problem;
use crate::tuning::KernelParams;
use vstd::prelude::*;

verus! {

/// Nothing beside the entries of the destination changes, whichever way the product is computed.
pub proof fn law_gemm_stays_inside<
    T: Number,
    M: Fn(T, T) -> T,
    O: for <'a>Fn(ProductCall<'a, T>) -> Vec<T>,
    V: for <'a>Fn(ProductCall<'a, T>) -> Vec<T>,
    F: for <'a>Fn(KernelCall<'a, T>) -> Vec<T>,
    const NR: usize,
    const MR_DIV_N: usize,
>(
    p: Problem<T>,
    f: Factors<T>,
    times: M,
    outer: O,
    vector: V,
    dispatcher: [[F; NR]; MR_DIV_N],
    scheme: Scheme<T>,
    pre: Seq<T>,
    post: Seq<T>,
)
    requires
        crate::gemm::multiplied(p, f, times, outer, vector, dispatcher, scheme, pre, post),
    ensures
        p.dst_layout.same_beside(pre, post, p.m as int, 0, p.n as int),
{
}

/// With `read_dst` unset the factor of the destination does not matter.
pub proof fn law_unread_factor<T: Number>(
    alpha: T,
    other: T,
    beta: T,
    conj_dst: bool,
    conj_lhs: bool,
    conj_rhs: bool,
)
    ensures
        crate::gemm::factors(
            false,
            alpha,
            beta,
            conj_dst,
            conj_lhs,
            conj_rhs,
        ) == crate::gemm::factors(
            false,
            other,
            beta,
            conj_dst,
            conj_lhs,
            conj_rhs,
        ),
{
}

/// Equal arguments give equal results.
pub open spec fn multiplies_by_function<T, M: Fn(T, T) -> T>(times: M) -> bool {
    forall|x: T, y: T, z: T, w: T| #[trigger]
        call_ensures(times, (x, y), z) && #[trigger] call_ensures(times, (x, y), w) ==> z == w
}

/// Two calls have the same operands.
pub open spec fn same_operands<T>(a: ProductCall<T>, b: ProductCall<T>) -> bool {
    &&& a.m == b.m
    &&& a.n == b.n
    &&& a.k == b.k
    &&& a.dst@ == b.dst@
    &&& a.lhs@ == b.lhs@
    &&& a.lhs_layout == b.lhs_layout
    &&& a.rhs@ == b.rhs@
    &&& a.rhs_layout == b.rhs_layout
    &&& a.alpha == b.alpha
    &&& a.beta == b.beta
}

/// Equal operands give equal products.
pub open spec fn computes_by_function<T, F: for <'a>Fn(ProductCall<'a, T>) -> Vec<T>>(
    f: F,
) -> bool {
    forall|a: ProductCall<T>, b: ProductCall<T>, x: Vec<T>, y: Vec<T>| #[trigger]
        call_ensures(f, (a,), x) && #[trigger] call_ensures(f, (b,), y) && same_operands(a, b)
            ==> x@ == y@
}

/// A product in one go is determined by its operands.
proof fn lemma_computed_once<T, F: for <'a>Fn(ProductCall<'a, T>) -> Vec<T>>(
    f: F,
    p: Problem<T>,
    alpha: T,
    beta: T,
    pre: Seq<T>,
    post: Seq<T>,
    other: Seq<T>,
)
    requires
        computes_by_function(f),
        crate::gemm::computed_by(f, p, alpha, beta, pre, post),
        crate::gemm::computed_by(f, p, alpha, beta, pre, other),
    ensures
        post == other,
{
    let (a, x) = choose|call: ProductCall<T>, out: Vec<T>|
        {
            &&& #[trigger] call_ensures(f, (call,), out)
            &&& call.wf()
            &&& call.matches_problem(p, alpha, beta, pre)
            &&& crate::block::is_block(out@, post, p.dst_layout, 0, 0, p.m as int, p.n as int)
        };
    let (b, y) = choose|call: ProductCall<T>, out: Vec<T>|
        {
            &&& #[trigger] call_ensures(f, (call,), out)
            &&& call.wf()
            &&& call.matches_problem(p, alpha, beta, pre)
            &&& crate::block::is_block(out@, other, p.dst_layout, 0, 0, p.m as int, p.n as int)
        };
    crate::block::lemma_same_block(
        a.dst@,
        b.dst@,
        pre,
        p.dst_layout,
        0,
        0,
        p.m as int,
        p.n as int,
    );
    assert(same_operands(a, b));
    let l = p.dst_layout;
    assert forall|q: int| 0 <= q < pre.len() implies post[q] == other[q] by {
        if l.holds(p.m as int, 0, p.n as int, q) {
            let (i, j) = choose|i: int, j: int|
                0 <= i < p.m && 0 <= j < p.n && #[trigger] l.index(i, j) == q;
            let c = crate::block::cell(p.m as int, i, j);
            assert(x@[c] == post[l.index(0 + i, 0 + j)]);
            assert(y@[c] == other[l.index(0 + i, 0 + j)]);
        }
    }
    assert(post =~= other);
}

/// Every entry of the tile that a kernel gives is what `entry` makes of the factor of the
/// destination, whether it is conjugated, the entry before, a row and a column.
pub open spec fn kernel_pointwise<T>(
    call: KernelCall<T>,
    out: Seq<T>,
    entry: spec_fn(T, bool, T, Seq<T>, Seq<T>) -> T,
) -> bool {
    forall|r: int, c: int|
        0 <= r < call.m && 0 <= c < call.n ==> out[#[trigger] crate::block::cell(
            call.m as int,
            r,
            c,
        )] == entry(
            call.alpha,
            call.conj_dst,
            call.dst@[crate::block::cell(call.m as int, r, c)],
            Seq::new(call.k as nat, |d: int| call.lhs@[call.lhs_layout.index(r, d)]),
            Seq::new(call.k as nat, |d: int| call.rhs@[call.rhs_layout.index(d, c)]),
        )
}

/// The kernels of the table treat the entries of a tile independently, with the factors that they
/// are asked for.
pub open spec fn kernels_pointwise<
    T: Number,
    F: for <'a>Fn(KernelCall<'a, T>) -> Vec<T>,
    const NR: usize,
    const MR_DIV_N: usize,
>(
    dispatcher: [[F; NR]; MR_DIV_N],
    lanes: int,
    mr: int,
    f: Factors<T>,
    entry: spec_fn(T, bool, T, Seq<T>, Seq<T>) -> T,
) -> bool {
    forall|a: int, b: int, call: KernelCall<T>, out: Vec<T>|
        0 <= a < MR_DIV_N && 0 <= b < NR && call.wf(lanes, mr, NR as int)
            && crate::kernel::serves(lanes, a, b, call) && call.asked_by(crate::gemm::asked_of(f))
            && #[trigger] call_ensures(dispatcher@[a]@[b], (call,), out) ==> kernel_pointwise(
            call,
            out@,
            entry,
        )
}

/// What such kernels make of an entry in the first update of a tile and in the others.
pub open spec fn tile_entry<T: Number>(
    f: Factors<T>,
    entry: spec_fn(T, bool, T, Seq<T>, Seq<T>) -> T,
) -> spec_fn(bool, T, Seq<T>, Seq<T>) -> T {
    |first: bool, old: T, row: Seq<T>, col: Seq<T>|
        if first {
            entry(f.alpha, f.conj_dst, old, row, col)
        } else {
            entry(T::one_value(), false, old, row, col)
        }
}

/// Steps with such kernels treat the entries of a tile independently.
proof fn lemma_kernel_step_pointwise<
    T: Number,
    F: for <'a>Fn(KernelCall<'a, T>) -> Vec<T>,
    const NR: usize,
    const MR_DIV_N: usize,
>(
    step: KernelStep<'_, T, F, NR, MR_DIV_N>,
    entry: spec_fn(T, bool, T, Seq<T>, Seq<T>) -> T,
)
    requires
        kernels_pointwise(
            *step.dispatcher,
            step.lanes as int,
            step.mr as int,
            *step.factors,
            entry,
        ),
    ensures
        crate::laws::steps_pointwise(step, tile_entry(*step.factors, entry)),
{
    let made = tile_entry(*step.factors, entry);
    assert forall|call: TileCall<T, T>, out: Seq<T>| #[trigger]
        step.yields(call, out) && step.accepts(call) implies crate::laws::tile_pointwise(
        call,
        out,
        made,
    ) by {
        let lanes = step.lanes as int;
        let a = crate::share::ceil_quotient(call.m as int, lanes) - 1;
        let b = call.n - 1;
        crate::share::lemma_ceil_quotient(call.m as int, lanes);
        assert(a < MR_DIV_N) by (nonlinear_arith)
            requires
                lanes * a < call.m,
                call.m <= MR_DIV_N * lanes,
                0 < lanes,
        ;
        let args = step.kernel_call(call);
        let res = choose|res: Vec<T>|
            {
                &&& #[trigger] call_ensures(
                    step.dispatcher@[crate::share::ceil_quotient(
                        call.m as int,
                        step.lanes as int,
                    ) - 1]@[call.n - 1],
                    (step.kernel_call(call),),
                    res,
                )
                &&& res@ == out
            };
        assert(call_ensures(step.dispatcher@[a]@[b], (args,), res));
        assert(args.wf(lanes, step.mr as int, NR as int));
        assert(crate::kernel::serves(lanes, a, b, args));
        assert(kernel_pointwise(args, out, entry));
        assert forall|r: int, c: int| 0 <= r < call.m && 0 <= c < call.n implies out[
            #[trigger] crate::block::cell(call.m as int, r, c)
        ] == made(
            call.first,
            call.dst@[crate::block::cell(call.m as int, r, c)],
            crate::laws::tile_row(call, r),
            crate::laws::tile_col(call, c),
        ) by {
            let q = crate::block::cell(args.m as int, r, c);
            assert(crate::laws::tile_row(call, r) =~= Seq::new(
                args.k as nat,
                |d: int| args.lhs@[args.lhs_layout.index(r, d)],
            ));
            assert(crate::laws::tile_col(call, c) =~= Seq::new(
                args.k as nat,
                |d: int| args.rhs@[args.rhs_layout.index(d, c)],
            ));
        }
    }
}

/// Block by block, with kernels that treat the entries of a tile independently, what becomes of an
/// entry depends only on the entry, its row of the left operand, its column of the right operand,
/// and the size of the blocks along the depth.
pub proof fn law_gemm_entry_alone<
    T: Number,
    F: for <'a>Fn(KernelCall<'a, T>) -> Vec<T>,
    const NR: usize,
    const MR_DIV_N: usize,
>(
    p: Problem<T>,
    f: Factors<T>,
    dispatcher: [[F; NR]; MR_DIV_N],
    scheme: Scheme<T>,
    entry: spec_fn(T, bool, T, Seq<T>, Seq<T>) -> T,
    pre: Seq<T>,
    post: Seq<T>,
    i: int,
    j: int,
)
    requires
        kernels_pointwise(dispatcher, scheme.lanes as int, scheme.mr as int, f, entry),
        0 < scheme.blocking.kc,
        0 < p.k,
        0 <= i < p.m,
        0 <= j < p.n,
        crate::blocked::accumulated(
            p,
            Keep,
            KernelStep {
                dispatcher: &dispatcher,
                lanes: scheme.lanes,
                mr: scheme.mr,
                factors: &f,
            },
            scheme,
            pre,
            post,
        ),
    ensures
        post[p.dst_layout.index(i, j)] == crate::laws::entry_after(
            p,
            tile_entry(f, entry),
            |x: T| x,
            scheme.blocking.kc,
            i,
            j,
            pre[p.dst_layout.index(i, j)],
            crate::share::ceil_quotient(p.k as int, scheme.blocking.kc),
        ),
{
    let step = KernelStep {
        dispatcher: &dispatcher,
        lanes: scheme.lanes,
        mr: scheme.mr,
        factors: &f,
    };
    let id = |x: T| x;
    lemma_kernel_step_pointwise(step, entry);
    assert(crate::laws::converts_by(Keep, id));
    crate::laws::law_entry_alone(p, Keep, step, tile_entry(f, entry), id, scheme, pre, post, i, j);
}

/// The result is the same on any number of threads, whatever is packed and however the destination
/// is cut into tiles: with functions as routines, and kernels that treat the entries of a tile
/// independently, the operands and the size of the blocks along the depth determine it.
pub proof fn law_gemm_result_is_unique<
    T: Number,
    M: Fn(T, T) -> T,
    O: for <'a>Fn(ProductCall<'a, T>) -> Vec<T>,
    V: for <'a>Fn(ProductCall<'a, T>) -> Vec<T>,
    F: for <'a>Fn(KernelCall<'a, T>) -> Vec<T>,
    const NR: usize,
    const MR_DIV_N: usize,
>(
    p: Problem<T>,
    f: Factors<T>,
    times: M,
    outer: O,
    vector: V,
    dispatcher: [[F; NR]; MR_DIV_N],
    scheme: Scheme<T>,
    other_scheme: Scheme<T>,
    entry: spec_fn(T, bool, T, Seq<T>, Seq<T>) -> T,
    pre: Seq<T>,
    post: Seq<T>,
    other: Seq<T>,
)
    requires
        multiplies_by_function(times),
        computes_by_function(outer),
        computes_by_function(vector),
        kernels_pointwise(dispatcher, scheme.lanes as int, scheme.mr as int, f, entry),
        crate::gemm::route_of(p, f) is Blocked ==> {
            &&& 0 < scheme.blocking.kc == other_scheme.blocking.kc
            &&& scheme.lanes == other_scheme.lanes
            &&& scheme.mr == other_scheme.mr
        },
        crate::gemm::multiplied(p, f, times, outer, vector, dispatcher, scheme, pre, post),
        crate::gemm::multiplied(p, f, times, outer, vector, dispatcher, other_scheme, pre, other),
    ensures
        post == other,
{
    let l = p.dst_layout;
    match crate::gemm::route_of(p, f) {
        Route::Nothing => {},
        Route::Scale => {
            assert forall|q: int| 0 <= q < pre.len() implies post[q] == other[q] by {
                if l.holds(p.m as int, 0, p.n as int, q) {
                    let (i, j) = choose|i: int, j: int|
                        0 <= i < p.m && 0 <= j < p.n && #[trigger] l.index(i, j) == q;
                    if !f.alpha.zero_valued() && !(f.alpha.one_valued() && !f.conj_dst) {
                        assert(crate::gemm::scaled(
                            &times,
                            f.alpha,
                            f.conj_dst,
                            pre[l.index(i, j)],
                            post[l.index(i, j)],
                        ));
                        assert(crate::gemm::scaled(
                            &times,
                            f.alpha,
                            f.conj_dst,
                            pre[l.index(i, j)],
                            other[l.index(i, j)],
                        ));
                    }
                }
            }
            assert(post =~= other);
        },
        Route::Outer => {
            lemma_computed_once(outer, p, f.alpha, f.beta, pre, post, other);
        },
        Route::TransposedVector => {
            lemma_computed_once(
                vector,
                crate::gemm::transposed_problem(p),
                f.alpha,
                f.beta,
                pre,
                post,
                other,
            );
        },
        Route::Vector => {
            lemma_computed_once(vector, p, f.alpha, f.beta, pre, post, other);
        },
        Route::Blocked => {
            let step = KernelStep {
                dispatcher: &dispatcher,
                lanes: scheme.lanes,
                mr: scheme.mr,
                factors: &f,
            };
            let id = |x: T| x;
            lemma_kernel_step_pointwise(step, entry);
            assert(crate::laws::converts_by(Keep, id));
            crate::laws::law_tiling_does_not_matter(
                p,
                Keep,
                step,
                step,
                tile_entry(f, entry),
                id,
                scheme,
                other_scheme,
                pre,
                post,
                other,
            );
        },
    }
}

/// The size of the blocks along the depth does not depend on the number of threads.
pub proof fn law_depth_ignores_threads<T: Number>(
    p: Problem<T>,
    mr: int,
    nr: int,
    parallelism: Parallelism,
    other: Parallelism,
    machine: Machine,
    tuned: KernelParams,
)
    ensures
        crate::gemm::blocking_of(
            p,
            mr,
            nr,
            parallelism,
            machine,
            tuned,
        ).kc == crate::gemm::blocking_of(
            p,
            mr,
            nr,
            other,
            machine,
            tuned,
        ).kc,
{
}

/// Two calls have the same operands, except for the destination.
pub open spec fn same_factors<T>(a: ProductCall<T>, b: ProductCall<T>) -> bool {
    &&& a.m == b.m
    &&& a.n == b.n
    &&& a.k == b.k
    &&& a.lhs@ == b.lhs@
    &&& a.lhs_layout == b.lhs_layout
    &&& a.rhs@ == b.rhs@
    &&& a.rhs_layout == b.rhs_layout
    &&& a.alpha == b.alpha
    &&& a.beta == b.beta
}

/// A destination that is scaled by zero has no influence on the product.
pub open spec fn ignores_zero_scaled<T: Number, F: for <'a>Fn(ProductCall<'a, T>) -> Vec<T>>(
    f: F,
) -> bool {
    forall|a: ProductCall<T>, b: ProductCall<T>, x: Vec<T>, y: Vec<T>| #[trigger]
        call_ensures(f, (a,), x) && #[trigger] call_ensures(f, (b,), y) && same_factors(a, b)
            && a.alpha.zero_valued() ==> x@ == y@
}

/// What such a product makes of an entry does not depend on the destination.
proof fn lemma_computed_unread<T: Number, F: for <'a>Fn(ProductCall<'a, T>) -> Vec<T>>(
    f: F,
    p: Problem<T>,
    alpha: T,
    beta: T,
    pre: Seq<T>,
    post: Seq<T>,
    other_pre: Seq<T>,
    other_post: Seq<T>,
    i: int,
    j: int,
)
    requires
        alpha.zero_valued(),
        ignores_zero_scaled(f),
        0 <= i < p.m,
        0 <= j < p.n,
        crate::gemm::computed_by(f, p, alpha, beta, pre, post),
        crate::gemm::computed_by(f, p, alpha, beta, other_pre, other_post),
    ensures
        post[p.dst_layout.index(i, j)] == other_post[p.dst_layout.index(i, j)],
{
    let (a, x) = choose|call: ProductCall<T>, out: Vec<T>|
        {
            &&& #[trigger] call_ensures(f, (call,), out)
            &&& call.wf()
            &&& call.matches_problem(p, alpha, beta, pre)
            &&& crate::block::is_block(out@, post, p.dst_layout, 0, 0, p.m as int, p.n as int)
        };
    let (b, y) = choose|call: ProductCall<T>, out: Vec<T>|
        {
            &&& #[trigger] call_ensures(f, (call,), out)
            &&& call.wf()
            &&& call.matches_problem(p, alpha, beta, other_pre)
            &&& crate::block::is_block(
                out@,
                other_post,
                p.dst_layout,
                0,
                0,
                p.m as int,
                p.n as int,
            )
        };
    assert(same_factors(a, b));
    let c = crate::block::cell(p.m as int, i, j);
    assert(x@[c] == post[p.dst_layout.index(0 + i, 0 + j)]);
    assert(y@[c] == other_post[p.dst_layout.index(0 + i, 0 + j)]);
}

/// A destination that is not read, or that is scaled by zero, may hold anything: with routines and
/// kernels that do not look at what they scale by zero, the result is the same.
pub proof fn law_gemm_unread_destination<
    T: Number,
    M: Fn(T, T) -> T,
    O: for <'a>Fn(ProductCall<'a, T>) -> Vec<T>,
    V: for <'a>Fn(ProductCall<'a, T>) -> Vec<T>,
    F: for <'a>Fn(KernelCall<'a, T>) -> Vec<T>,
    const NR: usize,
    const MR_DIV_N: usize,
>(
    p: Problem<T>,
    f: Factors<T>,
    times: M,
    outer: O,
    vector: V,
    dispatcher: [[F; NR]; MR_DIV_N],
    scheme: Scheme<T>,
    entry: spec_fn(T, bool, T, Seq<T>, Seq<T>) -> T,
    pre: Seq<T>,
    post: Seq<T>,
    other_pre: Seq<T>,
    other_post: Seq<T>,
    i: int,
    j: int,
)
    requires
        f.alpha.zero_valued(),
        ignores_zero_scaled(outer),
        ignores_zero_scaled(vector),
        kernels_pointwise(dispatcher, scheme.lanes as int, scheme.mr as int, f, entry),
        forall|x: T, y: T, row: Seq<T>, col: Seq<T>| #[trigger]
            entry(f.alpha, f.conj_dst, x, row, col) == #[trigger] entry(
                f.alpha,
                f.conj_dst,
                y,
                row,
                col,
            ),
        crate::gemm::route_of(p, f) is Blocked ==> 0 < scheme.blocking.kc,
        0 <= i < p.m,
        0 <= j < p.n,
        crate::gemm::multiplied(p, f, times, outer, vector, dispatcher, scheme, pre, post),
        crate::gemm::multiplied(
            p,
            f,
            times,
            outer,
            vector,
            dispatcher,
            scheme,
            other_pre,
            other_post,
        ),
    ensures
        post[p.dst_layout.index(i, j)] == other_post[p.dst_layout.index(i, j)],
{
    match crate::gemm::route_of(p, f) {
        Route::Nothing => {},
        Route::Scale => {},
        Route::Outer => {
            lemma_computed_unread(
                outer,
                p,
                f.alpha,
                f.beta,
                pre,
                post,
                other_pre,
                other_post,
                i,
                j,
            );
        },
        Route::TransposedVector => {
            crate::gemm::lemma_transposed_layout(p.dst_layout);
            lemma_computed_unread(
                vector,
                crate::gemm::transposed_problem(p),
                f.alpha,
                f.beta,
                pre,
                post,
                other_pre,
                other_post,
                j,
                i,
            );
        },
        Route::Vector => {
            lemma_computed_unread(
                vector,
                p,
                f.alpha,
                f.beta,
                pre,
                post,
                other_pre,
                other_post,
                i,
                j,
            );
        },
        Route::Blocked => {
            let step = KernelStep {
                dispatcher: &dispatcher,
                lanes: scheme.lanes,
                mr: scheme.mr,
                factors: &f,
            };
            let id = |x: T| x;
            lemma_kernel_step_pointwise(step, entry);
            assert(crate::laws::converts_by(Keep, id));
            crate::laws::law_unread_destination(
                p,
                Keep,
                step,
                tile_entry(f, entry),
                id,
                scheme,
                pre,
                post,
                other_pre,
                other_post,
                i,
                j,
            );
        },
    }
}

} // verus!
