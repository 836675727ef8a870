//! What a call of a product computes, in its own arguments.

use crate::arch::Machine;
use crate::convert::Through;
use crate::exact::Algebra;
use crate::gemm::choose_route;
use crate::gemm::gemm_basic_generic;
use crate::gemm::KernelStep;
use crate::gemm::ProductCall;
use crate::gemm::Route;
use crate::half_exact::Meaning;
use crate::half_precision;
use crate::half_precision::HalfMath;
use crate::half_precision::SingleMath;
use crate::kernel::KernelCall;
use crate::kernel::TileCall;
use crate::layout::Layout;
use crate::merge::MergeStep;
use crate::parallel::Parallelism;
use crate::scalar::Half;
use crate::scalar::Number;
use crate::scalar::Single;
use crate::scheme::Scheme;
use crate::thresholds::get_rhs_packing_threshold;
use crate::thresholds::Thresholds;
use crate::tuning::choose_params;
use crate::tuning::fill_columns;
use crate::tuning::should_pack_rhs;
use crate::tuning::KernelParams;
use vstd::prelude::*;

verus! {

/// The problem that a call poses is that of its arguments: all rows, all columns, the whole depth, and
/// the operands where they are.
pub proof fn law_call_problem<T>(
    m: usize,
    n: usize,
    k: usize,
    dst_layout: Layout,
    lhs: &[T],
    lhs_layout: Layout,
    rhs: &[T],
    rhs_layout: Layout,
)
    ensures
        ({
            let p = crate::gemm::problem(m, n, k, dst_layout, lhs, lhs_layout, rhs, rhs_layout);
            &&& p.m == m && p.n == n && p.k == k
            &&& p.dst_layout == dst_layout
            &&& p.lhs == lhs && p.lhs_layout == lhs_layout
            &&& p.rhs == rhs && p.rhs_layout == rhs_layout
        }),
{
}

/// The factors of a product are those of the call, and what is conjugated is what the call asks for. A
/// destination that is read is scaled by the factor that was passed in; one that is not, by zero.
pub proof fn law_call_factors<T: Number>(
    read_dst: bool,
    alpha: T,
    beta: T,
    conj_dst: bool,
    conj_lhs: bool,
    conj_rhs: bool,
)
    ensures
        ({
            let f = crate::gemm::factors(read_dst, alpha, beta, conj_dst, conj_lhs, conj_rhs);
            &&& read_dst ==> f.alpha == alpha
            &&& !read_dst ==> f.alpha == T::zero_value() && f.alpha.zero_valued()
            &&& f.beta == beta
            &&& f.conj_dst == conj_dst
            &&& f.conj_lhs == conj_lhs
            &&& f.conj_rhs == conj_rhs
        }),
{
    T::lemma_zero_and_one();
}

/// A destination in half precision that is read is scaled by the factor that was passed in, bit for bit;
/// one that is not, by positive zero.
pub proof fn law_call_half_factor(read_dst: bool, alpha: Half)
    ensures
        read_dst ==> crate::half_precision::alpha_used(read_dst, alpha).bits == alpha.bits,
        !read_dst ==> crate::half_precision::alpha_used(read_dst, alpha).bits == 0,
{
}

/// `post` differs from `pre` only in entries of the `m` by `n` matrix.
proof fn lemma_nothing_beside<T>(l: Layout, m: int, n: int, pre: Seq<T>, post: Seq<T>)
    requires
        l.same_beside(pre, post, m, 0, n),
    ensures
        post.len() == pre.len(),
        forall|q: int|
            0 <= q < pre.len() && (forall|i: int, j: int|
                0 <= i < m && 0 <= j < n ==> #[trigger] l.index(i, j) != q) ==> #[trigger] post[q]
                == pre[q],
{
}

/// `post` holds `alpha * conj?(dst) + beta * conj?(lhs) * conj?(rhs)` in every entry of the `m` by `n`
/// destination, which was `pre`. The sum runs over the whole depth `k`, and every number is conjugated
/// exactly where that is asked for. With `read_dst` unset the first summand is zero. Nothing beside the
/// entries differs.
pub open spec fn product_left<T: Number, R>(
    alg: Algebra<T, R>,
    m: int,
    n: int,
    k: int,
    dst_layout: Layout,
    read_dst: bool,
    lhs: Seq<T>,
    lhs_layout: Layout,
    rhs: Seq<T>,
    rhs_layout: Layout,
    alpha: T,
    beta: T,
    conj_dst: bool,
    conj_lhs: bool,
    conj_rhs: bool,
    pre: Seq<T>,
    post: Seq<T>,
) -> bool {
    &&& forall|i: int, j: int|
        0 <= i < m && 0 <= j < n ==> (alg.value)(post[#[trigger] dst_layout.index(i, j)]) == (
        alg.sum.plus)(
            if read_dst {
                (alg.scale)(alpha, conj_dst, pre[dst_layout.index(i, j)])
            } else {
                (alg.value)(T::zero_value())
            },
            alg.sum.total(
                |d: int|
                    (alg.term)(
                        beta,
                        conj_lhs,
                        conj_rhs,
                        lhs[lhs_layout.index(i, d)],
                        rhs[rhs_layout.index(d, j)],
                    ),
                0,
                k,
            ),
        )
    &&& post.len() == pre.len()
    &&& forall|q: int|
        0 <= q < pre.len() && (forall|i: int, j: int|
            0 <= i < m && 0 <= j < n ==> #[trigger] dst_layout.index(i, j) != q) ==> #[trigger]
        post[q] == pre[q]
}

/// `post` holds `alpha * dst + beta * lhs * rhs` in every entry of the `m` by `n` destination, which was
/// `pre`, for half precision numbers. The sum runs over the whole depth `k`. With `read_dst` unset the
/// first summand is zero. Nothing beside the entries differs.
pub open spec fn half_product_left<C, R>(
    meaning: Meaning<C, R>,
    m: int,
    n: int,
    k: int,
    dst_layout: Layout,
    read_dst: bool,
    lhs: Seq<Half>,
    lhs_layout: Layout,
    rhs: Seq<Half>,
    rhs_layout: Layout,
    alpha: Half,
    beta: Half,
    pre: Seq<Half>,
    post: Seq<Half>,
) -> bool {
    &&& forall|i: int, j: int|
        0 <= i < m && 0 <= j < n ==> (meaning.stored)(post[#[trigger] dst_layout.index(i, j)]) == (
        meaning.ring.sum.plus)(
            if read_dst {
                (meaning.ring.times)(
                    (meaning.stored)(alpha),
                    (meaning.stored)(pre[dst_layout.index(i, j)]),
                )
            } else {
                meaning.ring.sum.zero
            },
            meaning.ring.sum.total(
                |d: int|
                    (meaning.ring.times)(
                        (meaning.stored)(beta),
                        (meaning.ring.times)(
                            (meaning.stored)(lhs[lhs_layout.index(i, d)]),
                            (meaning.stored)(rhs[rhs_layout.index(d, j)]),
                        ),
                    ),
                0,
                k,
            ),
        )
    &&& post.len() == pre.len()
    &&& forall|q: int|
        0 <= q < pre.len() && (forall|i: int, j: int|
            0 <= i < m && 0 <= j < n ==> #[trigger] dst_layout.index(i, j) != q) ==> #[trigger]
        post[q] == pre[q]
}

/// What the product has left is what its arguments ask for, where what is computed is exact.
proof fn lemma_gemm_left<
    T: Number,
    R,
    M: Fn(T, T) -> T,
    O: for <'a>Fn(ProductCall<'a, T>) -> Vec<T>,
    V: for <'a>Fn(ProductCall<'a, T>) -> Vec<T>,
    F: for <'a>Fn(KernelCall<'a, T>) -> Vec<T>,
    const NR: usize,
    const MR_DIV_N: usize,
>(
    alg: Algebra<T, R>,
    m: usize,
    n: usize,
    k: usize,
    dst_layout: Layout,
    read_dst: bool,
    lhs: &[T],
    lhs_layout: Layout,
    rhs: &[T],
    rhs_layout: Layout,
    alpha: T,
    beta: T,
    conj_dst: bool,
    conj_lhs: bool,
    conj_rhs: bool,
    times: M,
    outer: O,
    vector: V,
    dispatcher: [[F; NR]; MR_DIV_N],
    scheme: Scheme<T>,
    pre: Seq<T>,
    post: Seq<T>,
)
    requires
        alg.lawful(),
        alg.computes_exactly(
            crate::gemm::problem(m, n, k, dst_layout, lhs, lhs_layout, rhs, rhs_layout),
            crate::gemm::factors(read_dst, alpha, beta, conj_dst, conj_lhs, conj_rhs),
            times,
            outer,
            vector,
            dispatcher,
            scheme,
            pre,
        ),
        crate::gemm::route_of(
            crate::gemm::problem(m, n, k, dst_layout, lhs, lhs_layout, rhs, rhs_layout),
            crate::gemm::factors(read_dst, alpha, beta, conj_dst, conj_lhs, conj_rhs),
        ) is Blocked ==> 0 < scheme.blocking.kc,
        crate::gemm::multiplied(
            crate::gemm::problem(m, n, k, dst_layout, lhs, lhs_layout, rhs, rhs_layout),
            crate::gemm::factors(read_dst, alpha, beta, conj_dst, conj_lhs, conj_rhs),
            times,
            outer,
            vector,
            dispatcher,
            scheme,
            pre,
            post,
        ),
    ensures
        product_left(
            alg,
            m as int,
            n as int,
            k as int,
            dst_layout,
            read_dst,
            lhs@,
            lhs_layout,
            rhs@,
            rhs_layout,
            alpha,
            beta,
            conj_dst,
            conj_lhs,
            conj_rhs,
            pre,
            post,
        ),
{
    let p = crate::gemm::problem(m, n, k, dst_layout, lhs, lhs_layout, rhs, rhs_layout);
    let f = crate::gemm::factors(read_dst, alpha, beta, conj_dst, conj_lhs, conj_rhs);
    law_call_problem(m, n, k, dst_layout, lhs, lhs_layout, rhs, rhs_layout);
    law_call_factors(read_dst, alpha, beta, conj_dst, conj_lhs, conj_rhs);
    crate::gemm_laws::law_gemm_stays_inside(
        p,
        f,
        times,
        outer,
        vector,
        dispatcher,
        scheme,
        pre,
        post,
    );
    lemma_nothing_beside(dst_layout, m as int, n as int, pre, post);
    assert forall|i: int, j: int| 0 <= i < m && 0 <= j < n implies (alg.value)(
        post[#[trigger] dst_layout.index(i, j)],
    ) == (alg.sum.plus)(
        if read_dst {
            (alg.scale)(alpha, conj_dst, pre[dst_layout.index(i, j)])
        } else {
            (alg.value)(T::zero_value())
        },
        alg.sum.total(
            |d: int|
                (alg.term)(
                    beta,
                    conj_lhs,
                    conj_rhs,
                    lhs@[lhs_layout.index(i, d)],
                    rhs@[rhs_layout.index(d, j)],
                ),
            0,
            k as int,
        ),
    ) by {
        crate::exact::law_gemm_formula(
            alg,
            p,
            f,
            times,
            outer,
            vector,
            dispatcher,
            scheme,
            pre,
            post,
            i,
            j,
        );
        let g = |d: int|
            (alg.term)(
                f.beta,
                f.conj_lhs,
                f.conj_rhs,
                (|d: int| p.lhs@[p.lhs_layout.index(i, d)])(d),
                (|d: int| p.rhs@[p.rhs_layout.index(d, j)])(d),
            );
        let h = |d: int|
            (alg.term)(
                beta,
                conj_lhs,
                conj_rhs,
                lhs@[lhs_layout.index(i, d)],
                rhs@[rhs_layout.index(d, j)],
            );
        alg.sum.lemma_shift(g, h, 0, k as int, 0);
        let x = pre[dst_layout.index(i, j)];
        if !read_dst {
            assert((alg.scale)(f.alpha, conj_dst, x) == (alg.value)(T::zero_value()));
        }
    }
}

/// A call of [`gemm_basic_generic`] leaves `alpha * conj?(dst) + beta * conj?(lhs) * conj?(rhs)` in every
/// entry of the destination, where what is computed for it is exact: the sum runs over the whole depth,
/// all factors are those of the call, and each is conjugated exactly where the call asks for it. With
/// `read_dst` unset the destination does not count. Nothing beside its entries changes.
pub proof fn law_gemm_basic_generic<
    T: Number + Send + Sync,
    R,
    M: Fn(T, T) -> T,
    O: for <'a>Fn(ProductCall<'a, T>) -> Vec<T>,
    V: for <'a>Fn(ProductCall<'a, T>) -> Vec<T>,
    F: for <'a>Fn(KernelCall<'a, T>) -> Vec<T> + Sync,
    const N: usize,
    const MR: usize,
    const NR: usize,
    const MR_DIV_N: usize,
>(
    alg: Algebra<T, R>,
    m: usize,
    n: usize,
    k: usize,
    dst: &mut [T],
    dst_layout: Layout,
    read_dst: bool,
    lhs: &[T],
    lhs_layout: Layout,
    rhs: &[T],
    rhs_layout: Layout,
    alpha: T,
    beta: T,
    conj_dst: bool,
    conj_lhs: bool,
    conj_rhs: bool,
    times: M,
    outer: O,
    vector: V,
    dispatcher: &[[F; NR]; MR_DIV_N],
    parallelism: Parallelism,
    thresholds: &Thresholds,
    machine: Machine,
    tuned: KernelParams,
)
    requires
        alg.lawful(),
        alg.computes_exactly(
            crate::gemm::problem(m, n, k, dst_layout, lhs, lhs_layout, rhs, rhs_layout),
            crate::gemm::factors(read_dst, alpha, beta, conj_dst, conj_lhs, conj_rhs),
            times,
            outer,
            vector,
            *dispatcher,
            crate::gemm::scheme_of(
                crate::gemm::problem(m, n, k, dst_layout, lhs, lhs_layout, rhs, rhs_layout),
                N,
                MR,
                NR,
                parallelism,
                thresholds@,
                machine,
                tuned,
            ),
            old(dst)@,
        ),
        m <= 64 && n <= 64 || 0 < tuned.kc,
        call_ensures(
            gemm_basic_generic::<T, M, O, V, F, N, MR, NR, MR_DIV_N>,
            (
                m,
                n,
                k,
                dst,
                dst_layout,
                read_dst,
                lhs,
                lhs_layout,
                rhs,
                rhs_layout,
                alpha,
                beta,
                conj_dst,
                conj_lhs,
                conj_rhs,
                times,
                outer,
                vector,
                dispatcher,
                parallelism,
                thresholds,
                machine,
                tuned,
            ),
            (),
        ),
    ensures
        product_left(
            alg,
            m as int,
            n as int,
            k as int,
            dst_layout,
            read_dst,
            lhs@,
            lhs_layout,
            rhs@,
            rhs_layout,
            alpha,
            beta,
            conj_dst,
            conj_lhs,
            conj_rhs,
            old(dst)@,
            final(dst)@,
        ),
{
    law_call_problem(m, n, k, dst_layout, lhs, lhs_layout, rhs, rhs_layout);
    lemma_gemm_left(
        alg,
        m,
        n,
        k,
        dst_layout,
        read_dst,
        lhs,
        lhs_layout,
        rhs,
        rhs_layout,
        alpha,
        beta,
        conj_dst,
        conj_lhs,
        conj_rhs,
        times,
        outer,
        vector,
        *dispatcher,
        crate::gemm::scheme_of(
            crate::gemm::problem(m, n, k, dst_layout, lhs, lhs_layout, rhs, rhs_layout),
            N,
            MR,
            NR,
            parallelism,
            thresholds@,
            machine,
            tuned,
        ),
        old(dst)@,
        final(dst)@,
    );
}

/// What the product has left is what its arguments ask for, where what is computed is exact.
proof fn lemma_pure_left<
    R,
    A: Fn(Half, Half) -> Half,
    M: Fn(Half, Half) -> Half,
    F: for <'a>Fn(KernelCall<'a, Half>) -> Vec<Half>,
    const NR: usize,
    const MR_DIV_N: usize,
>(
    meaning: Meaning<Half, R>,
    m: usize,
    n: usize,
    k: usize,
    dst_layout: Layout,
    read_dst: bool,
    lhs: &[Half],
    lhs_layout: Layout,
    rhs: &[Half],
    rhs_layout: Layout,
    alpha: Half,
    beta: Half,
    math: HalfMath<A, M>,
    dispatcher: [[F; NR]; MR_DIV_N],
    scheme: Scheme<Half>,
    pre: Seq<Half>,
    post: Seq<Half>,
)
    requires
        meaning.lawful(),
        meaning.computed == meaning.stored,
        crate::half_exact::pure_computes_exactly(
            meaning,
            crate::gemm::problem(m, n, k, dst_layout, lhs, lhs_layout, rhs, rhs_layout),
            crate::half_precision::alpha_used(read_dst, alpha),
            beta,
            math,
            dispatcher,
            scheme,
            pre,
        ),
        k > 0 ==> 0 < scheme.blocking.kc,
        crate::half_precision::pure_multiplied(
            crate::gemm::problem(m, n, k, dst_layout, lhs, lhs_layout, rhs, rhs_layout),
            crate::half_precision::alpha_used(read_dst, alpha),
            beta,
            math,
            dispatcher,
            scheme,
            pre,
            post,
        ),
    ensures
        half_product_left(
            meaning,
            m as int,
            n as int,
            k as int,
            dst_layout,
            read_dst,
            lhs@,
            lhs_layout,
            rhs@,
            rhs_layout,
            alpha,
            beta,
            pre,
            post,
        ),
{
    let p = crate::gemm::problem(m, n, k, dst_layout, lhs, lhs_layout, rhs, rhs_layout);
    let used = crate::half_precision::alpha_used(read_dst, alpha);
    law_call_problem(m, n, k, dst_layout, lhs, lhs_layout, rhs, rhs_layout);
    law_call_half_factor(read_dst, alpha);
    assert(used == if read_dst {
        alpha
    } else {
        Half::zero_value()
    });
    assert(dst_layout.same_beside(pre, post, m as int, 0, n as int));
    lemma_nothing_beside(dst_layout, m as int, n as int, pre, post);
    crate::half_exact::lemma_half_zero_and_one();
    assert forall|i: int, j: int| 0 <= i < m && 0 <= j < n implies (meaning.stored)(
        post[#[trigger] dst_layout.index(i, j)],
    ) == (meaning.ring.sum.plus)(
        if read_dst {
            (meaning.ring.times)(
                (meaning.stored)(alpha),
                (meaning.stored)(pre[dst_layout.index(i, j)]),
            )
        } else {
            meaning.ring.sum.zero
        },
        meaning.ring.sum.total(
            |d: int|
                (meaning.ring.times)(
                    (meaning.stored)(beta),
                    (meaning.ring.times)(
                        (meaning.stored)(lhs@[lhs_layout.index(i, d)]),
                        (meaning.stored)(rhs@[rhs_layout.index(d, j)]),
                    ),
                ),
            0,
            k as int,
        ),
    ) by {
        crate::half_exact::law_pure_formula(
            meaning,
            p,
            used,
            beta,
            math,
            dispatcher,
            scheme,
            pre,
            post,
            i,
            j,
        );
        let g = |d: int|
            meaning.ring.term(
                (meaning.stored)(beta),
                (|d: int| (meaning.stored)(p.lhs@[p.lhs_layout.index(i, d)]))(d),
                (|d: int| (meaning.stored)(p.rhs@[p.rhs_layout.index(d, j)]))(d),
            );
        let h = |d: int|
            (meaning.ring.times)(
                (meaning.stored)(beta),
                (meaning.ring.times)(
                    (meaning.stored)(lhs@[lhs_layout.index(i, d)]),
                    (meaning.stored)(rhs@[rhs_layout.index(d, j)]),
                ),
            );
        meaning.ring.sum.lemma_shift(g, h, 0, k as int, 0);
        if !read_dst {
            assert((meaning.stored)(used) == meaning.ring.sum.zero);
        }
    }
}

/// What the product has left is what its arguments ask for, where what is computed is exact.
proof fn lemma_mixed_left<
    R,
    W: Fn(Half) -> Single,
    U: for <'a>Fn(&'a [Half]) -> Vec<Single>,
    P: Fn(Single) -> Half,
    A: Fn(Single, Single) -> Single,
    M: Fn(Single, Single) -> Single,
    H: Fn(Half, Half) -> Half,
    F: for <'a>Fn(KernelCall<'a, Single>) -> Vec<Single>,
    const NR: usize,
    const MR_DIV_N: usize,
>(
    meaning: Meaning<Single, R>,
    m: usize,
    n: usize,
    k: usize,
    dst_layout: Layout,
    read_dst: bool,
    lhs: &[Half],
    lhs_layout: Layout,
    rhs: &[Half],
    rhs_layout: Layout,
    alpha: Half,
    beta: Half,
    widen: Through<W, U>,
    math: SingleMath<P, A, M>,
    half_times: H,
    dispatcher: [[F; NR]; MR_DIV_N],
    scheme: Scheme<Single>,
    pre: Seq<Half>,
    post: Seq<Half>,
)
    requires
        meaning.lawful(),
        crate::half_exact::widens_exactly(meaning, widen),
        crate::half_exact::mixed_computes_exactly(
            meaning,
            crate::gemm::problem(m, n, k, dst_layout, lhs, lhs_layout, rhs, rhs_layout),
            crate::half_precision::alpha_used(read_dst, alpha),
            beta,
            widen,
            math,
            half_times,
            dispatcher,
            scheme,
            pre,
        ),
        k > 0 ==> 0 < scheme.blocking.kc,
        crate::half_precision::mixed_multiplied(
            crate::gemm::problem(m, n, k, dst_layout, lhs, lhs_layout, rhs, rhs_layout),
            crate::half_precision::alpha_used(read_dst, alpha),
            beta,
            widen,
            math,
            half_times,
            dispatcher,
            scheme,
            pre,
            post,
        ),
    ensures
        half_product_left(
            meaning,
            m as int,
            n as int,
            k as int,
            dst_layout,
            read_dst,
            lhs@,
            lhs_layout,
            rhs@,
            rhs_layout,
            alpha,
            beta,
            pre,
            post,
        ),
{
    let p = crate::gemm::problem(m, n, k, dst_layout, lhs, lhs_layout, rhs, rhs_layout);
    let used = crate::half_precision::alpha_used(read_dst, alpha);
    law_call_problem(m, n, k, dst_layout, lhs, lhs_layout, rhs, rhs_layout);
    law_call_half_factor(read_dst, alpha);
    assert(used == if read_dst {
        alpha
    } else {
        Half::zero_value()
    });
    assert(dst_layout.same_beside(pre, post, m as int, 0, n as int));
    lemma_nothing_beside(dst_layout, m as int, n as int, pre, post);
    crate::half_exact::lemma_half_zero_and_one();
    assert forall|i: int, j: int| 0 <= i < m && 0 <= j < n implies (meaning.stored)(
        post[#[trigger] dst_layout.index(i, j)],
    ) == (meaning.ring.sum.plus)(
        if read_dst {
            (meaning.ring.times)(
                (meaning.stored)(alpha),
                (meaning.stored)(pre[dst_layout.index(i, j)]),
            )
        } else {
            meaning.ring.sum.zero
        },
        meaning.ring.sum.total(
            |d: int|
                (meaning.ring.times)(
                    (meaning.stored)(beta),
                    (meaning.ring.times)(
                        (meaning.stored)(lhs@[lhs_layout.index(i, d)]),
                        (meaning.stored)(rhs@[rhs_layout.index(d, j)]),
                    ),
                ),
            0,
            k as int,
        ),
    ) by {
        crate::half_exact::law_mixed_formula(
            meaning,
            p,
            used,
            beta,
            widen,
            math,
            half_times,
            dispatcher,
            scheme,
            pre,
            post,
            i,
            j,
        );
        let g = |d: int|
            meaning.ring.term(
                (meaning.stored)(beta),
                (|d: int| (meaning.stored)(p.lhs@[p.lhs_layout.index(i, d)]))(d),
                (|d: int| (meaning.stored)(p.rhs@[p.rhs_layout.index(d, j)]))(d),
            );
        let h = |d: int|
            (meaning.ring.times)(
                (meaning.stored)(beta),
                (meaning.ring.times)(
                    (meaning.stored)(lhs@[lhs_layout.index(i, d)]),
                    (meaning.stored)(rhs@[rhs_layout.index(d, j)]),
                ),
            );
        meaning.ring.sum.lemma_shift(g, h, 0, k as int, 0);
        if !read_dst {
            assert((meaning.stored)(used) == meaning.ring.sum.zero);
        }
    }
}

/// A call of [`half_precision::gemm_basic_generic`] leaves `alpha * dst + beta * lhs * rhs` in every entry
/// of the destination, where what is computed for it is exact.
pub proof fn law_half_gemm_basic_generic<
    R,
    W: Fn(Half) -> Single + Sync,
    U: for <'a>Fn(&'a [Half]) -> Vec<Single> + Sync,
    P: Fn(Single) -> Half + Sync,
    A: Fn(Single, Single) -> Single + Sync,
    M: Fn(Single, Single) -> Single + Sync,
    H: Fn(Half, Half) -> Half,
    F: for <'a>Fn(KernelCall<'a, Single>) -> Vec<Single> + Sync,
    const N: usize,
    const MR: usize,
    const NR: usize,
    const MR_DIV_N: usize,
>(
    meaning: Meaning<Single, R>,
    m: usize,
    n: usize,
    k: usize,
    dst: &mut [Half],
    dst_layout: Layout,
    read_dst: bool,
    lhs: &[Half],
    lhs_layout: Layout,
    rhs: &[Half],
    rhs_layout: Layout,
    alpha: Half,
    beta: Half,
    widen: &Through<W, U>,
    math: &SingleMath<P, A, M>,
    half_times: &H,
    dispatcher: &[[F; NR]; MR_DIV_N],
    parallelism: Parallelism,
    thresholds: &Thresholds,
    tuned: KernelParams,
)
    requires
        meaning.lawful(),
        crate::half_exact::widens_exactly(meaning, *widen),
        crate::half_exact::mixed_computes_exactly(
            meaning,
            crate::gemm::problem(m, n, k, dst_layout, lhs, lhs_layout, rhs, rhs_layout),
            crate::half_precision::alpha_used(read_dst, alpha),
            beta,
            *widen,
            *math,
            *half_times,
            *dispatcher,
            crate::half_precision::half_scheme(n, N, MR, NR, parallelism, thresholds@, tuned),
            old(dst)@,
        ),
        k > 0 ==> 0 < tuned.kc,
        call_ensures(
            half_precision::gemm_basic_generic::<W, U, P, A, M, H, F, N, MR, NR, MR_DIV_N>,
            (
                m,
                n,
                k,
                dst,
                dst_layout,
                read_dst,
                lhs,
                lhs_layout,
                rhs,
                rhs_layout,
                alpha,
                beta,
                widen,
                math,
                half_times,
                dispatcher,
                parallelism,
                thresholds,
                tuned,
            ),
            (),
        ),
    ensures
        half_product_left(
            meaning,
            m as int,
            n as int,
            k as int,
            dst_layout,
            read_dst,
            lhs@,
            lhs_layout,
            rhs@,
            rhs_layout,
            alpha,
            beta,
            old(dst)@,
            final(dst)@,
        ),
{
    lemma_mixed_left(
        meaning,
        m,
        n,
        k,
        dst_layout,
        read_dst,
        lhs,
        lhs_layout,
        rhs,
        rhs_layout,
        alpha,
        beta,
        *widen,
        *math,
        *half_times,
        *dispatcher,
        crate::half_precision::half_scheme(n, N, MR, NR, parallelism, thresholds@, tuned),
        old(dst)@,
        final(dst)@,
    );
}

/// A call of [`half_precision::gemm_basic_f16`] leaves `alpha * dst + beta * lhs * rhs` in every entry of
/// the destination, where what is computed for it is exact.
pub proof fn law_gemm_basic_f16<
    R,
    A: Fn(Half, Half) -> Half + Sync,
    M: Fn(Half, Half) -> Half + Sync,
    F: for <'a>Fn(KernelCall<'a, Half>) -> Vec<Half> + Sync,
    const N: usize,
    const MR: usize,
    const NR: usize,
    const MR_DIV_N: usize,
>(
    meaning: Meaning<Half, R>,
    m: usize,
    n: usize,
    k: usize,
    dst: &mut [Half],
    dst_layout: Layout,
    read_dst: bool,
    lhs: &[Half],
    lhs_layout: Layout,
    rhs: &[Half],
    rhs_layout: Layout,
    alpha: Half,
    beta: Half,
    math: &HalfMath<A, M>,
    dispatcher: &[[F; NR]; MR_DIV_N],
    parallelism: Parallelism,
    thresholds: &Thresholds,
    tuned: KernelParams,
)
    requires
        meaning.lawful(),
        meaning.computed == meaning.stored,
        crate::half_exact::pure_computes_exactly(
            meaning,
            crate::gemm::problem(m, n, k, dst_layout, lhs, lhs_layout, rhs, rhs_layout),
            crate::half_precision::alpha_used(read_dst, alpha),
            beta,
            *math,
            *dispatcher,
            crate::half_precision::half_scheme(n, N, MR, NR, parallelism, thresholds@, tuned),
            old(dst)@,
        ),
        k > 0 ==> 0 < tuned.kc,
        call_ensures(
            half_precision::gemm_basic_f16::<A, M, F, N, MR, NR, MR_DIV_N>,
            (
                m,
                n,
                k,
                dst,
                dst_layout,
                read_dst,
                lhs,
                lhs_layout,
                rhs,
                rhs_layout,
                alpha,
                beta,
                math,
                dispatcher,
                parallelism,
                thresholds,
                tuned,
            ),
            (),
        ),
    ensures
        half_product_left(
            meaning,
            m as int,
            n as int,
            k as int,
            dst_layout,
            read_dst,
            lhs@,
            lhs_layout,
            rhs@,
            rhs_layout,
            alpha,
            beta,
            old(dst)@,
            final(dst)@,
        ),
{
    lemma_pure_left(
        meaning,
        m,
        n,
        k,
        dst_layout,
        read_dst,
        lhs,
        lhs_layout,
        rhs,
        rhs_layout,
        alpha,
        beta,
        *math,
        *dispatcher,
        crate::half_precision::half_scheme(n, N, MR, NR, parallelism, thresholds@, tuned),
        old(dst)@,
        final(dst)@,
    );
}

/// A call of the product with the kernels without vectors leaves `alpha * dst + beta * lhs * rhs` in every entry of
/// the destination, where what is computed for it is exact. What is to be conjugated does not matter.
pub proof fn law_gemm_basic_scalar<
    R,
    W: Fn(Half) -> Single + Sync,
    U: for <'a>Fn(&'a [Half]) -> Vec<Single> + Sync,
    P: Fn(Single) -> Half + Sync,
    A: Fn(Single, Single) -> Single + Sync,
    M: Fn(Single, Single) -> Single + Sync,
    H: Fn(Half, Half) -> Half,
    F: for <'a>Fn(KernelCall<'a, Single>) -> Vec<Single> + Sync,
    const MR: usize,
    const NR: usize,
    const MR_DIV_N: usize,
>(
    meaning: Meaning<Single, R>,
    m: usize,
    n: usize,
    k: usize,
    dst: &mut [Half],
    dst_layout: Layout,
    read_dst: bool,
    lhs: &[Half],
    lhs_layout: Layout,
    rhs: &[Half],
    rhs_layout: Layout,
    alpha: Half,
    beta: Half,
    conj_dst: bool,
    conj_lhs: bool,
    conj_rhs: bool,
    widen: &Through<W, U>,
    math: &SingleMath<P, A, M>,
    half_times: &H,
    dispatcher: &[[F; NR]; MR_DIV_N],
    parallelism: Parallelism,
    thresholds: &Thresholds,
    tuned: KernelParams,
)
    requires
        meaning.lawful(),
        crate::half_exact::widens_exactly(meaning, *widen),
        crate::half_exact::mixed_computes_exactly(
            meaning,
            crate::gemm::problem(m, n, k, dst_layout, lhs, lhs_layout, rhs, rhs_layout),
            crate::half_precision::alpha_used(read_dst, alpha),
            beta,
            *widen,
            *math,
            *half_times,
            *dispatcher,
            crate::half_precision::half_scheme(n, half_precision::scalar::N, MR, NR, parallelism, thresholds@, tuned),
            old(dst)@,
        ),
        k > 0 ==> 0 < tuned.kc,
        call_ensures(
            half_precision::scalar::gemm_basic::<W, U, P, A, M, H, F, MR, NR, MR_DIV_N>,
            (
                m,
                n,
                k,
                dst,
                dst_layout,
                read_dst,
                lhs,
                lhs_layout,
                rhs,
                rhs_layout,
                alpha,
                beta,
                conj_dst,
                conj_lhs,
                conj_rhs,
                widen,
                math,
                half_times,
                dispatcher,
                parallelism,
                thresholds,
                tuned,
            ),
            (),
        ),
    ensures
        half_product_left(
            meaning,
            m as int,
            n as int,
            k as int,
            dst_layout,
            read_dst,
            lhs@,
            lhs_layout,
            rhs@,
            rhs_layout,
            alpha,
            beta,
            old(dst)@,
            final(dst)@,
        ),
{
    lemma_mixed_left(
        meaning,
        m,
        n,
        k,
        dst_layout,
        read_dst,
        lhs,
        lhs_layout,
        rhs,
        rhs_layout,
        alpha,
        beta,
        *widen,
        *math,
        *half_times,
        *dispatcher,
        crate::half_precision::half_scheme(n, half_precision::scalar::N, MR, NR, parallelism, thresholds@, tuned),
        old(dst)@,
        final(dst)@,
    );
}

/// A call of the product with the kernels for SSE leaves `alpha * dst + beta * lhs * rhs` in every entry of
/// the destination, where what is computed for it is exact. What is to be conjugated does not matter.
pub proof fn law_gemm_basic_sse<
    R,
    W: Fn(Half) -> Single + Sync,
    U: for <'a>Fn(&'a [Half]) -> Vec<Single> + Sync,
    P: Fn(Single) -> Half + Sync,
    A: Fn(Single, Single) -> Single + Sync,
    M: Fn(Single, Single) -> Single + Sync,
    H: Fn(Half, Half) -> Half,
    F: for <'a>Fn(KernelCall<'a, Single>) -> Vec<Single> + Sync,
    const MR: usize,
    const NR: usize,
    const MR_DIV_N: usize,
>(
    meaning: Meaning<Single, R>,
    m: usize,
    n: usize,
    k: usize,
    dst: &mut [Half],
    dst_layout: Layout,
    read_dst: bool,
    lhs: &[Half],
    lhs_layout: Layout,
    rhs: &[Half],
    rhs_layout: Layout,
    alpha: Half,
    beta: Half,
    conj_dst: bool,
    conj_lhs: bool,
    conj_rhs: bool,
    widen: &Through<W, U>,
    math: &SingleMath<P, A, M>,
    half_times: &H,
    dispatcher: &[[F; NR]; MR_DIV_N],
    parallelism: Parallelism,
    thresholds: &Thresholds,
    tuned: KernelParams,
)
    requires
        meaning.lawful(),
        crate::half_exact::widens_exactly(meaning, *widen),
        crate::half_exact::mixed_computes_exactly(
            meaning,
            crate::gemm::problem(m, n, k, dst_layout, lhs, lhs_layout, rhs, rhs_layout),
            crate::half_precision::alpha_used(read_dst, alpha),
            beta,
            *widen,
            *math,
            *half_times,
            *dispatcher,
            crate::half_precision::half_scheme(n, half_precision::sse::N, MR, NR, parallelism, thresholds@, tuned),
            old(dst)@,
        ),
        k > 0 ==> 0 < tuned.kc,
        call_ensures(
            half_precision::sse::gemm_basic::<W, U, P, A, M, H, F, MR, NR, MR_DIV_N>,
            (
                m,
                n,
                k,
                dst,
                dst_layout,
                read_dst,
                lhs,
                lhs_layout,
                rhs,
                rhs_layout,
                alpha,
                beta,
                conj_dst,
                conj_lhs,
                conj_rhs,
                widen,
                math,
                half_times,
                dispatcher,
                parallelism,
                thresholds,
                tuned,
            ),
            (),
        ),
    ensures
        half_product_left(
            meaning,
            m as int,
            n as int,
            k as int,
            dst_layout,
            read_dst,
            lhs@,
            lhs_layout,
            rhs@,
            rhs_layout,
            alpha,
            beta,
            old(dst)@,
            final(dst)@,
        ),
{
    lemma_mixed_left(
        meaning,
        m,
        n,
        k,
        dst_layout,
        read_dst,
        lhs,
        lhs_layout,
        rhs,
        rhs_layout,
        alpha,
        beta,
        *widen,
        *math,
        *half_times,
        *dispatcher,
        crate::half_precision::half_scheme(n, half_precision::sse::N, MR, NR, parallelism, thresholds@, tuned),
        old(dst)@,
        final(dst)@,
    );
}

/// A call of the product with the kernels for AVX leaves `alpha * dst + beta * lhs * rhs` in every entry of
/// the destination, where what is computed for it is exact. What is to be conjugated does not matter.
pub proof fn law_gemm_basic_avx<
    R,
    W: Fn(Half) -> Single + Sync,
    U: for <'a>Fn(&'a [Half]) -> Vec<Single> + Sync,
    P: Fn(Single) -> Half + Sync,
    A: Fn(Single, Single) -> Single + Sync,
    M: Fn(Single, Single) -> Single + Sync,
    H: Fn(Half, Half) -> Half,
    F: for <'a>Fn(KernelCall<'a, Single>) -> Vec<Single> + Sync,
    const MR: usize,
    const NR: usize,
    const MR_DIV_N: usize,
>(
    meaning: Meaning<Single, R>,
    m: usize,
    n: usize,
    k: usize,
    dst: &mut [Half],
    dst_layout: Layout,
    read_dst: bool,
    lhs: &[Half],
    lhs_layout: Layout,
    rhs: &[Half],
    rhs_layout: Layout,
    alpha: Half,
    beta: Half,
    conj_dst: bool,
    conj_lhs: bool,
    conj_rhs: bool,
    widen: &Through<W, U>,
    math: &SingleMath<P, A, M>,
    half_times: &H,
    dispatcher: &[[F; NR]; MR_DIV_N],
    parallelism: Parallelism,
    thresholds: &Thresholds,
    tuned: KernelParams,
)
    requires
        meaning.lawful(),
        crate::half_exact::widens_exactly(meaning, *widen),
        crate::half_exact::mixed_computes_exactly(
            meaning,
            crate::gemm::problem(m, n, k, dst_layout, lhs, lhs_layout, rhs, rhs_layout),
            crate::half_precision::alpha_used(read_dst, alpha),
            beta,
            *widen,
            *math,
            *half_times,
            *dispatcher,
            crate::half_precision::half_scheme(n, half_precision::avx::N, MR, NR, parallelism, thresholds@, tuned),
            old(dst)@,
        ),
        k > 0 ==> 0 < tuned.kc,
        call_ensures(
            half_precision::avx::gemm_basic::<W, U, P, A, M, H, F, MR, NR, MR_DIV_N>,
            (
                m,
                n,
                k,
                dst,
                dst_layout,
                read_dst,
                lhs,
                lhs_layout,
                rhs,
                rhs_layout,
                alpha,
                beta,
                conj_dst,
                conj_lhs,
                conj_rhs,
                widen,
                math,
                half_times,
                dispatcher,
                parallelism,
                thresholds,
                tuned,
            ),
            (),
        ),
    ensures
        half_product_left(
            meaning,
            m as int,
            n as int,
            k as int,
            dst_layout,
            read_dst,
            lhs@,
            lhs_layout,
            rhs@,
            rhs_layout,
            alpha,
            beta,
            old(dst)@,
            final(dst)@,
        ),
{
    lemma_mixed_left(
        meaning,
        m,
        n,
        k,
        dst_layout,
        read_dst,
        lhs,
        lhs_layout,
        rhs,
        rhs_layout,
        alpha,
        beta,
        *widen,
        *math,
        *half_times,
        *dispatcher,
        crate::half_precision::half_scheme(n, half_precision::avx::N, MR, NR, parallelism, thresholds@, tuned),
        old(dst)@,
        final(dst)@,
    );
}

/// A call of the product with the kernels for FMA leaves `alpha * dst + beta * lhs * rhs` in every entry of
/// the destination, where what is computed for it is exact. What is to be conjugated does not matter.
pub proof fn law_gemm_basic_fma<
    R,
    W: Fn(Half) -> Single + Sync,
    U: for <'a>Fn(&'a [Half]) -> Vec<Single> + Sync,
    P: Fn(Single) -> Half + Sync,
    A: Fn(Single, Single) -> Single + Sync,
    M: Fn(Single, Single) -> Single + Sync,
    H: Fn(Half, Half) -> Half,
    F: for <'a>Fn(KernelCall<'a, Single>) -> Vec<Single> + Sync,
    const MR: usize,
    const NR: usize,
    const MR_DIV_N: usize,
>(
    meaning: Meaning<Single, R>,
    m: usize,
    n: usize,
    k: usize,
    dst: &mut [Half],
    dst_layout: Layout,
    read_dst: bool,
    lhs: &[Half],
    lhs_layout: Layout,
    rhs: &[Half],
    rhs_layout: Layout,
    alpha: Half,
    beta: Half,
    conj_dst: bool,
    conj_lhs: bool,
    conj_rhs: bool,
    widen: &Through<W, U>,
    math: &SingleMath<P, A, M>,
    half_times: &H,
    dispatcher: &[[F; NR]; MR_DIV_N],
    parallelism: Parallelism,
    thresholds: &Thresholds,
    tuned: KernelParams,
)
    requires
        meaning.lawful(),
        crate::half_exact::widens_exactly(meaning, *widen),
        crate::half_exact::mixed_computes_exactly(
            meaning,
            crate::gemm::problem(m, n, k, dst_layout, lhs, lhs_layout, rhs, rhs_layout),
            crate::half_precision::alpha_used(read_dst, alpha),
            beta,
            *widen,
            *math,
            *half_times,
            *dispatcher,
            crate::half_precision::half_scheme(n, half_precision::fma::N, MR, NR, parallelism, thresholds@, tuned),
            old(dst)@,
        ),
        k > 0 ==> 0 < tuned.kc,
        call_ensures(
            half_precision::fma::gemm_basic::<W, U, P, A, M, H, F, MR, NR, MR_DIV_N>,
            (
                m,
                n,
                k,
                dst,
                dst_layout,
                read_dst,
                lhs,
                lhs_layout,
                rhs,
                rhs_layout,
                alpha,
                beta,
                conj_dst,
                conj_lhs,
                conj_rhs,
                widen,
                math,
                half_times,
                dispatcher,
                parallelism,
                thresholds,
                tuned,
            ),
            (),
        ),
    ensures
        half_product_left(
            meaning,
            m as int,
            n as int,
            k as int,
            dst_layout,
            read_dst,
            lhs@,
            lhs_layout,
            rhs@,
            rhs_layout,
            alpha,
            beta,
            old(dst)@,
            final(dst)@,
        ),
{
    lemma_mixed_left(
        meaning,
        m,
        n,
        k,
        dst_layout,
        read_dst,
        lhs,
        lhs_layout,
        rhs,
        rhs_layout,
        alpha,
        beta,
        *widen,
        *math,
        *half_times,
        *dispatcher,
        crate::half_precision::half_scheme(n, half_precision::fma::N, MR, NR, parallelism, thresholds@, tuned),
        old(dst)@,
        final(dst)@,
    );
}

/// A call of the product with the kernels for AVX-512 leaves `alpha * dst + beta * lhs * rhs` in every entry of
/// the destination, where what is computed for it is exact. What is to be conjugated does not matter.
pub proof fn law_gemm_basic_avx512f<
    R,
    W: Fn(Half) -> Single + Sync,
    U: for <'a>Fn(&'a [Half]) -> Vec<Single> + Sync,
    P: Fn(Single) -> Half + Sync,
    A: Fn(Single, Single) -> Single + Sync,
    M: Fn(Single, Single) -> Single + Sync,
    H: Fn(Half, Half) -> Half,
    F: for <'a>Fn(KernelCall<'a, Single>) -> Vec<Single> + Sync,
    const MR: usize,
    const NR: usize,
    const MR_DIV_N: usize,
>(
    meaning: Meaning<Single, R>,
    m: usize,
    n: usize,
    k: usize,
    dst: &mut [Half],
    dst_layout: Layout,
    read_dst: bool,
    lhs: &[Half],
    lhs_layout: Layout,
    rhs: &[Half],
    rhs_layout: Layout,
    alpha: Half,
    beta: Half,
    conj_dst: bool,
    conj_lhs: bool,
    conj_rhs: bool,
    widen: &Through<W, U>,
    math: &SingleMath<P, A, M>,
    half_times: &H,
    dispatcher: &[[F; NR]; MR_DIV_N],
    parallelism: Parallelism,
    thresholds: &Thresholds,
    tuned: KernelParams,
)
    requires
        meaning.lawful(),
        crate::half_exact::widens_exactly(meaning, *widen),
        crate::half_exact::mixed_computes_exactly(
            meaning,
            crate::gemm::problem(m, n, k, dst_layout, lhs, lhs_layout, rhs, rhs_layout),
            crate::half_precision::alpha_used(read_dst, alpha),
            beta,
            *widen,
            *math,
            *half_times,
            *dispatcher,
            crate::half_precision::half_scheme(n, half_precision::avx512f::N, MR, NR, parallelism, thresholds@, tuned),
            old(dst)@,
        ),
        k > 0 ==> 0 < tuned.kc,
        call_ensures(
            half_precision::avx512f::gemm_basic::<W, U, P, A, M, H, F, MR, NR, MR_DIV_N>,
            (
                m,
                n,
                k,
                dst,
                dst_layout,
                read_dst,
                lhs,
                lhs_layout,
                rhs,
                rhs_layout,
                alpha,
                beta,
                conj_dst,
                conj_lhs,
                conj_rhs,
                widen,
                math,
                half_times,
                dispatcher,
                parallelism,
                thresholds,
                tuned,
            ),
            (),
        ),
    ensures
        half_product_left(
            meaning,
            m as int,
            n as int,
            k as int,
            dst_layout,
            read_dst,
            lhs@,
            lhs_layout,
            rhs@,
            rhs_layout,
            alpha,
            beta,
            old(dst)@,
            final(dst)@,
        ),
{
    lemma_mixed_left(
        meaning,
        m,
        n,
        k,
        dst_layout,
        read_dst,
        lhs,
        lhs_layout,
        rhs,
        rhs_layout,
        alpha,
        beta,
        *widen,
        *math,
        *half_times,
        *dispatcher,
        crate::half_precision::half_scheme(n, half_precision::avx512f::N, MR, NR, parallelism, thresholds@, tuned),
        old(dst)@,
        final(dst)@,
    );
}

/// A call of the product with the kernels for NEON leaves `alpha * dst + beta * lhs * rhs` in every entry of
/// the destination, where what is computed for it is exact. What is to be conjugated does not matter.
pub proof fn law_gemm_basic_neon<
    R,
    A: Fn(Half, Half) -> Half + Sync,
    M: Fn(Half, Half) -> Half + Sync,
    F: for <'a>Fn(KernelCall<'a, Half>) -> Vec<Half> + Sync,
    const MR: usize,
    const NR: usize,
    const MR_DIV_N: usize,
>(
    meaning: Meaning<Half, R>,
    m: usize,
    n: usize,
    k: usize,
    dst: &mut [Half],
    dst_layout: Layout,
    read_dst: bool,
    lhs: &[Half],
    lhs_layout: Layout,
    rhs: &[Half],
    rhs_layout: Layout,
    alpha: Half,
    beta: Half,
    conj_dst: bool,
    conj_lhs: bool,
    conj_rhs: bool,
    math: &HalfMath<A, M>,
    dispatcher: &[[F; NR]; MR_DIV_N],
    parallelism: Parallelism,
    thresholds: &Thresholds,
    tuned: KernelParams,
)
    requires
        meaning.lawful(),
        meaning.computed == meaning.stored,
        crate::half_exact::pure_computes_exactly(
            meaning,
            crate::gemm::problem(m, n, k, dst_layout, lhs, lhs_layout, rhs, rhs_layout),
            crate::half_precision::alpha_used(read_dst, alpha),
            beta,
            *math,
            *dispatcher,
            crate::half_precision::half_scheme(n, half_precision::neon::N, MR, NR, parallelism, thresholds@, tuned),
            old(dst)@,
        ),
        k > 0 ==> 0 < tuned.kc,
        call_ensures(
            half_precision::neon::gemm_basic::<A, M, F, MR, NR, MR_DIV_N>,
            (
                m,
                n,
                k,
                dst,
                dst_layout,
                read_dst,
                lhs,
                lhs_layout,
                rhs,
                rhs_layout,
                alpha,
                beta,
                conj_dst,
                conj_lhs,
                conj_rhs,
                math,
                dispatcher,
                parallelism,
                thresholds,
                tuned,
            ),
            (),
        ),
    ensures
        half_product_left(
            meaning,
            m as int,
            n as int,
            k as int,
            dst_layout,
            read_dst,
            lhs@,
            lhs_layout,
            rhs@,
            rhs_layout,
            alpha,
            beta,
            old(dst)@,
            final(dst)@,
        ),
{
    lemma_pure_left(
        meaning,
        m,
        n,
        k,
        dst_layout,
        read_dst,
        lhs,
        lhs_layout,
        rhs,
        rhs_layout,
        alpha,
        beta,
        *math,
        *dispatcher,
        crate::half_precision::half_scheme(n, half_precision::neon::N, MR, NR, parallelism, thresholds@, tuned),
        old(dst)@,
        final(dst)@,
    );
}

/// The blocks of a product are those that [`choose_params`] and [`fill_columns`] give, its right operand is
/// packed where [`should_pack_rhs`] says so, and everything else is as in the call.
pub proof fn law_gemm_scheme<T: Number>(
    m: usize,
    n: usize,
    k: usize,
    dst_layout: Layout,
    lhs: &[T],
    lhs_layout: Layout,
    rhs: &[T],
    rhs_layout: Layout,
    lanes: usize,
    mr: usize,
    nr: usize,
    parallelism: Parallelism,
    thresholds: &Thresholds,
    machine: Machine,
    tuned: KernelParams,
    bytes: usize,
    threshold: usize,
    chosen: KernelParams,
    params: KernelParams,
    packed: bool,
)
    requires
        call_ensures(T::byte_size, (), bytes),
        call_ensures(get_rhs_packing_threshold, (thresholds,), threshold),
        call_ensures(
            choose_params,
            (m, n, k, mr, nr, bytes, machine.l2_bytes, tuned),
            chosen,
        ),
        call_ensures(fill_columns, (chosen, n, nr, parallelism), params),
        call_ensures(
            should_pack_rhs,
            (machine.arch is Aarch64, rhs_layout.rs, m, mr, threshold),
            packed,
        ),
    ensures
        ({
            let scheme = crate::gemm::scheme_of(
                crate::gemm::problem(m, n, k, dst_layout, lhs, lhs_layout, rhs, rhs_layout),
                lanes,
                mr,
                nr,
                parallelism,
                thresholds@,
                machine,
                tuned,
            );
            &&& scheme.blocking.kc == params.kc
            &&& scheme.blocking.mc == params.mc
            &&& scheme.blocking.nc == params.nc
            &&& scheme.lanes == lanes && scheme.mr == mr && scheme.nr == nr
            &&& scheme.lhs_direct == Some(lhs)
            &&& packed <==> scheme.rhs_direct is None
            &&& scheme.rhs_direct matches Some(direct) ==> direct == rhs
            &&& scheme.parallelism == parallelism
            &&& scheme.thresholds == thresholds@
        }),
{
    law_call_problem(m, n, k, dst_layout, lhs, lhs_layout, rhs, rhs_layout);
}

/// The blocks of a product of half precision numbers are the given ones, with a number of columns from
/// [`fill_columns`]; both operands are packed, and everything else is as in the call.
pub proof fn law_half_scheme<C>(
    n: usize,
    lanes: usize,
    mr: usize,
    nr: usize,
    parallelism: Parallelism,
    thresholds: &Thresholds,
    tuned: KernelParams,
    params: KernelParams,
)
    requires
        call_ensures(fill_columns, (tuned, n, nr, parallelism), params),
    ensures
        ({
            let scheme = crate::half_precision::half_scheme::<C>(
                n,
                lanes,
                mr,
                nr,
                parallelism,
                thresholds@,
                tuned,
            );
            &&& scheme.blocking.kc == params.kc
            &&& scheme.blocking.mc == params.mc
            &&& scheme.blocking.nc == params.nc
            &&& scheme.lanes == lanes && scheme.mr == mr && scheme.nr == nr
            &&& scheme.lhs_direct is None
            &&& scheme.rhs_direct is None
            &&& scheme.parallelism == parallelism
            &&& scheme.thresholds == thresholds@
        }),
{
}

/// What a kernel is given is what the step is given: the same tile, operands and next rows. The first update
/// scales the destination by the factor of the call, with its status, and conjugates it on demand; the
/// others add to it.
pub proof fn law_kernel_arguments<
    T: Number,
    F: for <'a>Fn(KernelCall<'a, T>) -> Vec<T>,
    const NR: usize,
    const MR_DIV_N: usize,
>(step: KernelStep<'_, T, F, NR, MR_DIV_N>, call: TileCall<T, T>)
    ensures
        ({
            let given = step.kernel_call(call);
            &&& given.m == call.m && given.n == call.n && given.k == call.k
            &&& given.dst@ == call.dst@
            &&& given.lhs@ == call.lhs@ && given.lhs_layout == call.lhs_layout
            &&& given.rhs@ == call.rhs@ && given.rhs_layout == call.rhs_layout
            &&& given.next_lhs == call.next_lhs
            &&& given.beta == step.factors.beta
            &&& given.conj_lhs == step.factors.conj_lhs
            &&& given.conj_rhs == step.factors.conj_rhs
            &&& call.first ==> given.alpha == step.factors.alpha && given.conj_dst
                == step.factors.conj_dst
            &&& !call.first ==> given.alpha.one_valued() && !given.conj_dst
            &&& given.alpha_status is Zero <==> given.alpha.zero_valued()
            &&& given.alpha_status is One <==> given.alpha.one_valued()
                && !given.alpha.zero_valued()
        }),
{
    T::lemma_zero_and_one();
}

/// What a kernel is given where its update is merged is what the step is given: the same tile, operands and
/// next rows. The destination counts as zero, and nothing is conjugated.
pub proof fn law_merged_kernel_arguments<
    T,
    C,
    G,
    F: for <'a>Fn(KernelCall<'a, C>) -> Vec<C>,
    const NR: usize,
    const MR_DIV_N: usize,
>(step: MergeStep<'_, C, G, F, NR, MR_DIV_N>, call: TileCall<T, C>, blank: Vec<C>)
    ensures
        ({
            let given = step.kernel_call(call, blank);
            &&& given.m == call.m && given.n == call.n && given.k == call.k
            &&& given.dst@ == blank@
            &&& given.lhs@ == call.lhs@ && given.lhs_layout == call.lhs_layout
            &&& given.rhs@ == call.rhs@ && given.rhs_layout == call.rhs_layout
            &&& given.next_lhs == call.next_lhs
            &&& given.alpha == step.zero && given.alpha_status is Zero
            &&& given.beta == step.beta
            &&& !given.conj_dst && !given.conj_lhs && !given.conj_rhs
        }),
{
}

/// Without entries a call of [`gemm_basic_generic`] changes nothing. Without depth it scales the
/// destination: every entry is zero where that is not read or scaled by zero, stays as it is, bit for
/// bit, where it is scaled by one and not conjugated, and is what `times` makes of it otherwise.
pub proof fn law_gemm_without_depth<
    T: Number + Send + Sync,
    M: Fn(T, T) -> T,
    O: for <'a>Fn(ProductCall<'a, T>) -> Vec<T>,
    V: for <'a>Fn(ProductCall<'a, T>) -> Vec<T>,
    F: for <'a>Fn(KernelCall<'a, T>) -> Vec<T> + Sync,
    const N: usize,
    const MR: usize,
    const NR: usize,
    const MR_DIV_N: usize,
>(
    m: usize,
    n: usize,
    k: usize,
    dst: &mut [T],
    dst_layout: Layout,
    read_dst: bool,
    lhs: &[T],
    lhs_layout: Layout,
    rhs: &[T],
    rhs_layout: Layout,
    alpha: T,
    beta: T,
    conj_dst: bool,
    conj_lhs: bool,
    conj_rhs: bool,
    times: M,
    outer: O,
    vector: V,
    dispatcher: &[[F; NR]; MR_DIV_N],
    parallelism: Parallelism,
    thresholds: &Thresholds,
    machine: Machine,
    tuned: KernelParams,
    i: int,
    j: int,
)
    requires
        call_ensures(
            gemm_basic_generic::<T, M, O, V, F, N, MR, NR, MR_DIV_N>,
            (
                m,
                n,
                k,
                dst,
                dst_layout,
                read_dst,
                lhs,
                lhs_layout,
                rhs,
                rhs_layout,
                alpha,
                beta,
                conj_dst,
                conj_lhs,
                conj_rhs,
                times,
                outer,
                vector,
                dispatcher,
                parallelism,
                thresholds,
                machine,
                tuned,
            ),
            (),
        ),
    ensures
        m == 0 || n == 0 ==> final(dst)@ == old(dst)@,
        k == 0 && 0 <= i < m && 0 <= j < n ==> {
            let x = old(dst)@[dst_layout.index(i, j)];
            let y = final(dst)@[dst_layout.index(i, j)];
            &&& !read_dst || alpha.zero_valued() ==> y == T::zero_value()
            &&& read_dst && !alpha.zero_valued() && alpha.one_valued() && !conj_dst ==> y == x
            &&& read_dst && !alpha.zero_valued() && !alpha.one_valued() && !conj_dst
                ==> call_ensures(times, (alpha, x), y)
            &&& read_dst && !alpha.zero_valued() && conj_dst ==> call_ensures(
                times,
                (alpha, x.conjugate()),
                y,
            )
        },
{
    law_call_problem(m, n, k, dst_layout, lhs, lhs_layout, rhs, rhs_layout);
    law_call_factors(read_dst, alpha, beta, conj_dst, conj_lhs, conj_rhs);
    let f = crate::gemm::factors(read_dst, alpha, beta, conj_dst, conj_lhs, conj_rhs);
    if k == 0 && 0 <= i < m && 0 <= j < n {
        let q = dst_layout.index(i, j);
        if !f.alpha.zero_valued() && (!f.alpha.one_valued() || conj_dst) {
            assert(crate::gemm::scaled(&times, f.alpha, conj_dst, old(dst)@[q], final(dst)@[q]));
        }
    }
}

/// Without entries a call of [`half_precision::gemm_basic_generic`] changes nothing. Without depth it
/// scales the destination: every entry is positive zero where that is not read or scaled by zero, stays
/// as it is where it is scaled by one, and is what `half_times` makes of it otherwise.
pub proof fn law_half_without_depth<
    W: Fn(Half) -> Single + Sync,
    U: for <'a>Fn(&'a [Half]) -> Vec<Single> + Sync,
    P: Fn(Single) -> Half + Sync,
    A: Fn(Single, Single) -> Single + Sync,
    M: Fn(Single, Single) -> Single + Sync,
    H: Fn(Half, Half) -> Half,
    F: for <'a>Fn(KernelCall<'a, Single>) -> Vec<Single> + Sync,
    const N: usize,
    const MR: usize,
    const NR: usize,
    const MR_DIV_N: usize,
>(
    m: usize,
    n: usize,
    k: usize,
    dst: &mut [Half],
    dst_layout: Layout,
    read_dst: bool,
    lhs: &[Half],
    lhs_layout: Layout,
    rhs: &[Half],
    rhs_layout: Layout,
    alpha: Half,
    beta: Half,
    widen: &Through<W, U>,
    math: &SingleMath<P, A, M>,
    half_times: &H,
    dispatcher: &[[F; NR]; MR_DIV_N],
    parallelism: Parallelism,
    thresholds: &Thresholds,
    tuned: KernelParams,
    i: int,
    j: int,
)
    requires
        call_ensures(
            half_precision::gemm_basic_generic::<W, U, P, A, M, H, F, N, MR, NR, MR_DIV_N>,
            (
                m,
                n,
                k,
                dst,
                dst_layout,
                read_dst,
                lhs,
                lhs_layout,
                rhs,
                rhs_layout,
                alpha,
                beta,
                widen,
                math,
                half_times,
                dispatcher,
                parallelism,
                thresholds,
                tuned,
            ),
            (),
        ),
    ensures
        m == 0 || n == 0 ==> final(dst)@ == old(dst)@,
        k == 0 && 0 <= i < m && 0 <= j < n ==> {
            let x = old(dst)@[dst_layout.index(i, j)];
            let y = final(dst)@[dst_layout.index(i, j)];
            let zero = !read_dst || alpha.equals(Half::zero_value());
            &&& zero ==> y.bits == 0
            &&& !zero && alpha.equals(Half::one_value()) ==> y == x
            &&& !zero && !alpha.equals(Half::one_value()) ==> call_ensures(
                *half_times,
                (alpha, x),
                y,
            )
        },
{
    law_call_problem(m, n, k, dst_layout, lhs, lhs_layout, rhs, rhs_layout);
    law_call_half_factor(read_dst, alpha);
    assert(crate::half_precision::alpha_used(read_dst, alpha) == if read_dst {
        alpha
    } else {
        Half::zero_value()
    });
    crate::half_exact::lemma_half_zero_and_one();
}

/// Without entries a call of [`half_precision::gemm_basic_f16`] changes nothing. Without depth it scales
/// the destination: every entry is positive zero where that is not read or scaled by zero, stays as it
/// is where it is scaled by one, and is what multiplication makes of it otherwise.
pub proof fn law_f16_without_depth<
    A: Fn(Half, Half) -> Half + Sync,
    M: Fn(Half, Half) -> Half + Sync,
    F: for <'a>Fn(KernelCall<'a, Half>) -> Vec<Half> + Sync,
    const N: usize,
    const MR: usize,
    const NR: usize,
    const MR_DIV_N: usize,
>(
    m: usize,
    n: usize,
    k: usize,
    dst: &mut [Half],
    dst_layout: Layout,
    read_dst: bool,
    lhs: &[Half],
    lhs_layout: Layout,
    rhs: &[Half],
    rhs_layout: Layout,
    alpha: Half,
    beta: Half,
    math: &HalfMath<A, M>,
    dispatcher: &[[F; NR]; MR_DIV_N],
    parallelism: Parallelism,
    thresholds: &Thresholds,
    tuned: KernelParams,
    i: int,
    j: int,
)
    requires
        call_ensures(
            half_precision::gemm_basic_f16::<A, M, F, N, MR, NR, MR_DIV_N>,
            (
                m,
                n,
                k,
                dst,
                dst_layout,
                read_dst,
                lhs,
                lhs_layout,
                rhs,
                rhs_layout,
                alpha,
                beta,
                math,
                dispatcher,
                parallelism,
                thresholds,
                tuned,
            ),
            (),
        ),
    ensures
        m == 0 || n == 0 ==> final(dst)@ == old(dst)@,
        k == 0 && 0 <= i < m && 0 <= j < n ==> {
            let x = old(dst)@[dst_layout.index(i, j)];
            let y = final(dst)@[dst_layout.index(i, j)];
            let zero = !read_dst || alpha.equals(Half::zero_value());
            &&& zero ==> y.bits == 0
            &&& !zero && alpha.equals(Half::one_value()) ==> y == x
            &&& !zero && !alpha.equals(Half::one_value()) ==> call_ensures(
                math.times,
                (alpha, x),
                y,
            )
        },
{
    law_call_problem(m, n, k, dst_layout, lhs, lhs_layout, rhs, rhs_layout);
    law_call_half_factor(read_dst, alpha);
    assert(crate::half_precision::alpha_used(read_dst, alpha) == if read_dst {
        alpha
    } else {
        Half::zero_value()
    });
    crate::half_exact::lemma_half_zero_and_one();
}

/// A product takes the way that [`choose_route`] gives for the sizes and strides of the call, where any
/// conjugation that is asked for counts.
pub proof fn law_gemm_route<T: Number>(
    m: usize,
    n: usize,
    k: usize,
    dst_layout: Layout,
    read_dst: bool,
    lhs: &[T],
    lhs_layout: Layout,
    rhs: &[T],
    rhs_layout: Layout,
    alpha: T,
    beta: T,
    conj_dst: bool,
    conj_lhs: bool,
    conj_rhs: bool,
    r: Route,
)
    requires
        call_ensures(
            choose_route,
            (m, n, k, lhs_layout, rhs_layout, conj_dst || conj_lhs || conj_rhs),
            r,
        ),
    ensures
        crate::gemm::route_of(
            crate::gemm::problem(m, n, k, dst_layout, lhs, lhs_layout, rhs, rhs_layout),
            crate::gemm::factors(read_dst, alpha, beta, conj_dst, conj_lhs, conj_rhs),
        ) == r,
{
    law_call_problem(m, n, k, dst_layout, lhs, lhs_layout, rhs, rhs_layout);
    law_call_factors(read_dst, alpha, beta, conj_dst, conj_lhs, conj_rhs);
}

} // verus!
