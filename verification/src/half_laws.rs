//! What holds of products of half precision numbers, in whichever precision they are computed.

use crate::arch::Arch;
use crate::arch::Features;
use crate::arch::KernelSet;
use crate::convert::Keep;
use crate::convert::Through;
use crate::half_precision;
use crate::half_precision::HalfMath;
use crate::half_precision::Mixed;
use crate::half_precision::Pure;
use crate::half_precision::SingleMath;
use crate::kernel::AlphaStatus;
use crate::kernel::KernelCall;
use crate::layout::Layout;
use crate::merge::MergeStep;
use crate::scalar::Half;
use crate::scalar::Number;
use crate::scalar::Single;
use crate::scheme::Scheme;
use crate::sweep::Problem;
use vstd::prelude::*;

verus! {

/// Nothing beside the entries of the destination changes, in whichever precision the product is
/// computed.
pub proof fn law_half_gemm_stays_inside<
    W: Fn(Half) -> Single,
    R: for <'a>Fn(&'a [Half]) -> Vec<Single>,
    P: Fn(Single) -> Half,
    A: Fn(Single, Single) -> Single,
    M: Fn(Single, Single) -> Single,
    B: Fn(Half, Half) -> Half,
    H: Fn(Half, Half) -> Half,
    F: for <'a>Fn(KernelCall<'a, Single>) -> Vec<Single>,
    K: for <'a>Fn(KernelCall<'a, Half>) -> Vec<Half>,
    const NR: usize,
    const MR_DIV_N: usize,
>(
    p: Problem<Half>,
    alpha: Half,
    beta: Half,
    widen: Through<W, R>,
    math: SingleMath<P, A, M>,
    half_math: HalfMath<B, H>,
    dispatcher: [[F; NR]; MR_DIV_N],
    half_dispatcher: [[K; NR]; MR_DIV_N],
    scheme: Scheme<Single>,
    half_scheme: Scheme<Half>,
    pre: Seq<Half>,
    post: Seq<Half>,
)
    requires
        crate::half_precision::mixed_multiplied(
            p,
            alpha,
            beta,
            widen,
            math,
            half_math.times,
            dispatcher,
            scheme,
            pre,
            post,
        ) || crate::half_precision::pure_multiplied(
            p,
            alpha,
            beta,
            half_math,
            half_dispatcher,
            half_scheme,
            pre,
            post,
        ),
    ensures
        p.dst_layout.same_beside(pre, post, p.m as int, 0, p.n as int),
{
}

/// Scaling is determined by the entries.
proof fn lemma_half_scaled_once<H: Fn(Half, Half) -> Half>(
    times: H,
    p: Problem<Half>,
    alpha: Half,
    pre: Seq<Half>,
    post: Seq<Half>,
    other: Seq<Half>,
)
    requires
        crate::gemm_laws::multiplies_by_function(times),
        crate::half_precision::half_scaled_all(times, p, alpha, pre, post),
        crate::half_precision::half_scaled_all(times, p, alpha, pre, other),
    ensures
        post == other,
{
    let l = p.dst_layout;
    if !(crate::half_precision::half_status_of(alpha) is One) {
        assert forall|q: int| 0 <= q < pre.len() implies post[q] == other[q] by {
            if l.holds(p.m as int, 0, p.n as int, q) {
                let (i, j) = choose|i: int, j: int|
                    0 <= i < p.m && 0 <= j < p.n && #[trigger] l.index(i, j) == q;
                if crate::half_precision::half_status_of(alpha) is Other {
                    assert(call_ensures(times, (alpha, pre[l.index(i, j)]), post[l.index(i, j)]));
                    assert(call_ensures(times, (alpha, pre[l.index(i, j)]), other[l.index(i, j)]));
                }
            }
        }
        assert(post =~= other);
    }
}

/// The result in half precision is the same on any number of threads and however the destination is
/// cut into tiles: with functions as arithmetic, and kernels that treat the entries of a tile
/// independently, the operands and the size of the blocks along the depth determine it.
pub proof fn law_pure_result_is_unique<
    A: Fn(Half, Half) -> Half,
    M: Fn(Half, Half) -> Half,
    F: for <'a>Fn(KernelCall<'a, Half>) -> Vec<Half>,
    const NR: usize,
    const MR_DIV_N: usize,
>(
    p: Problem<Half>,
    alpha: Half,
    beta: Half,
    math: HalfMath<A, M>,
    plus: spec_fn(Half, Half) -> Half,
    times: spec_fn(Half, Half) -> Half,
    dispatcher: [[F; NR]; MR_DIV_N],
    scheme: Scheme<Half>,
    other_scheme: Scheme<Half>,
    entry: spec_fn(Half, Seq<Half>, Seq<Half>) -> Half,
    pre: Seq<Half>,
    post: Seq<Half>,
    other: Seq<Half>,
)
    requires
        forall|x: Half, y: Half, z: Half| #[trigger]
            call_ensures(math.plus, (x, y), z) ==> z == plus(x, y),
        forall|x: Half, y: Half, z: Half| #[trigger]
            call_ensures(math.times, (x, y), z) ==> z == times(x, y),
        crate::merge::updates_pointwise(
            dispatcher,
            scheme.lanes as int,
            scheme.mr as int,
            Half::zero_value(),
            entry,
        ),
        p.k > 0 ==> {
            &&& 0 < scheme.blocking.kc == other_scheme.blocking.kc
            &&& scheme.lanes == other_scheme.lanes
            &&& scheme.mr == other_scheme.mr
        },
        crate::half_precision::pure_multiplied(
            p,
            alpha,
            beta,
            math,
            dispatcher,
            scheme,
            pre,
            post,
        ),
        crate::half_precision::pure_multiplied(
            p,
            alpha,
            beta,
            math,
            dispatcher,
            other_scheme,
            pre,
            other,
        ),
    ensures
        post == other,
{
    if p.m == 0 || p.n == 0 {
    } else if p.k == 0 {
        lemma_half_scaled_once(math.times, p, alpha, pre, post, other);
    } else {
        let merge = Pure { math: &math, alpha };
        let step = MergeStep {
            dispatcher: &dispatcher,
            lanes: scheme.lanes,
            mr: scheme.mr,
            merge: &merge,
            zero: Half::zero_value(),
            beta,
        };
        let made = |first: bool, old: Half, update: Half|
            {
                let a = if first {
                    alpha
                } else {
                    Half::one_value()
                };
                match crate::half_precision::half_status_of(a) {
                    AlphaStatus::Zero => update,
                    AlphaStatus::One => plus(old, update),
                    AlphaStatus::Other => plus(times(a, old), update),
                }
            };
        assert(crate::merge::merges_by(merge, made));
        crate::merge::lemma_merge_step_pointwise(step, entry, made);
        let f = |first: bool, old: Half, row: Seq<Half>, col: Seq<Half>|
            made(first, old, entry(step.beta, row, col));
        let id = |x: Half| x;
        assert(crate::laws::converts_by(Keep, id));
        crate::laws::law_tiling_does_not_matter(
            p,
            Keep,
            step,
            step,
            f,
            id,
            scheme,
            other_scheme,
            pre,
            post,
            other,
        );
    }
}

/// The result in single precision arithmetic is the same on any number of threads and however the
/// destination is cut into tiles: with functions as arithmetic, and kernels that treat the entries
/// of a tile independently, the operands and the size of the blocks along the depth determine it.
pub proof fn law_mixed_result_is_unique<
    W: Fn(Half) -> Single,
    R: for <'a>Fn(&'a [Half]) -> Vec<Single>,
    P: Fn(Single) -> Half,
    A: Fn(Single, Single) -> Single,
    M: Fn(Single, Single) -> Single,
    H: Fn(Half, Half) -> Half,
    F: for <'a>Fn(KernelCall<'a, Single>) -> Vec<Single>,
    const NR: usize,
    const MR_DIV_N: usize,
>(
    p: Problem<Half>,
    alpha: Half,
    beta: Half,
    widen: Through<W, R>,
    math: SingleMath<P, A, M>,
    half_times: H,
    wide: spec_fn(Half) -> Single,
    narrow: spec_fn(Single) -> Half,
    plus: spec_fn(Single, Single) -> Single,
    times: spec_fn(Single, Single) -> Single,
    dispatcher: [[F; NR]; MR_DIV_N],
    scheme: Scheme<Single>,
    other_scheme: Scheme<Single>,
    entry: spec_fn(Single, Seq<Single>, Seq<Single>) -> Single,
    pre: Seq<Half>,
    post: Seq<Half>,
    other: Seq<Half>,
)
    requires
        forall|x: Half, y: Single| #[trigger]
            crate::convert::through_converts(widen, x, y) ==> y == wide(x),
        forall|x: Single, y: Half| #[trigger]
            call_ensures(math.narrow, (x,), y) ==> y == narrow(x),
        forall|x: Single, y: Single, z: Single| #[trigger]
            call_ensures(math.plus, (x, y), z) ==> z == plus(x, y),
        forall|x: Single, y: Single, z: Single| #[trigger]
            call_ensures(math.times, (x, y), z) ==> z == times(x, y),
        crate::gemm_laws::multiplies_by_function(half_times),
        crate::merge::updates_pointwise(
            dispatcher,
            scheme.lanes as int,
            scheme.mr as int,
            Single::zero_value(),
            entry,
        ),
        p.k > 0 ==> {
            &&& 0 < scheme.blocking.kc == other_scheme.blocking.kc
            &&& scheme.lanes == other_scheme.lanes
            &&& scheme.mr == other_scheme.mr
        },
        crate::half_precision::mixed_multiplied(
            p,
            alpha,
            beta,
            widen,
            math,
            half_times,
            dispatcher,
            scheme,
            pre,
            post,
        ),
        crate::half_precision::mixed_multiplied(
            p,
            alpha,
            beta,
            widen,
            math,
            half_times,
            dispatcher,
            other_scheme,
            pre,
            other,
        ),
    ensures
        post == other,
{
    if p.m == 0 || p.n == 0 {
    } else if p.k == 0 {
        lemma_half_scaled_once(half_times, p, alpha, pre, post, other);
    } else {
        assert(forall|x: Half, y: Single| #[trigger]
            call_ensures(widen.one, (x,), y) ==> crate::convert::through_converts(widen, x, y));
        let merge = Mixed { widen: &widen, math: &math, alpha: wide(alpha) };
        let step = MergeStep {
            dispatcher: &dispatcher,
            lanes: scheme.lanes,
            mr: scheme.mr,
            merge: &merge,
            zero: Single::zero_value(),
            beta: wide(beta),
        };
        let made = |first: bool, old: Half, update: Single|
            {
                let a = if first {
                    merge.alpha
                } else {
                    Single::one_value()
                };
                match crate::gemm::status_of(a) {
                    AlphaStatus::Zero => narrow(update),
                    AlphaStatus::One => narrow(plus(wide(old), update)),
                    AlphaStatus::Other => narrow(plus(times(a, wide(old)), update)),
                }
            };
        assert(crate::merge::merges_by(merge, made));
        crate::merge::lemma_merge_step_pointwise(step, entry, made);
        let f = |first: bool, old: Half, row: Seq<Single>, col: Seq<Single>|
            made(first, old, entry(step.beta, row, col));
        assert(crate::laws::converts_by(widen, wide));
        crate::laws::law_tiling_does_not_matter(
            p,
            widen,
            step,
            step,
            f,
            wide,
            scheme,
            other_scheme,
            pre,
            post,
            other,
        );
    }
}

/// With `read_dst` unset the factor of the destination does not matter: it counts as zero.
pub proof fn law_half_unread_factor(alpha: Half, other: Half)
    ensures
        crate::half_precision::alpha_used(false, alpha) == crate::half_precision::alpha_used(
            false,
            other,
        ),
        crate::half_precision::half_status_of(
            crate::half_precision::alpha_used(false, alpha),
        ) is Zero,
{
    crate::half_exact::lemma_half_zero_and_one();
}

/// In half precision, a destination that is not read, or that is scaled by zero, may hold anything:
/// with a function as addition, and kernels that treat the entries of a tile independently, the
/// result is the same.
pub proof fn law_pure_unread_destination<
    A: Fn(Half, Half) -> Half,
    M: Fn(Half, Half) -> Half,
    F: for <'a>Fn(KernelCall<'a, Half>) -> Vec<Half>,
    const NR: usize,
    const MR_DIV_N: usize,
>(
    p: Problem<Half>,
    alpha: Half,
    beta: Half,
    math: HalfMath<A, M>,
    plus: spec_fn(Half, Half) -> Half,
    dispatcher: [[F; NR]; MR_DIV_N],
    scheme: Scheme<Half>,
    entry: spec_fn(Half, Seq<Half>, Seq<Half>) -> Half,
    pre: Seq<Half>,
    post: Seq<Half>,
    other_pre: Seq<Half>,
    other_post: Seq<Half>,
    i: int,
    j: int,
)
    requires
        crate::half_precision::half_status_of(alpha) is Zero,
        forall|x: Half, y: Half, z: Half| #[trigger]
            call_ensures(math.plus, (x, y), z) ==> z == plus(x, y),
        crate::merge::updates_pointwise(
            dispatcher,
            scheme.lanes as int,
            scheme.mr as int,
            Half::zero_value(),
            entry,
        ),
        p.k > 0 ==> 0 < scheme.blocking.kc,
        0 <= i < p.m,
        0 <= j < p.n,
        crate::half_precision::pure_multiplied(
            p,
            alpha,
            beta,
            math,
            dispatcher,
            scheme,
            pre,
            post,
        ),
        crate::half_precision::pure_multiplied(
            p,
            alpha,
            beta,
            math,
            dispatcher,
            scheme,
            other_pre,
            other_post,
        ),
    ensures
        post[p.dst_layout.index(i, j)] == other_post[p.dst_layout.index(i, j)],
{
    if p.k > 0 {
        let merge = Pure { math: &math, alpha };
        let step = MergeStep {
            dispatcher: &dispatcher,
            lanes: scheme.lanes,
            mr: scheme.mr,
            merge: &merge,
            zero: Half::zero_value(),
            beta,
        };
        let made = |first: bool, old: Half, update: Half|
            if first {
                update
            } else {
                plus(old, update)
            };
        crate::half_exact::lemma_half_zero_and_one();
        assert(crate::merge::merges_by(merge, made));
        crate::merge::lemma_merge_step_pointwise(step, entry, made);
        let f = |first: bool, old: Half, row: Seq<Half>, col: Seq<Half>|
            made(first, old, entry(step.beta, row, col));
        let id = |x: Half| x;
        assert(crate::laws::converts_by(Keep, id));
        crate::laws::law_unread_destination(
            p,
            Keep,
            step,
            f,
            id,
            scheme,
            pre,
            post,
            other_pre,
            other_post,
            i,
            j,
        );
    }
}

/// In single precision arithmetic, a destination that is not read, or that is scaled by zero, may
/// hold anything: with functions as arithmetic, of which widening keeps the zero, and kernels that
/// treat the entries of a tile independently, the result is the same.
pub proof fn law_mixed_unread_destination<
    W: Fn(Half) -> Single,
    R: for <'a>Fn(&'a [Half]) -> Vec<Single>,
    P: Fn(Single) -> Half,
    A: Fn(Single, Single) -> Single,
    M: Fn(Single, Single) -> Single,
    H: Fn(Half, Half) -> Half,
    F: for <'a>Fn(KernelCall<'a, Single>) -> Vec<Single>,
    const NR: usize,
    const MR_DIV_N: usize,
>(
    p: Problem<Half>,
    alpha: Half,
    beta: Half,
    widen: Through<W, R>,
    math: SingleMath<P, A, M>,
    half_times: H,
    wide: spec_fn(Half) -> Single,
    narrow: spec_fn(Single) -> Half,
    plus: spec_fn(Single, Single) -> Single,
    dispatcher: [[F; NR]; MR_DIV_N],
    scheme: Scheme<Single>,
    entry: spec_fn(Single, Seq<Single>, Seq<Single>) -> Single,
    pre: Seq<Half>,
    post: Seq<Half>,
    other_pre: Seq<Half>,
    other_post: Seq<Half>,
    i: int,
    j: int,
)
    requires
        crate::half_precision::half_status_of(alpha) is Zero,
        wide(alpha).zero_valued(),
        forall|x: Half, y: Single| #[trigger]
            crate::convert::through_converts(widen, x, y) ==> y == wide(x),
        forall|x: Single, y: Half| #[trigger]
            call_ensures(math.narrow, (x,), y) ==> y == narrow(x),
        forall|x: Single, y: Single, z: Single| #[trigger]
            call_ensures(math.plus, (x, y), z) ==> z == plus(x, y),
        crate::merge::updates_pointwise(
            dispatcher,
            scheme.lanes as int,
            scheme.mr as int,
            Single::zero_value(),
            entry,
        ),
        p.k > 0 ==> 0 < scheme.blocking.kc,
        0 <= i < p.m,
        0 <= j < p.n,
        crate::half_precision::mixed_multiplied(
            p,
            alpha,
            beta,
            widen,
            math,
            half_times,
            dispatcher,
            scheme,
            pre,
            post,
        ),
        crate::half_precision::mixed_multiplied(
            p,
            alpha,
            beta,
            widen,
            math,
            half_times,
            dispatcher,
            scheme,
            other_pre,
            other_post,
        ),
    ensures
        post[p.dst_layout.index(i, j)] == other_post[p.dst_layout.index(i, j)],
{
    if p.k > 0 {
        assert(forall|x: Half, y: Single| #[trigger]
            call_ensures(widen.one, (x,), y) ==> crate::convert::through_converts(widen, x, y));
        let merge = Mixed { widen: &widen, math: &math, alpha: wide(alpha) };
        let step = MergeStep {
            dispatcher: &dispatcher,
            lanes: scheme.lanes,
            mr: scheme.mr,
            merge: &merge,
            zero: Single::zero_value(),
            beta: wide(beta),
        };
        let made = |first: bool, old: Half, update: Single|
            if first {
                narrow(update)
            } else {
                narrow(plus(wide(old), update))
            };
        crate::scalar::law_zero_and_one();
        assert(crate::merge::merges_by(merge, made));
        crate::merge::lemma_merge_step_pointwise(step, entry, made);
        let f = |first: bool, old: Half, row: Seq<Single>, col: Seq<Single>|
            made(first, old, entry(step.beta, row, col));
        assert(crate::laws::converts_by(widen, wide));
        crate::laws::law_unread_destination(
            p,
            widen,
            step,
            f,
            wide,
            scheme,
            pre,
            post,
            other_pre,
            other_post,
            i,
            j,
        );
    }
}

/// The kernels that are picked can be run, and they compute in half precision only where the machine
/// does.
pub proof fn law_picked_half_kernels_run(arch: Arch, f: Features)
    ensures
        crate::arch::supports(arch, f, crate::half_precision::best_half_set(arch, f)),
        crate::half_precision::best_half_set(arch, f) is Neon ==> f.fp16,
        !(crate::half_precision::best_half_set(arch, f) is Simd128),
{
}

/// Every set of kernels for half precision numbers has a module of its own, whose vectors hold that
/// many rows. The kernels that are picked are always those of one of these modules.
pub proof fn law_lanes_of_modules(arch: Arch, f: Features)
    ensures
        crate::half_precision::half_lanes(KernelSet::Scalar) == crate::half_precision::scalar::N,
        crate::half_precision::half_lanes(KernelSet::Sse) == crate::half_precision::sse::N,
        crate::half_precision::half_lanes(KernelSet::Avx) == crate::half_precision::avx::N,
        crate::half_precision::half_lanes(KernelSet::Fma) == crate::half_precision::fma::N,
        crate::half_precision::half_lanes(KernelSet::Avx512f) == crate::half_precision::avx512f::N,
        crate::half_precision::half_lanes(KernelSet::Neon) == crate::half_precision::neon::N,
        !(crate::half_precision::best_half_set(arch, f) is Simd128),
{
}

/// The kernels for half precision numbers are those for real numbers, but on aarch64 only where the
/// processor computes in half precision, and never those of wasm32.
pub proof fn law_init_half_gemm_fn(arch: Arch, f: Features, set: KernelSet, wide: KernelSet)
    requires
        call_ensures(crate::half_precision::init_gemm_fn, (arch, f), set),
        call_ensures(crate::arch::init_gemm_fn, (arch, f), wide),
    ensures
        arch is X86 || arch is X86_64 ==> set == wide,
        set is Neon <==> wide is Neon && f.fp16,
        !(arch is X86 || arch is X86_64) ==> set is Neon || set is Scalar,
{
}

/// A vector register holds as many half precision numbers as single precision ones, since that is what
/// they are computed in; the kernels that compute in half precision hold twice as many.
pub proof fn law_half_lanes(set: KernelSet, rows: usize, single_rows: usize)
    requires
        !(set is Simd128),
        call_ensures(crate::half_precision::lanes_of, (set,), rows),
        call_ensures(crate::arch::lanes, (set, 2), single_rows),
    ensures
        !(set is Neon) ==> rows == single_rows,
        set is Neon ==> rows == 2 * single_rows,
{
}

/// A call of [`half_precision::pack_lhs`] leaves a conversion of row `i` of column `d` of the source in panel
/// `i / MR`, in place `i % MR`. What the source does not fill keeps what it held where one or two vectors
/// are left over, and is zero otherwise. Nothing beside the panels changes.
pub proof fn law_pack_lhs<
    W: Fn(Half) -> Single,
    R: for <'a>Fn(&'a [Half]) -> Vec<Single>,
    const N: usize,
    const MR: usize,
>(
    widen: &Through<W, R>,
    m: usize,
    k: usize,
    dst: &mut [Single],
    src: &[Half],
    layout: Layout,
    dst_stride: usize,
    i: int,
    d: int,
    q: int,
)
    requires
        0 < MR,
        call_ensures(
            half_precision::pack_lhs::<W, R, N, MR>,
            (widen, m, k, dst, src, layout, dst_stride),
            (),
        ),
    ensures
        final(dst)@.len() == old(dst)@.len(),
        0 <= i < m && 0 <= d < k ==> crate::convert::through_converts(
            *widen,
            src@[layout.index(i, d)],
            final(dst)@[(i / (MR as int)) * dst_stride + d * MR + i % (MR as int)],
        ),
        m as int % (MR as int) <= i < MR && m as int % (MR as int) != 0 && 0 <= d < k ==> {
            let left = m as int % (MR as int);
            let p = (m as int / (MR as int)) * dst_stride + d * MR + i;
            &&& left == N || left == 2 * N ==> final(dst)@[p] == old(dst)@[p]
            &&& left != N && left != 2 * N ==> final(dst)@[p].bits == 0
        },
        0 <= q < old(dst)@.len() && (forall|g: int|
            0 <= g && g * MR < m ==> !(#[trigger] (g * dst_stride) <= q < g * dst_stride + k
                * MR)) ==> final(dst)@[q] == old(dst)@[q],
{
    crate::pack::lemma_packed_places(
        *widen,
        src@,
        layout,
        m as int,
        k as int,
        old(dst)@,
        final(dst)@,
        N as int,
        MR as int,
        dst_stride as int,
        Single::zero_value(),
        i,
        d,
        q,
    );
}

/// A call of [`half_precision::pack_rhs`] leaves a conversion of column `i` of row `d` of the source in panel
/// `i / NR`, in place `i % NR`. What the source does not fill keeps what it held where one or two vectors
/// are left over, and is zero otherwise. Nothing beside the panels changes.
pub proof fn law_pack_rhs<
    W: Fn(Half) -> Single,
    R: for <'a>Fn(&'a [Half]) -> Vec<Single>,
    const N: usize,
    const NR: usize,
>(
    widen: &Through<W, R>,
    n: usize,
    k: usize,
    dst: &mut [Single],
    src: &[Half],
    layout: Layout,
    dst_stride: usize,
    i: int,
    d: int,
    q: int,
)
    requires
        0 < NR,
        call_ensures(
            half_precision::pack_rhs::<W, R, N, NR>,
            (widen, n, k, dst, src, layout, dst_stride),
            (),
        ),
    ensures
        final(dst)@.len() == old(dst)@.len(),
        0 <= i < n && 0 <= d < k ==> crate::convert::through_converts(
            *widen,
            src@[layout.index(d, i)],
            final(dst)@[(i / (NR as int)) * dst_stride + d * NR + i % (NR as int)],
        ),
        n as int % (NR as int) <= i < NR && n as int % (NR as int) != 0 && 0 <= d < k ==> {
            let left = n as int % (NR as int);
            let p = (n as int / (NR as int)) * dst_stride + d * NR + i;
            &&& left == N || left == 2 * N ==> final(dst)@[p] == old(dst)@[p]
            &&& left != N && left != 2 * N ==> final(dst)@[p].bits == 0
        },
        0 <= q < old(dst)@.len() && (forall|g: int|
            0 <= g && g * NR < n ==> !(#[trigger] (g * dst_stride) <= q < g * dst_stride + k
                * NR)) ==> final(dst)@[q] == old(dst)@[q],
{
    crate::gemm::lemma_transposed_layout(layout);
    crate::pack::lemma_packed_places(
        *widen,
        src@,
        layout.transposed(),
        n as int,
        k as int,
        old(dst)@,
        final(dst)@,
        N as int,
        NR as int,
        dst_stride as int,
        Single::zero_value(),
        i,
        d,
        q,
    );
}

/// A call of [`half_precision::pack_lhs_f16`] leaves row `i` of column `d` of the source in panel
/// `i / MR`, in place `i % MR`. What the source does not fill keeps what it held where one or two vectors
/// are left over, and is zero otherwise. Nothing beside the panels changes.
pub proof fn law_pack_lhs_f16<
    const N: usize,
    const MR: usize,
>(
    m: usize,
    k: usize,
    dst: &mut [Half],
    src: &[Half],
    layout: Layout,
    dst_stride: usize,
    i: int,
    d: int,
    q: int,
)
    requires
        0 < MR,
        call_ensures(
            half_precision::pack_lhs_f16::<N, MR>,
            (m, k, dst, src, layout, dst_stride),
            (),
        ),
    ensures
        final(dst)@.len() == old(dst)@.len(),
        0 <= i < m && 0 <= d < k ==> final(dst)@[(i / (MR as int)) * dst_stride + d * MR + i % (MR as int)]
            == src@[layout.index(i, d)],
        m as int % (MR as int) <= i < MR && m as int % (MR as int) != 0 && 0 <= d < k ==> {
            let left = m as int % (MR as int);
            let p = (m as int / (MR as int)) * dst_stride + d * MR + i;
            &&& left == N || left == 2 * N ==> final(dst)@[p] == old(dst)@[p]
            &&& left != N && left != 2 * N ==> final(dst)@[p].bits == 0
        },
        0 <= q < old(dst)@.len() && (forall|g: int|
            0 <= g && g * MR < m ==> !(#[trigger] (g * dst_stride) <= q < g * dst_stride + k
                * MR)) ==> final(dst)@[q] == old(dst)@[q],
{
    crate::pack::lemma_packed_places(
        Keep,
        src@,
        layout,
        m as int,
        k as int,
        old(dst)@,
        final(dst)@,
        N as int,
        MR as int,
        dst_stride as int,
        Half::zero_value(),
        i,
        d,
        q,
    );
}

/// A call of [`half_precision::pack_rhs_f16`] leaves column `i` of row `d` of the source in panel
/// `i / NR`, in place `i % NR`. What the source does not fill keeps what it held where one or two vectors
/// are left over, and is zero otherwise. Nothing beside the panels changes.
pub proof fn law_pack_rhs_f16<
    const N: usize,
    const NR: usize,
>(
    n: usize,
    k: usize,
    dst: &mut [Half],
    src: &[Half],
    layout: Layout,
    dst_stride: usize,
    i: int,
    d: int,
    q: int,
)
    requires
        0 < NR,
        call_ensures(
            half_precision::pack_rhs_f16::<N, NR>,
            (n, k, dst, src, layout, dst_stride),
            (),
        ),
    ensures
        final(dst)@.len() == old(dst)@.len(),
        0 <= i < n && 0 <= d < k ==> final(dst)@[(i / (NR as int)) * dst_stride + d * NR + i % (NR as int)]
            == src@[layout.index(d, i)],
        n as int % (NR as int) <= i < NR && n as int % (NR as int) != 0 && 0 <= d < k ==> {
            let left = n as int % (NR as int);
            let p = (n as int / (NR as int)) * dst_stride + d * NR + i;
            &&& left == N || left == 2 * N ==> final(dst)@[p] == old(dst)@[p]
            &&& left != N && left != 2 * N ==> final(dst)@[p].bits == 0
        },
        0 <= q < old(dst)@.len() && (forall|g: int|
            0 <= g && g * NR < n ==> !(#[trigger] (g * dst_stride) <= q < g * dst_stride + k
                * NR)) ==> final(dst)@[q] == old(dst)@[q],
{
    crate::gemm::lemma_transposed_layout(layout);
    crate::pack::lemma_packed_places(
        Keep,
        src@,
        layout.transposed(),
        n as int,
        k as int,
        old(dst)@,
        final(dst)@,
        N as int,
        NR as int,
        dst_stride as int,
        Half::zero_value(),
        i,
        d,
        q,
    );
}

} // verus!
