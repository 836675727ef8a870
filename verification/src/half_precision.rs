//! General matrix multiplication of half precision numbers.
//!
//! Most kernels compute in single precision: the operands are widened when they are packed, and
//! the results are narrowed. A machine with half precision arithmetic computes without widening.

use crate::arch::intel_set;
use crate::arch::Arch;
use crate::arch::Features;
use crate::arch::KernelSet;
use crate::blocked::multiply_blocked;
use crate::blocked::Plan;
use crate::convert::Convert;
use crate::convert::Keep;
use crate::convert::Through;
use crate::entries::fill_entries;
use crate::entries::map_entries;
use crate::gemm::alpha_status;
use crate::kernel::AlphaStatus;
use crate::kernel::KernelCall;
use crate::layout::Layout;
use crate::merge::Merge;
use crate::merge::MergeStep;
use crate::pack::pack_generic;
use crate::parallel::Parallelism;
use crate::scalar::Half;
use crate::scalar::Number;
use crate::scalar::Single;
use crate::scheme::Scheme;
use crate::sweep::Problem;
use crate::thresholds::ThresholdValues;
use crate::thresholds::Thresholds;
use crate::tuning::fill_columns;
use crate::tuning::Blocking;
use crate::tuning::KernelParams;
use vstd::prelude::*;

pub mod avx;
pub mod avx512f;
pub mod fma;
pub mod neon;
pub mod scalar;
pub mod sse;

verus! {

/// `dst` can hold the panels of `w` rows that `m` rows and `k` columns are packed into.
pub open spec fn panels_fit(dst_len: int, m: int, k: int, w: int, stride: int) -> bool {
    &&& 0 < w <= isize::MAX
    &&& m > w ==> k * w <= stride
    &&& m > 0 && k > 0 ==> crate::pack::panel_start(
        0,
        stride,
        crate::share::ceil_quotient(m, w) - 1,
    ) + k * w <= dst_len
}

/// `post` holds the `m` rows and `k` columns of the source in panels of `w` rows. Rows that the
/// source does not fill keep what they held where the source fills one or two vectors of `lanes`
/// rows, and are `zero` otherwise. Nothing beside the panels changes.
pub open spec fn packed_into<T, C, V: Convert<T, C>>(
    conv: V,
    src: Seq<T>,
    layout: Layout,
    m: int,
    k: int,
    pre: Seq<C>,
    post: Seq<C>,
    lanes: int,
    w: int,
    stride: int,
    zero: C,
) -> bool {
    &&& crate::pack::operand_packed(conv, src, layout, m, k, post, 0, w, stride)
    &&& crate::pack::same_outside_panels(
        pre,
        post,
        0,
        stride,
        crate::share::ceil_quotient(m, w),
        k * w,
    )
    &&& m % w != 0 ==> crate::pack::padding(
        lanes,
        m % w,
        k,
        zero,
        pre,
        post,
        crate::pack::panel_start(0, stride, m / w),
        w,
    )
}

/// Packs the left operand and widens it.
pub fn pack_lhs<
    W: Fn(Half) -> Single,
    R: for <'a>Fn(&'a [Half]) -> Vec<Single>,
    const N: usize,
    const MR: usize,
>(
    widen: &Through<W, R>,
    m: usize,
    k: usize,
    dst: &mut [Single],
    src: &[Half],
    layout: Layout,
    dst_stride: usize,
)
    requires
        crate::convert::through_ready::<Half, Single, W, R>(*widen),
        N <= isize::MAX,
        layout.fits(src@.len() as int, m as int, k as int),
        panels_fit(old(dst)@.len() as int, m as int, k as int, MR as int, dst_stride as int),
    ensures
        packed_into(
            *widen,
            src@,
            layout,
            m as int,
            k as int,
            old(dst)@,
            final(dst)@,
            N as int,
            MR as int,
            dst_stride as int,
            Single::zero_value(),
        ),
{
    pack_generic::<Half, Single, Through<W, R>, N, MR>(
        widen,
        m,
        k,
        dst,
        0,
        src,
        layout,
        dst_stride,
        Single::zero(),
    );
}

/// Packs the right operand and widens it. Its columns are packed as the rows of a left operand
/// are.
pub fn pack_rhs<
    W: Fn(Half) -> Single,
    R: for <'a>Fn(&'a [Half]) -> Vec<Single>,
    const N: usize,
    const NR: usize,
>(
    widen: &Through<W, R>,
    n: usize,
    k: usize,
    dst: &mut [Single],
    src: &[Half],
    layout: Layout,
    dst_stride: usize,
)
    requires
        crate::convert::through_ready::<Half, Single, W, R>(*widen),
        N <= isize::MAX,
        layout.fits(src@.len() as int, k as int, n as int),
        panels_fit(old(dst)@.len() as int, n as int, k as int, NR as int, dst_stride as int),
    ensures
        packed_into(
            *widen,
            src@,
            layout.transposed(),
            n as int,
            k as int,
            old(dst)@,
            final(dst)@,
            N as int,
            NR as int,
            dst_stride as int,
            Single::zero_value(),
        ),
{
    let columns = layout.transpose();
    assert forall|i: int, j: int| 0 <= i < n && 0 <= j < k implies 0 <= #[trigger] columns.index(
        i,
        j,
    ) < src@.len() by {
        assert(columns.index(i, j) == layout.index(j, i));
    }
    pack_lhs::<W, R, N, NR>(widen, n, k, dst, src, columns, dst_stride);
}

/// Packs the left operand as it is.
pub fn pack_lhs_f16<const N: usize, const MR: usize>(
    m: usize,
    k: usize,
    dst: &mut [Half],
    src: &[Half],
    layout: Layout,
    dst_stride: usize,
)
    requires
        N <= isize::MAX,
        layout.fits(src@.len() as int, m as int, k as int),
        panels_fit(old(dst)@.len() as int, m as int, k as int, MR as int, dst_stride as int),
    ensures
        packed_into(
            Keep,
            src@,
            layout,
            m as int,
            k as int,
            old(dst)@,
            final(dst)@,
            N as int,
            MR as int,
            dst_stride as int,
            Half::zero_value(),
        ),
{
    pack_generic::<Half, Half, Keep, N, MR>(
        &Keep,
        m,
        k,
        dst,
        0,
        src,
        layout,
        dst_stride,
        Half::zero(),
    );
}

/// Packs the right operand as it is. Its columns are packed as the rows of a left operand are.
pub fn pack_rhs_f16<const N: usize, const NR: usize>(
    n: usize,
    k: usize,
    dst: &mut [Half],
    src: &[Half],
    layout: Layout,
    dst_stride: usize,
)
    requires
        N <= isize::MAX,
        layout.fits(src@.len() as int, k as int, n as int),
        panels_fit(old(dst)@.len() as int, n as int, k as int, NR as int, dst_stride as int),
    ensures
        packed_into(
            Keep,
            src@,
            layout.transposed(),
            n as int,
            k as int,
            old(dst)@,
            final(dst)@,
            N as int,
            NR as int,
            dst_stride as int,
            Half::zero_value(),
        ),
{
    let columns = layout.transpose();
    assert forall|i: int, j: int| 0 <= i < n && 0 <= j < k implies 0 <= #[trigger] columns.index(
        i,
        j,
    ) < src@.len() by {
        assert(columns.index(i, j) == layout.index(j, i));
    }
    pack_lhs_f16::<N, NR>(n, k, dst, src, columns, dst_stride);
}

/// Arithmetic in single precision, and the way back to half precision.
pub struct SingleMath<P, A, M> {
    pub narrow: P,
    pub plus: A,
    pub times: M,
}

/// Arithmetic in half precision.
pub struct HalfMath<A, M> {
    pub plus: A,
    pub times: M,
}

/// All numbers can be added, multiplied and narrowed.
pub open spec fn single_math_ready<
    P: Fn(Single) -> Half,
    A: Fn(Single, Single) -> Single,
    M: Fn(Single, Single) -> Single,
>(math: SingleMath<P, A, M>) -> bool {
    &&& forall|x: Single| call_requires(math.narrow, (x,))
    &&& forall|x: Single, y: Single| call_requires(math.plus, (x, y))
    &&& forall|x: Single, y: Single| call_requires(math.times, (x, y))
}

/// All numbers can be added and multiplied.
pub open spec fn half_math_ready<A: Fn(Half, Half) -> Half, M: Fn(Half, Half) -> Half>(
    math: HalfMath<A, M>,
) -> bool {
    &&& forall|x: Half, y: Half| call_requires(math.plus, (x, y))
    &&& forall|x: Half, y: Half| call_requires(math.times, (x, y))
}

/// Merges an update in single precision into an entry in half precision.
pub struct Mixed<'b, W, R, P, A, M> {
    pub widen: &'b Through<W, R>,
    pub math: &'b SingleMath<P, A, M>,
    /// What the entry is scaled by in the first update.
    pub alpha: Single,
}

impl<
    'b,
    W: Fn(Half) -> Single,
    R: for <'a>Fn(&'a [Half]) -> Vec<Single>,
    P: Fn(Single) -> Half,
    A: Fn(Single, Single) -> Single,
    M: Fn(Single, Single) -> Single,
> Mixed<'b, W, R, P, A, M> {
    /// `new` may come of scaling `old` by `alpha` and adding `update`.
    pub open spec fn scales_and_adds(
        self,
        alpha: Single,
        old: Half,
        update: Single,
        new: Half,
    ) -> bool {
        match crate::gemm::status_of(alpha) {
            AlphaStatus::Zero => call_ensures(self.math.narrow, (update,), new),
            AlphaStatus::One => exists|wide: Single, sum: Single|
                {
                    &&& #[trigger] call_ensures(self.widen.one, (old,), wide)
                    &&& #[trigger] call_ensures(self.math.plus, (wide, update), sum)
                    &&& call_ensures(self.math.narrow, (sum,), new)
                },
            AlphaStatus::Other => exists|wide: Single, product: Single, sum: Single|
                {
                    &&& #[trigger] call_ensures(self.widen.one, (old,), wide)
                    &&& #[trigger] call_ensures(self.math.times, (alpha, wide), product)
                    &&& #[trigger] call_ensures(self.math.plus, (product, update), sum)
                    &&& call_ensures(self.math.narrow, (sum,), new)
                },
        }
    }
}

impl<
    'b,
    W: Fn(Half) -> Single,
    R: for <'a>Fn(&'a [Half]) -> Vec<Single>,
    P: Fn(Single) -> Half,
    A: Fn(Single, Single) -> Single,
    M: Fn(Single, Single) -> Single,
> Merge<Half, Single> for Mixed<'b, W, R, P, A, M> {
    open spec fn merges(&self, first: bool, old: Half, update: Single, new: Half) -> bool {
        self.scales_and_adds(
            if first {
                self.alpha
            } else {
                Single::one_value()
            },
            old,
            update,
            new,
        )
    }

    open spec fn ready(&self) -> bool {
        crate::convert::through_ready::<Half, Single, W, R>(*self.widen) && single_math_ready(
            *self.math,
        )
    }

    fn merge(&self, first: bool, old: Half, update: Single) -> (new: Half) {
        let alpha = if first {
            self.alpha
        } else {
            Single::one()
        };
        match alpha_status(alpha) {
            AlphaStatus::Zero => (self.math.narrow)(update),
            AlphaStatus::One => {
                let wide = (self.widen.one)(old);
                let sum = (self.math.plus)(wide, update);
                (self.math.narrow)(sum)
            },
            AlphaStatus::Other => {
                let wide = (self.widen.one)(old);
                let product = (self.math.times)(alpha, wide);
                let sum = (self.math.plus)(product, update);
                (self.math.narrow)(sum)
            },
        }
    }
}

/// What [`Mixed`] merges, and when it can.
pub proof fn lemma_mixed<
    W: Fn(Half) -> Single,
    R: for <'a>Fn(&'a [Half]) -> Vec<Single>,
    P: Fn(Single) -> Half,
    A: Fn(Single, Single) -> Single,
    M: Fn(Single, Single) -> Single,
>(merge: Mixed<'_, W, R, P, A, M>)
    ensures
        Merge::<Half, Single>::ready(&merge) == (crate::convert::through_ready::<
            Half,
            Single,
            W,
            R,
        >(*merge.widen) && single_math_ready(*merge.math)),
        forall|first: bool, old: Half, update: Single, new: Half| #[trigger]
            Merge::<Half, Single>::merges(&merge, first, old, update, new)
                == merge.scales_and_adds(
                if first {
                    merge.alpha
                } else {
                    Single::one_value()
                },
                old,
                update,
                new,
            ),
{
}

/// How the destination is to be scaled by `alpha`.
pub open spec fn half_status_of(alpha: Half) -> AlphaStatus {
    if alpha.equals(Half::zero_value()) {
        AlphaStatus::Zero
    } else if alpha.equals(Half::one_value()) {
        AlphaStatus::One
    } else {
        AlphaStatus::Other
    }
}

/// How the destination is to be scaled by `alpha`.
pub fn half_alpha_status(alpha: Half) -> (r: AlphaStatus)
    ensures
        r == half_status_of(alpha),
{
    if alpha.eq_value(Half::zero()) {
        AlphaStatus::Zero
    } else if alpha.eq_value(Half::one()) {
        AlphaStatus::One
    } else {
        AlphaStatus::Other
    }
}

/// Merges an update in half precision into an entry.
pub struct Pure<'b, A, M> {
    pub math: &'b HalfMath<A, M>,
    /// What the entry is scaled by in the first update.
    pub alpha: Half,
}

impl<'b, A: Fn(Half, Half) -> Half, M: Fn(Half, Half) -> Half> Pure<'b, A, M> {
    /// `new` may come of scaling `old` by `alpha` and adding `update`.
    pub open spec fn scales_and_adds(
        self,
        alpha: Half,
        old: Half,
        update: Half,
        new: Half,
    ) -> bool {
        match half_status_of(alpha) {
            AlphaStatus::Zero => new == update,
            AlphaStatus::One => call_ensures(self.math.plus, (old, update), new),
            AlphaStatus::Other => exists|product: Half|
                {
                    &&& #[trigger] call_ensures(self.math.times, (alpha, old), product)
                    &&& call_ensures(self.math.plus, (product, update), new)
                },
        }
    }
}

impl<'b, A: Fn(Half, Half) -> Half, M: Fn(Half, Half) -> Half> Merge<Half, Half> for Pure<
    'b,
    A,
    M,
> {
    open spec fn merges(&self, first: bool, old: Half, update: Half, new: Half) -> bool {
        self.scales_and_adds(
            if first {
                self.alpha
            } else {
                Half::one_value()
            },
            old,
            update,
            new,
        )
    }

    open spec fn ready(&self) -> bool {
        half_math_ready(*self.math)
    }

    fn merge(&self, first: bool, old: Half, update: Half) -> (new: Half) {
        let alpha = if first {
            self.alpha
        } else {
            Half::one()
        };
        match half_alpha_status(alpha) {
            AlphaStatus::Zero => update,
            AlphaStatus::One => (self.math.plus)(old, update),
            AlphaStatus::Other => {
                let product = (self.math.times)(alpha, old);
                (self.math.plus)(product, update)
            },
        }
    }
}

/// What [`Pure`] merges, and when it can.
pub proof fn lemma_pure<A: Fn(Half, Half) -> Half, M: Fn(Half, Half) -> Half>(
    merge: Pure<'_, A, M>,
)
    ensures
        Merge::<Half, Half>::ready(&merge) == half_math_ready(*merge.math),
        forall|first: bool, old: Half, update: Half, new: Half| #[trigger]
            Merge::<Half, Half>::merges(&merge, first, old, update, new) == merge.scales_and_adds(
                if first {
                    merge.alpha
                } else {
                    Half::one_value()
                },
                old,
                update,
                new,
            ),
{
}

/// The destination goes from `pre` to `post` by scaling its entries, and nothing beside it changes.
pub open spec fn half_scaled_all<H: Fn(Half, Half) -> Half>(
    times: H,
    p: Problem<Half>,
    alpha: Half,
    pre: Seq<Half>,
    post: Seq<Half>,
) -> bool {
    match half_status_of(alpha) {
        AlphaStatus::Zero => crate::entries::filled_with(
            Half::zero_value(),
            p.dst_layout,
            p.m as int,
            p.n as int,
            pre,
            post,
        ),
        AlphaStatus::One => post == pre,
        AlphaStatus::Other => {
            &&& p.dst_layout.same_beside(pre, post, p.m as int, 0, p.n as int)
            &&& forall|i: int, j: int|
                0 <= i < p.m && 0 <= j < p.n ==> call_ensures(
                    times,
                    (alpha, pre[#[trigger] p.dst_layout.index(i, j)]),
                    post[p.dst_layout.index(i, j)],
                )
        },
    }
}

/// Every number can be multiplied by `alpha`.
pub open spec fn half_multiplies<H: Fn(Half, Half) -> Half>(times: &H, alpha: Half) -> bool {
    forall|x: Half| call_requires(*times, (alpha, x))
}

/// `y` is `alpha` times `x`.
spec fn half_scaled<H: Fn(Half, Half) -> Half>(times: &H, alpha: Half, x: Half, y: Half) -> bool {
    call_ensures(*times, (alpha, x), y)
}

/// Scales the entries of the destination.
fn scale_half<H: Fn(Half, Half) -> Half>(
    times: &H,
    p: &Problem<'_, Half>,
    alpha: Half,
    dst: &mut [Half],
)
    requires
        p.wf(old(dst)@.len() as int),
        half_multiplies(times, alpha),
    ensures
        half_scaled_all(*times, *p, alpha, old(dst)@, final(dst)@),
{
    match half_alpha_status(alpha) {
        AlphaStatus::Zero => {
            fill_entries(Half::zero(), dst, p.dst_layout, p.m, p.n);
        },
        AlphaStatus::One => {},
        AlphaStatus::Other => {
            let ghost pre = dst@;
            let scale = |x: Half| -> (y: Half)
                requires
                    half_multiplies(times, alpha),
                ensures
                    half_scaled(times, alpha, x, y),
                { times(alpha, x) };
            map_entries(scale, dst, p.dst_layout, p.m, p.n);
            proof {
                assert forall|i: int, j: int| 0 <= i < p.m && 0 <= j < p.n implies call_ensures(
                    *times,
                    (alpha, pre[#[trigger] p.dst_layout.index(i, j)]),
                    dst@[p.dst_layout.index(i, j)],
                ) by {
                    assert(half_scaled(
                        times,
                        alpha,
                        pre[p.dst_layout.index(i, j)],
                        dst@[p.dst_layout.index(i, j)],
                    ));
                }
            }
        },
    }
}

/// The sizes of the blocks that a product is computed in, with tiles of `nr` columns.
pub open spec fn half_blocking(
    n: usize,
    nr: int,
    parallelism: Parallelism,
    tuned: KernelParams,
) -> Blocking {
    crate::tuning::with_columns(tuned@, n as int, nr, parallelism)
}

/// How a product is computed block by block, with tiles of `mr` by `nr` entries: both operands are
/// packed.
pub open spec fn half_scheme<'a, C>(
    n: usize,
    lanes: usize,
    mr: usize,
    nr: usize,
    parallelism: Parallelism,
    thresholds: ThresholdValues,
    tuned: KernelParams,
) -> Scheme<'a, C> {
    Scheme {
        blocking: half_blocking(n, nr as int, parallelism, tuned),
        lanes,
        mr,
        nr,
        lhs_direct: None,
        rhs_direct: None,
        parallelism,
        thresholds,
    }
}

/// What is needed to compute a product block by block.
pub open spec fn half_blocks_ready<
    C,
    F: for <'a>Fn(KernelCall<'a, C>) -> Vec<C>,
    const NR: usize,
    const MR_DIV_N: usize,
>(
    p: Problem<Half>,
    zero: C,
    dispatcher: [[F; NR]; MR_DIV_N],
    lanes: int,
    mr: int,
    parallelism: Parallelism,
    thresholds: ThresholdValues,
    tuned: KernelParams,
) -> bool {
    let blocking = half_blocking(p.n, NR as int, parallelism, tuned);
    &&& 0 < lanes
    &&& mr == MR_DIV_N * lanes
    &&& 0 < mr <= isize::MAX
    &&& 0 < NR <= isize::MAX
    &&& crate::kernel::kernels_ready(dispatcher, lanes, mr, crate::merge::asked_alone(zero))
    &&& blocking.wf(mr, NR as int, true)
    &&& blocking.work_counts(p.m as int, p.n as int, p.k as int, parallelism)
    &&& parallelism is Rayon ==> thresholds.threading > 0
}

/// What is needed to compute a product in single precision.
pub open spec fn mixed_ready<
    W: Fn(Half) -> Single,
    R: for <'a>Fn(&'a [Half]) -> Vec<Single>,
    P: Fn(Single) -> Half,
    A: Fn(Single, Single) -> Single,
    M: Fn(Single, Single) -> Single,
    H: Fn(Half, Half) -> Half,
    F: for <'a>Fn(KernelCall<'a, Single>) -> Vec<Single>,
    const NR: usize,
    const MR_DIV_N: usize,
>(
    p: Problem<Half>,
    dst_len: int,
    alpha: Half,
    widen: Through<W, R>,
    math: SingleMath<P, A, M>,
    half_times: H,
    dispatcher: [[F; NR]; MR_DIV_N],
    lanes: int,
    mr: int,
    parallelism: Parallelism,
    thresholds: ThresholdValues,
    tuned: KernelParams,
) -> bool {
    &&& p.wf(dst_len)
    &&& p.m > 0 && p.n > 0 && p.k == 0 ==> half_multiplies(&half_times, alpha)
    &&& p.m > 0 && p.n > 0 && p.k > 0 ==> crate::convert::through_ready::<Half, Single, W, R>(
        widen,
    ) && single_math_ready(math)
        && half_blocks_ready(
        p,
        Single::zero_value(),
        dispatcher,
        lanes,
        mr,
        parallelism,
        thresholds,
        tuned,
    )
}

/// What is needed to compute a product in half precision.
pub open spec fn pure_ready<
    A: Fn(Half, Half) -> Half,
    M: Fn(Half, Half) -> Half,
    F: for <'a>Fn(KernelCall<'a, Half>) -> Vec<Half>,
    const NR: usize,
    const MR_DIV_N: usize,
>(
    p: Problem<Half>,
    dst_len: int,
    math: HalfMath<A, M>,
    dispatcher: [[F; NR]; MR_DIV_N],
    lanes: int,
    mr: int,
    parallelism: Parallelism,
    thresholds: ThresholdValues,
    tuned: KernelParams,
) -> bool {
    &&& p.wf(dst_len)
    &&& p.m > 0 && p.n > 0 ==> half_math_ready(math)
    &&& p.m > 0 && p.n > 0 && p.k > 0 ==> half_blocks_ready(
        p,
        Half::zero_value(),
        dispatcher,
        lanes,
        mr,
        parallelism,
        thresholds,
        tuned,
    )
}

/// What the destination is scaled by: zero if it is not to be read.
pub open spec fn alpha_used(read_dst: bool, alpha: Half) -> Half {
    if read_dst {
        alpha
    } else {
        Half::zero_value()
    }
}

/// The destination goes from `pre` to `post` by the product, computed in single precision.
pub open spec fn mixed_multiplied<
    W: Fn(Half) -> Single,
    R: for <'a>Fn(&'a [Half]) -> Vec<Single>,
    P: Fn(Single) -> Half,
    A: Fn(Single, Single) -> Single,
    M: Fn(Single, Single) -> Single,
    H: Fn(Half, Half) -> Half,
    F: for <'a>Fn(KernelCall<'a, Single>) -> Vec<Single>,
    const NR: usize,
    const MR_DIV_N: usize,
>(
    p: Problem<Half>,
    alpha: Half,
    beta: Half,
    widen: Through<W, R>,
    math: SingleMath<P, A, M>,
    half_times: H,
    dispatcher: [[F; NR]; MR_DIV_N],
    scheme: Scheme<Single>,
    pre: Seq<Half>,
    post: Seq<Half>,
) -> bool {
    if p.m == 0 || p.n == 0 {
        post == pre
    } else if p.k == 0 {
        half_scaled_all(half_times, p, alpha, pre, post)
    } else {
        exists|wide_alpha: Single, wide_beta: Single|
            {
                &&& #[trigger] call_ensures(widen.one, (alpha,), wide_alpha)
                &&& #[trigger] call_ensures(widen.one, (beta,), wide_beta)
                &&& crate::blocked::accumulated(
                    p,
                    widen,
                    MergeStep {
                        dispatcher: &dispatcher,
                        lanes: scheme.lanes,
                        mr: scheme.mr,
                        merge: &Mixed { widen: &widen, math: &math, alpha: wide_alpha },
                        zero: Single::zero_value(),
                        beta: wide_beta,
                    },
                    scheme,
                    pre,
                    post,
                )
            }
    }
}

/// The destination goes from `pre` to `post` by the product, computed in half precision.
pub open spec fn pure_multiplied<
    A: Fn(Half, Half) -> Half,
    M: Fn(Half, Half) -> Half,
    F: for <'a>Fn(KernelCall<'a, Half>) -> Vec<Half>,
    const NR: usize,
    const MR_DIV_N: usize,
>(
    p: Problem<Half>,
    alpha: Half,
    beta: Half,
    math: HalfMath<A, M>,
    dispatcher: [[F; NR]; MR_DIV_N],
    scheme: Scheme<Half>,
    pre: Seq<Half>,
    post: Seq<Half>,
) -> bool {
    if p.m == 0 || p.n == 0 {
        post == pre
    } else if p.k == 0 {
        half_scaled_all(math.times, p, alpha, pre, post)
    } else {
        crate::blocked::accumulated(
            p,
            Keep,
            MergeStep {
                dispatcher: &dispatcher,
                lanes: scheme.lanes,
                mr: scheme.mr,
                merge: &Pure { math: &math, alpha },
                zero: Half::zero_value(),
                beta,
            },
            scheme,
            pre,
            post,
        )
    }
}

/// Computes `dst = alpha * dst + beta * lhs * rhs` in single precision, where `dst` has `m` rows
/// and `n` columns and the operands are `k` deep. With `read_dst` unset, `alpha` counts as zero.
///
/// `widen` and `math` compute in single precision, `half_times` multiplies in half precision.
/// `dispatcher` holds the kernels, by the number of vectors of `N` rows and by the number of
/// columns of a tile. `tuned` are the block sizes; no number of columns stands for one that
/// depends on `parallelism`.
pub fn gemm_basic_generic<
    W: Fn(Half) -> Single + Sync,
    R: for <'a>Fn(&'a [Half]) -> Vec<Single> + Sync,
    P: Fn(Single) -> Half + Sync,
    A: Fn(Single, Single) -> Single + Sync,
    M: Fn(Single, Single) -> Single + Sync,
    H: Fn(Half, Half) -> Half,
    F: for <'a>Fn(KernelCall<'a, Single>) -> Vec<Single> + Sync,
    const N: usize,
    const MR: usize,
    const NR: usize,
    const MR_DIV_N: usize,
>(
    m: usize,
    n: usize,
    k: usize,
    dst: &mut [Half],
    dst_layout: Layout,
    read_dst: bool,
    lhs: &[Half],
    lhs_layout: Layout,
    rhs: &[Half],
    rhs_layout: Layout,
    alpha: Half,
    beta: Half,
    widen: &Through<W, R>,
    math: &SingleMath<P, A, M>,
    half_times: &H,
    dispatcher: &[[F; NR]; MR_DIV_N],
    parallelism: Parallelism,
    thresholds: &Thresholds,
    tuned: KernelParams,
)
    requires
        mixed_ready(
            crate::gemm::problem(m, n, k, dst_layout, lhs, lhs_layout, rhs, rhs_layout),
            old(dst)@.len() as int,
            alpha_used(read_dst, alpha),
            *widen,
            *math,
            *half_times,
            *dispatcher,
            N as int,
            MR as int,
            parallelism,
            thresholds@,
            tuned,
        ),
    ensures
        mixed_multiplied(
            crate::gemm::problem(m, n, k, dst_layout, lhs, lhs_layout, rhs, rhs_layout),
            alpha_used(read_dst, alpha),
            beta,
            *widen,
            *math,
            *half_times,
            *dispatcher,
            half_scheme(n, N, MR, NR, parallelism, thresholds@, tuned),
            old(dst)@,
            final(dst)@,
        ),
{
    if m == 0 || n == 0 {
        return;
    }
    let alpha = if read_dst {
        alpha
    } else {
        Half::zero()
    };
    let p = Problem { m, n, k, lhs, lhs_layout, rhs, rhs_layout, dst_layout };
    if k == 0 {
        scale_half(half_times, &p, alpha, dst);
        return;
    }
    proof {
        vstd::arithmetic::div_mod::lemma_mod_multiples_basic(MR_DIV_N as int, N as int);
    }
    let params = fill_columns(tuned, n, NR, parallelism);
    let wide_alpha = (widen.one)(alpha);
    let wide_beta = (widen.one)(beta);
    let merge = Mixed { widen, math, alpha: wide_alpha };
    let step = MergeStep {
        dispatcher,
        lanes: N,
        mr: MR,
        merge: &merge,
        zero: Single::zero(),
        beta: wide_beta,
    };
    let plan = Plan {
        problem: p,
        conv: widen,
        step: &step,
        zero: Single::zero(),
        params,
        lhs_direct: None,
        rhs_direct: None,
        parallelism,
        thresholds,
    };
    multiply_blocked::<
        Half,
        Single,
        Through<W, R>,
        MergeStep<'_, Single, Mixed<'_, W, R, P, A, M>, F, NR, MR_DIV_N>,
        N,
        MR,
        NR,
    >(&plan, dst);
}

/// Computes `dst = alpha * dst + beta * lhs * rhs` in half precision, where `dst` has `m` rows and
/// `n` columns and the operands are `k` deep. With `read_dst` unset, `alpha` counts as zero.
///
/// `dispatcher` holds the kernels, by the number of vectors of `N` rows and by the number of
/// columns of a tile. `tuned` are the block sizes; no number of columns stands for one that
/// depends on `parallelism`.
pub fn gemm_basic_f16<
    A: Fn(Half, Half) -> Half + Sync,
    M: Fn(Half, Half) -> Half + Sync,
    F: for <'a>Fn(KernelCall<'a, Half>) -> Vec<Half> + Sync,
    const N: usize,
    const MR: usize,
    const NR: usize,
    const MR_DIV_N: usize,
>(
    m: usize,
    n: usize,
    k: usize,
    dst: &mut [Half],
    dst_layout: Layout,
    read_dst: bool,
    lhs: &[Half],
    lhs_layout: Layout,
    rhs: &[Half],
    rhs_layout: Layout,
    alpha: Half,
    beta: Half,
    math: &HalfMath<A, M>,
    dispatcher: &[[F; NR]; MR_DIV_N],
    parallelism: Parallelism,
    thresholds: &Thresholds,
    tuned: KernelParams,
)
    requires
        pure_ready(
            crate::gemm::problem(m, n, k, dst_layout, lhs, lhs_layout, rhs, rhs_layout),
            old(dst)@.len() as int,
            *math,
            *dispatcher,
            N as int,
            MR as int,
            parallelism,
            thresholds@,
            tuned,
        ),
    ensures
        pure_multiplied(
            crate::gemm::problem(m, n, k, dst_layout, lhs, lhs_layout, rhs, rhs_layout),
            alpha_used(read_dst, alpha),
            beta,
            *math,
            *dispatcher,
            half_scheme(n, N, MR, NR, parallelism, thresholds@, tuned),
            old(dst)@,
            final(dst)@,
        ),
{
    if m == 0 || n == 0 {
        return;
    }
    let alpha = if read_dst {
        alpha
    } else {
        Half::zero()
    };
    let p = Problem { m, n, k, lhs, lhs_layout, rhs, rhs_layout, dst_layout };
    if k == 0 {
        scale_half(&math.times, &p, alpha, dst);
        return;
    }
    proof {
        vstd::arithmetic::div_mod::lemma_mod_multiples_basic(MR_DIV_N as int, N as int);
    }
    let params = fill_columns(tuned, n, NR, parallelism);
    let merge = Pure { math, alpha };
    let step = MergeStep {
        dispatcher,
        lanes: N,
        mr: MR,
        merge: &merge,
        zero: Half::zero(),
        beta,
    };
    let plan = Plan {
        problem: p,
        conv: &Keep,
        step: &step,
        zero: Half::zero(),
        params,
        lhs_direct: None,
        rhs_direct: None,
        parallelism,
        thresholds,
    };
    multiply_blocked::<
        Half,
        Half,
        Keep,
        MergeStep<'_, Half, Pure<'_, A, M>, F, NR, MR_DIV_N>,
        N,
        MR,
        NR,
    >(&plan, dst);
}

/// The fastest of the kernels for half precision numbers that a machine can run. The kernels for
/// `Neon` compute in half precision.
pub open spec fn best_half_set(arch: Arch, f: Features) -> KernelSet {
    if arch is Aarch64 && !f.fp16 || arch is Wasm32 {
        KernelSet::Scalar
    } else {
        crate::arch::best_set(arch, f)
    }
}

/// Picks the kernels for half precision numbers.
pub fn init_gemm_fn(arch: Arch, f: Features) -> (set: KernelSet)
    ensures
        set == best_half_set(arch, f),
{
    match arch {
        Arch::X86 | Arch::X86_64 => intel_set(f),
        Arch::Aarch64 => if f.fp16 && f.neon {
            KernelSet::Neon
        } else {
            KernelSet::Scalar
        },
        _ => KernelSet::Scalar,
    }
}

/// Number of rows that one vector register holds, for the kernels for half precision numbers. There
/// are none for `Simd128`.
pub open spec fn half_lanes(set: KernelSet) -> int
    recommends
        !(set is Simd128),
{
    match set {
        KernelSet::Scalar => 1,
        KernelSet::Sse => 4,
        KernelSet::Avx => 8,
        KernelSet::Fma => 8,
        KernelSet::Avx512f => 16,
        KernelSet::Neon => 8,
        KernelSet::Simd128 => 1,
    }
}

/// Number of rows that one vector register holds, for the kernels for half precision numbers.
pub fn lanes_of(set: KernelSet) -> (r: usize)
    requires
        !(set is Simd128),
    ensures
        r == half_lanes(set),
{
    match set {
        KernelSet::Scalar | KernelSet::Simd128 => scalar::N,
        KernelSet::Sse => sse::N,
        KernelSet::Avx => avx::N,
        KernelSet::Fma => fma::N,
        KernelSet::Avx512f => avx512f::N,
        KernelSet::Neon => neon::N,
    }
}

} // verus!
