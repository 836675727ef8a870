//! Products of half precision numbers with the kernels for AVX-512.

use crate::convert::Through;
use crate::half_precision::gemm_basic_generic;
use crate::half_precision::SingleMath;
use crate::kernel::KernelCall;
use crate::layout::Layout;
use crate::parallel::Parallelism;
use crate::scalar::Half;
use crate::scalar::Single;
use crate::thresholds::Thresholds;
use crate::tuning::KernelParams;
use vstd::prelude::*;

verus! {

/// Number of rows that one vector register holds.
pub const N: usize = 16;

/// Computes `dst = alpha * dst + beta * lhs * rhs` in single precision. Half precision numbers are
/// real, so that conjugation does nothing.
pub fn gemm_basic<
    W: Fn(Half) -> Single + Sync,
    R: for <'a>Fn(&'a [Half]) -> Vec<Single> + Sync,
    P: Fn(Single) -> Half + Sync,
    A: Fn(Single, Single) -> Single + Sync,
    M: Fn(Single, Single) -> Single + Sync,
    H: Fn(Half, Half) -> Half,
    F: for <'a>Fn(KernelCall<'a, Single>) -> Vec<Single> + Sync,
    const MR: usize,
    const NR: usize,
    const MR_DIV_N: usize,
>(
    m: usize,
    n: usize,
    k: usize,
    dst: &mut [Half],
    dst_layout: Layout,
    read_dst: bool,
    lhs: &[Half],
    lhs_layout: Layout,
    rhs: &[Half],
    rhs_layout: Layout,
    alpha: Half,
    beta: Half,
    _conj_dst: bool,
    _conj_lhs: bool,
    _conj_rhs: bool,
    widen: &Through<W, R>,
    math: &SingleMath<P, A, M>,
    half_times: &H,
    dispatcher: &[[F; NR]; MR_DIV_N],
    parallelism: Parallelism,
    thresholds: &Thresholds,
    tuned: KernelParams,
)
    requires
        crate::half_precision::mixed_ready(
            crate::gemm::problem(m, n, k, dst_layout, lhs, lhs_layout, rhs, rhs_layout),
            old(dst)@.len() as int,
            crate::half_precision::alpha_used(read_dst, alpha),
            *widen,
            *math,
            *half_times,
            *dispatcher,
            N as int,
            MR as int,
            parallelism,
            thresholds@,
            tuned,
        ),
    ensures
        crate::half_precision::mixed_multiplied(
            crate::gemm::problem(m, n, k, dst_layout, lhs, lhs_layout, rhs, rhs_layout),
            crate::half_precision::alpha_used(read_dst, alpha),
            beta,
            *widen,
            *math,
            *half_times,
            *dispatcher,
            crate::half_precision::half_scheme(n, N, MR, NR, parallelism, thresholds@, tuned),
            old(dst)@,
            final(dst)@,
        ),
{
    gemm_basic_generic::<W, R, P, A, M, H, F, N, MR, NR, MR_DIV_N>(
        m,
        n,
        k,
        dst,
        dst_layout,
        read_dst,
        lhs,
        lhs_layout,
        rhs,
        rhs_layout,
        alpha,
        beta,
        widen,
        math,
        half_times,
        dispatcher,
        parallelism,
        thresholds,
        tuned,
    );
}

} // verus!
