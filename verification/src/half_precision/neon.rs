//! Products of half precision numbers with the kernels for Neon, which compute in half precision.

use crate::half_precision::gemm_basic_f16;
use crate::half_precision::HalfMath;
use crate::kernel::KernelCall;
use crate::layout::Layout;
use crate::parallel::Parallelism;
use crate::scalar::Half;
use crate::thresholds::Thresholds;
use crate::tuning::KernelParams;
use vstd::prelude::*;

verus! {

/// Number of rows that one vector register holds.
pub const N: usize = 8;

/// Computes `dst = alpha * dst + beta * lhs * rhs` in half precision. Half precision numbers are
/// real, so that conjugation does nothing.
pub fn gemm_basic<
    A: Fn(Half, Half) -> Half + Sync,
    M: Fn(Half, Half) -> Half + Sync,
    F: for <'a>Fn(KernelCall<'a, Half>) -> Vec<Half> + Sync,
    const MR: usize,
    const NR: usize,
    const MR_DIV_N: usize,
>(
    m: usize,
    n: usize,
    k: usize,
    dst: &mut [Half],
    dst_layout: Layout,
    read_dst: bool,
    lhs: &[Half],
    lhs_layout: Layout,
    rhs: &[Half],
    rhs_layout: Layout,
    alpha: Half,
    beta: Half,
    _conj_dst: bool,
    _conj_lhs: bool,
    _conj_rhs: bool,
    math: &HalfMath<A, M>,
    dispatcher: &[[F; NR]; MR_DIV_N],
    parallelism: Parallelism,
    thresholds: &Thresholds,
    tuned: KernelParams,
)
    requires
        crate::half_precision::pure_ready(
            crate::gemm::problem(m, n, k, dst_layout, lhs, lhs_layout, rhs, rhs_layout),
            old(dst)@.len() as int,
            *math,
            *dispatcher,
            N as int,
            MR as int,
            parallelism,
            thresholds@,
            tuned,
        ),
    ensures
        crate::half_precision::pure_multiplied(
            crate::gemm::problem(m, n, k, dst_layout, lhs, lhs_layout, rhs, rhs_layout),
            crate::half_precision::alpha_used(read_dst, alpha),
            beta,
            *math,
            *dispatcher,
            crate::half_precision::half_scheme(n, N, MR, NR, parallelism, thresholds@, tuned),
            old(dst)@,
            final(dst)@,
        ),
{
    gemm_basic_f16::<A, M, F, N, MR, NR, MR_DIV_N>(
        m,
        n,
        k,
        dst,
        dst_layout,
        read_dst,
        lhs,
        lhs_layout,
        rhs,
        rhs_layout,
        alpha,
        beta,
        math,
        dispatcher,
        parallelism,
        thresholds,
        tuned,
    );
}

} // verus!
