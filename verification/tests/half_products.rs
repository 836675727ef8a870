use gemm::arch::KernelSet;
use gemm::convert::Through;
use gemm::half_precision;
use gemm::half_precision::gemm_basic_f16;
use gemm::half_precision::gemm_basic_generic;
use gemm::half_precision::half_alpha_status;
use gemm::half_precision::pack_lhs;
use gemm::half_precision::pack_lhs_f16;
use gemm::half_precision::pack_rhs;
use gemm::half_precision::pack_rhs_f16;
use gemm::half_precision::HalfMath;
use gemm::half_precision::SingleMath;
use gemm::kernel::AlphaStatus;
use gemm::kernel::KernelCall;
use gemm::layout::Layout;
use gemm::parallel::Parallelism;
use gemm::scalar::Half;
use gemm::scalar::Single;
use gemm::thresholds::set_threading_threshold;
use gemm::thresholds::Thresholds;
use gemm::tuning::KernelParams;
use half::f16;
use half::slice::HalfFloatSliceExt;

const N: usize = 2;
const MR: usize = 4;
const NR: usize = 3;
const MR_DIV_N: usize = 2;

fn half(x: f32) -> Half {
    Half { bits: f16::from_f32(x).to_bits() }
}

fn wide(x: Half) -> f32 {
    f16::from_bits(x.bits).to_f32()
}

fn single(x: f32) -> Single {
    Single { bits: x.to_bits() }
}

fn float(x: Single) -> f32 {
    f32::from_bits(x.bits)
}

fn widen_one(x: Half) -> Single {
    single(wide(x))
}

fn widen_run(src: &[Half]) -> Vec<Single> {
    let values: Vec<f16> = src.iter().map(|x| f16::from_bits(x.bits)).collect();
    let mut out = vec![0.0f32; values.len()];
    values.convert_to_f32_slice(&mut out);
    out.into_iter().map(single).collect()
}

fn narrow(x: Single) -> Half {
    half(float(x))
}

fn plus(x: Single, y: Single) -> Single {
    single(float(x) + float(y))
}

fn times(x: Single, y: Single) -> Single {
    single(float(x) * float(y))
}

fn half_plus(x: Half, y: Half) -> Half {
    Half { bits: (f16::from_bits(x.bits) + f16::from_bits(y.bits)).to_bits() }
}

fn half_times(x: Half, y: Half) -> Half {
    Half { bits: (f16::from_bits(x.bits) * f16::from_bits(y.bits)).to_bits() }
}

fn at(layout: Layout, i: usize, j: usize) -> usize {
    (layout.at as isize + i as isize * layout.rs + j as isize * layout.cs) as usize
}

fn columns(rows: usize) -> Layout {
    Layout { at: 0, rs: 1, cs: rows as isize }
}

fn rows(cols: usize) -> Layout {
    Layout { at: 0, rs: cols as isize, cs: 1 }
}

fn single_kernel(call: KernelCall<'_, Single>) -> Vec<Single> {
    assert_eq!(call.alpha_status, AlphaStatus::Zero);
    assert!(!call.conj_dst && !call.conj_lhs && !call.conj_rhs);
    assert!(call.dst.iter().all(|x| x.bits == 0));
    let mut out = call.dst.clone();
    for c in 0..call.n {
        for r in 0..call.m {
            let mut acc = 0.0f32;
            for d in 0..call.k {
                acc += float(call.lhs[at(call.lhs_layout, r, d)])
                    * float(call.rhs[at(call.rhs_layout, d, c)]);
            }
            out[c * call.m + r] = single(float(call.beta) * acc);
        }
    }
    out
}

fn half_kernel(call: KernelCall<'_, Half>) -> Vec<Half> {
    assert_eq!(call.alpha_status, AlphaStatus::Zero);
    let mut out = call.dst.clone();
    for c in 0..call.n {
        for r in 0..call.m {
            let mut acc = half(0.0);
            for d in 0..call.k {
                let term = half_times(
                    call.lhs[at(call.lhs_layout, r, d)],
                    call.rhs[at(call.rhs_layout, d, c)],
                );
                acc = half_plus(acc, term);
            }
            out[c * call.m + r] = half_times(call.beta, acc);
        }
    }
    out
}

fn numbers(len: usize, seed: usize) -> Vec<Half> {
    (0..len).map(|i| half(((i * 5 + seed * 3 + i / 4) % 7) as f32 - 3.0)).collect()
}

fn tuned() -> KernelParams {
    KernelParams { kc: 5, mc: 8, nc: 6 }
}

fn expected(
    m: usize,
    n: usize,
    k: usize,
    dst: &[Half],
    lhs: &[Half],
    lhs_layout: Layout,
    rhs: &[Half],
    rhs_layout: Layout,
    alpha: f32,
    beta: f32,
) -> Vec<f32> {
    let mut out: Vec<f32> = dst.iter().map(|x| wide(*x)).collect();
    for j in 0..n {
        for i in 0..m {
            let mut acc = 0.0f32;
            for d in 0..k {
                acc += wide(lhs[at(lhs_layout, i, d)]) * wide(rhs[at(rhs_layout, d, j)]);
            }
            out[j * m + i] = alpha * out[j * m + i] + beta * acc;
        }
    }
    out
}

fn mixed(
    m: usize,
    n: usize,
    k: usize,
    dst: &mut [Half],
    read_dst: bool,
    lhs: &[Half],
    lhs_layout: Layout,
    rhs: &[Half],
    rhs_layout: Layout,
    alpha: f32,
    beta: f32,
    parallelism: Parallelism,
) {
    let mut t = Thresholds::new();
    set_threading_threshold(&mut t, 1);
    gemm_basic_generic::<_, _, _, _, _, _, _, N, MR, NR, MR_DIV_N>(
        m,
        n,
        k,
        dst,
        columns(m),
        read_dst,
        lhs,
        lhs_layout,
        rhs,
        rhs_layout,
        half(alpha),
        half(beta),
        &Through { one: widen_one, run: widen_run },
        &SingleMath { narrow, plus, times },
        &half_times,
        &[[single_kernel; NR]; MR_DIV_N],
        parallelism,
        &t,
        tuned(),
    );
}

fn pure(
    m: usize,
    n: usize,
    k: usize,
    dst: &mut [Half],
    read_dst: bool,
    lhs: &[Half],
    rhs: &[Half],
    alpha: f32,
    beta: f32,
    parallelism: Parallelism,
) {
    let mut t = Thresholds::new();
    set_threading_threshold(&mut t, 1);
    gemm_basic_f16::<_, _, _, N, MR, NR, MR_DIV_N>(
        m,
        n,
        k,
        dst,
        columns(m),
        read_dst,
        lhs,
        rows(k),
        rhs,
        columns(k),
        half(alpha),
        half(beta),
        &HalfMath { plus: half_plus, times: half_times },
        &[[half_kernel; NR]; MR_DIV_N],
        parallelism,
        &t,
        tuned(),
    );
}

#[test]
fn mixed_product() {
    let (m, n, k) = (11, 13, 12);
    let lhs = numbers(m * k, 1);
    let rhs = numbers(k * n, 2);
    for (alpha, read_dst) in [(0.0, true), (1.0, true), (0.5, true), (9.0, false)] {
        for parallelism in [Parallelism::Serial, Parallelism::Rayon(3), Parallelism::Rayon(0)] {
            for (l, r) in [(columns(m), columns(k)), (rows(k), rows(n))] {
                let mut dst = numbers(m * n, 3);
                let used = if read_dst { alpha } else { 0.0 };
                let want = expected(m, n, k, &dst, &lhs, l, &rhs, r, used, 2.0);
                mixed(m, n, k, &mut dst, read_dst, &lhs, l, &rhs, r, alpha, 2.0, parallelism);
                let got: Vec<f32> = dst.iter().map(|x| wide(*x)).collect();
                assert_eq!(got, want);
            }
        }
    }
}

#[test]
fn mixed_product_rounds_between_blocks() {
    // 2048 + 1 is not a half precision number: the second block is lost
    let lhs = vec![half(1.0); 6];
    let mut rhs = vec![half(0.0); 6];
    rhs[0] = half(2048.0);
    rhs[5] = half(1.0);
    let mut dst = vec![half(0.0)];
    mixed(
        1, 1, 6, &mut dst, true, &lhs, columns(1), &rhs, columns(6), 1.0, 1.0, Parallelism::Serial,
    );
    assert_eq!(wide(dst[0]), 2048.0);
    // in one block the sum is rounded once: step by step, every addition of one would be lost
    rhs[1] = half(1.0);
    rhs[2] = half(1.0);
    rhs[5] = half(0.0);
    let mut dst = vec![half(0.0)];
    mixed(
        1, 1, 6, &mut dst, true, &lhs, columns(1), &rhs, columns(6), 1.0, 1.0, Parallelism::Serial,
    );
    assert_eq!(wide(dst[0]), 2050.0);
    let mut dst = vec![half(0.0)];
    pure(1, 1, 6, &mut dst, true, &lhs, &rhs, 1.0, 1.0, Parallelism::Serial);
    assert_eq!(wide(dst[0]), 2048.0);
}

#[test]
fn pure_product() {
    let (m, n, k) = (11, 13, 12);
    let lhs = numbers(m * k, 1);
    let rhs = numbers(k * n, 2);
    for (alpha, read_dst) in [(0.0, true), (1.0, true), (0.5, true), (9.0, false)] {
        for parallelism in [Parallelism::Serial, Parallelism::Rayon(2)] {
            let mut dst = numbers(m * n, 3);
            let used = if read_dst { alpha } else { 0.0 };
            let want = expected(m, n, k, &dst, &lhs, rows(k), &rhs, columns(k), used, 2.0);
            pure(m, n, k, &mut dst, read_dst, &lhs, &rhs, alpha, 2.0, parallelism);
            let got: Vec<f32> = dst.iter().map(|x| wide(*x)).collect();
            assert_eq!(got, want);
        }
    }
}

#[test]
fn products_without_depth_scale() {
    let start = vec![half(1.0), half(-2.0), half(7.0)];
    let l = columns(2);
    let mut dst = start.clone();
    mixed(2, 1, 0, &mut dst, true, &[], l, &[], l, 3.0, 1.0, Parallelism::Serial);
    assert_eq!(dst, vec![half(3.0), half(-6.0), half(7.0)]);
    let mut dst = start.clone();
    mixed(2, 1, 0, &mut dst, true, &[], l, &[], l, 1.0, 1.0, Parallelism::Serial);
    assert_eq!(dst, start);
    let mut dst = start.clone();
    mixed(2, 1, 0, &mut dst, false, &[], l, &[], l, 3.0, 1.0, Parallelism::Serial);
    assert_eq!(dst, vec![half(0.0), half(0.0), half(7.0)]);
    let mut dst = start.clone();
    pure(2, 1, 0, &mut dst, true, &[], &[], -0.0, 1.0, Parallelism::Serial);
    assert_eq!(dst, vec![half(0.0), half(0.0), half(7.0)]);
    let mut dst = start.clone();
    pure(2, 1, 0, &mut dst, true, &[], &[], 0.5, 1.0, Parallelism::Serial);
    assert_eq!(dst, vec![half(0.5), half(-1.0), half(7.0)]);
    let mut dst = start.clone();
    pure(0, 1, 0, &mut dst, true, &[], &[], 0.5, 1.0, Parallelism::Serial);
    mixed(2, 0, 0, &mut dst, true, &[], l, &[], l, 3.0, 1.0, Parallelism::Serial);
    assert_eq!(dst, start);
}

#[test]
fn every_set_of_kernels_multiplies() {
    let (m, n, k) = (9, 4, 6);
    let lhs = numbers(m * k, 1);
    let rhs = numbers(k * n, 2);
    let start = numbers(m * n, 3);
    let want = expected(m, n, k, &start, &lhs, columns(m), &rhs, columns(k), 2.0, 1.0);
    let widen = Through { one: widen_one, run: widen_run };
    let math = SingleMath { narrow, plus, times };
    let t = Thresholds::new();
    let read = |dst: &Vec<Half>| -> Vec<f32> { dst.iter().map(|x| wide(*x)).collect() };

    let mut dst = start.clone();
    half_precision::scalar::gemm_basic::<_, _, _, _, _, _, _, 2, 3, 2>(
        m, n, k, &mut dst, columns(m), true, &lhs, columns(m), &rhs, columns(k), half(2.0),
        half(1.0), true, true, true, &widen, &math, &half_times, &[[single_kernel; 3]; 2],
        Parallelism::Serial, &t, KernelParams { kc: 4, mc: 4, nc: 3 },
    );
    assert_eq!(read(&dst), want);

    let mut dst = start.clone();
    half_precision::sse::gemm_basic::<_, _, _, _, _, _, _, 8, 3, 2>(
        m, n, k, &mut dst, columns(m), true, &lhs, columns(m), &rhs, columns(k), half(2.0),
        half(1.0), true, true, true, &widen, &math, &half_times, &[[single_kernel; 3]; 2],
        Parallelism::Serial, &t, KernelParams { kc: 4, mc: 8, nc: 3 },
    );
    assert_eq!(read(&dst), want);

    let mut dst = start.clone();
    half_precision::avx::gemm_basic::<_, _, _, _, _, _, _, 16, 3, 2>(
        m, n, k, &mut dst, columns(m), true, &lhs, columns(m), &rhs, columns(k), half(2.0),
        half(1.0), true, true, true, &widen, &math, &half_times, &[[single_kernel; 3]; 2],
        Parallelism::Serial, &t, KernelParams { kc: 4, mc: 16, nc: 3 },
    );
    assert_eq!(read(&dst), want);

    let mut dst = start.clone();
    half_precision::fma::gemm_basic::<_, _, _, _, _, _, _, 16, 3, 2>(
        m, n, k, &mut dst, columns(m), true, &lhs, columns(m), &rhs, columns(k), half(2.0),
        half(1.0), true, true, true, &widen, &math, &half_times, &[[single_kernel; 3]; 2],
        Parallelism::Serial, &t, KernelParams { kc: 4, mc: 16, nc: 3 },
    );
    assert_eq!(read(&dst), want);

    let mut dst = start.clone();
    half_precision::avx512f::gemm_basic::<_, _, _, _, _, _, _, 32, 3, 2>(
        m, n, k, &mut dst, columns(m), true, &lhs, columns(m), &rhs, columns(k), half(2.0),
        half(1.0), true, true, true, &widen, &math, &half_times, &[[single_kernel; 3]; 2],
        Parallelism::Serial, &t, KernelParams { kc: 4, mc: 32, nc: 3 },
    );
    assert_eq!(read(&dst), want);

    let mut dst = start.clone();
    half_precision::neon::gemm_basic::<_, _, _, 16, 3, 2>(
        m, n, k, &mut dst, columns(m), true, &lhs, columns(m), &rhs, columns(k), half(2.0),
        half(1.0), true, true, true, &HalfMath { plus: half_plus, times: half_times },
        &[[half_kernel; 3]; 2], Parallelism::Serial, &t, KernelParams { kc: 4, mc: 16, nc: 3 },
    );
    assert_eq!(read(&dst), want);

    assert_eq!(half_precision::scalar::N, 1);
    assert_eq!(half_precision::sse::N, 4);
    assert_eq!(half_precision::avx::N, 8);
    assert_eq!(half_precision::fma::N, 8);
    assert_eq!(half_precision::avx512f::N, 16);
    assert_eq!(half_precision::neon::N, 8);
}

#[test]
fn packed_left_operand_is_widened() {
    // five rows in panels of four: one full panel and one row
    let (m, k) = (5, 3);
    let src = numbers(m * k, 1);
    let widen = Through { one: widen_one, run: widen_run };
    for layout in [columns(m), rows(k)] {
        let mut dst = vec![single(99.0); 26];
        pack_lhs::<_, _, 2, 4>(&widen, m, k, &mut dst, &src, layout, 13);
        for i in 0..m {
            for d in 0..k {
                let got = dst[i / 4 * 13 + d * 4 + i % 4];
                assert_eq!(float(got), wide(src[at(layout, i, d)]));
            }
        }
        // one row is neither one nor two vectors: the rest of the panel is zero
        assert_eq!(float(dst[13 + 1]), 0.0);
        // the gap between the panels is not touched
        assert_eq!(float(dst[12]), 99.0);
        assert_eq!(float(dst[25]), 99.0);
    }
}

#[test]
fn packed_vector_leaves_the_rest_of_its_panel() {
    let src = numbers(2 * 3, 1);
    let mut dst = vec![half(99.0); 12];
    pack_lhs_f16::<2, 4>(2, 3, &mut dst, &src, columns(2), 12);
    for d in 0..3 {
        assert_eq!(dst[d * 4], src[d * 2]);
        assert_eq!(dst[d * 4 + 1], src[d * 2 + 1]);
        assert_eq!(dst[d * 4 + 2], half(99.0));
        assert_eq!(dst[d * 4 + 3], half(99.0));
    }
}

#[test]
fn packed_right_operand() {
    let (n, k) = (4, 3);
    let src = numbers(n * k, 1);
    let widen = Through { one: widen_one, run: widen_run };
    for layout in [columns(k), rows(n)] {
        let mut dst = vec![single(99.0); 18];
        pack_rhs::<_, _, 1, 3>(&widen, n, k, &mut dst, &src, layout, 9);
        let mut same = vec![half(99.0); 18];
        pack_rhs_f16::<1, 3>(n, k, &mut same, &src, layout, 9);
        for j in 0..n {
            for d in 0..k {
                let q = j / 3 * 9 + d * 3 + j % 3;
                assert_eq!(float(dst[q]), wide(src[at(layout, d, j)]));
                assert_eq!(same[q], src[at(layout, d, j)]);
            }
        }
    }
}

#[test]
fn half_statuses() {
    assert_eq!(half_alpha_status(half(0.0)), AlphaStatus::Zero);
    assert_eq!(half_alpha_status(half(-0.0)), AlphaStatus::Zero);
    assert_eq!(half_alpha_status(half(1.0)), AlphaStatus::One);
    assert_eq!(half_alpha_status(half(2.0)), AlphaStatus::Other);
    assert_eq!(half_alpha_status(half(f32::NAN)), AlphaStatus::Other);
    assert!(!half(f32::NAN).eq_value(half(f32::NAN)));
    assert!(half(f32::INFINITY).eq_value(half(f32::INFINITY)));
    assert!(half(0.0).eq_value(half(-0.0)));
    assert!(!half(1.0).eq_value(half(-1.0)));
}

#[test]
fn unread_half_destination_may_hold_anything() {
    let (m, n, k) = (5, 4, 12);
    let lhs = numbers(m * k, 1);
    let rhs = numbers(k * n, 2);
    let l = rows(k);
    let r = columns(k);
    for (alpha, read_dst) in [(0.0, true), (-0.0, true), (3.0, false)] {
        let mut first = vec![half(f32::NAN); m * n];
        let mut second = numbers(m * n, 3);
        let serial = Parallelism::Serial;
        mixed(m, n, k, &mut first, read_dst, &lhs, l, &rhs, r, alpha, 1.0, serial);
        mixed(m, n, k, &mut second, read_dst, &lhs, l, &rhs, r, alpha, 1.0, serial);
        assert_eq!(first, second);
        let mut first = vec![half(f32::INFINITY); m * n];
        let mut second = numbers(m * n, 3);
        pure(m, n, k, &mut first, read_dst, &lhs, &rhs, alpha, 1.0, serial);
        pure(m, n, k, &mut second, read_dst, &lhs, &rhs, alpha, 1.0, serial);
        assert_eq!(first, second);
    }
    let mut dst = vec![half(7.0)];
    mixed(0, 1, 9, &mut dst, false, &[], l, &[], r, 1.0, 1.0, Parallelism::Serial);
    pure(1, 0, 9, &mut dst, false, &[], &[], 1.0, 1.0, Parallelism::Serial);
    assert_eq!(dst, vec![half(7.0)]);
}

fn watching_kernel(call: KernelCall<'_, Single>) -> Vec<Single> {
    assert_eq!(call.next_lhs, call.lhs_layout.at + tuned().kc * MR);
    assert!(call.next_lhs <= call.lhs.len());
    single_kernel(call)
}

#[test]
fn kernels_are_told_where_the_next_rows_are() {
    let (m, n, k) = (7, 5, 12);
    let lhs = numbers(m * k, 1);
    let rhs = numbers(k * n, 2);
    let mut dst = numbers(m * n, 3);
    let want = expected(m, n, k, &dst, &lhs, columns(m), &rhs, columns(k), 1.0, 1.0);
    gemm_basic_generic::<_, _, _, _, _, _, _, N, MR, NR, MR_DIV_N>(
        m,
        n,
        k,
        &mut dst,
        columns(m),
        true,
        &lhs,
        columns(m),
        &rhs,
        columns(k),
        half(1.0),
        half(1.0),
        &Through { one: widen_one, run: widen_run },
        &SingleMath { narrow, plus, times },
        &half_times,
        &[[watching_kernel; NR]; MR_DIV_N],
        Parallelism::Serial,
        &Thresholds::new(),
        tuned(),
    );
    let got: Vec<f32> = dst.iter().map(|x| wide(*x)).collect();
    assert_eq!(got, want);
}

#[test]
fn precisions_agree_on_small_numbers() {
    // all sums stay below the largest integer that half precision holds
    let (m, n, k) = (7, 5, 12);
    let lhs = numbers(m * k, 1);
    let rhs = numbers(k * n, 2);
    let start = numbers(m * n, 3);
    for alpha in [0.0, 1.0, 2.0] {
        let mut by_single = start.clone();
        let mut by_half = start.clone();
        let serial = Parallelism::Serial;
        mixed(
            m, n, k, &mut by_single, true, &lhs, rows(k), &rhs, columns(k), alpha, 2.0, serial,
        );
        pure(m, n, k, &mut by_half, true, &lhs, &rhs, alpha, 2.0, serial);
        let single_values: Vec<f32> = by_single.iter().map(|x| wide(*x)).collect();
        let half_values: Vec<f32> = by_half.iter().map(|x| wide(*x)).collect();
        assert_eq!(single_values, half_values);
    }
}

#[test]
fn half_product_is_that_of_its_columns() {
    let (m, n, k) = (7, 5, 12);
    let lhs = numbers(m * k, 1);
    let rhs = numbers(k * n, 2);
    let start = numbers(m * n, 3);
    let mut together = start.clone();
    pure(m, n, k, &mut together, true, &lhs, &rhs, 2.0, 1.0, Parallelism::Serial);
    for cut in [1, 2, 4] {
        let mut apart = start.clone();
        let (left, right) = apart.split_at_mut(m * cut);
        pure(m, cut, k, left, true, &lhs, &rhs[..k * cut], 2.0, 1.0, Parallelism::Serial);
        pure(m, n - cut, k, right, true, &lhs, &rhs[k * cut..], 2.0, 1.0, Parallelism::Serial);
        assert_eq!(apart, together);
    }
}

#[test]
fn single_panel_may_be_longer_than_its_distance() {
    // three rows fit one panel, so that no second one follows at any distance
    let (m, k) = (3, 5);
    let lhs = numbers(m * k, 1);
    let mut packed = vec![single(9.0); k * MR];
    pack_lhs::<_, _, N, MR>(
        &Through { one: widen_one, run: widen_run },
        m,
        k,
        &mut packed,
        &lhs,
        columns(m),
        0,
    );
    for d in 0..k {
        for r in 0..m {
            assert_eq!(float(packed[d * MR + r]), wide(lhs[d * m + r]));
        }
    }
}

#[test]
fn every_set_has_its_lanes() {
    assert_eq!(half_precision::lanes_of(KernelSet::Scalar), 1);
    assert_eq!(half_precision::lanes_of(KernelSet::Sse), 4);
    assert_eq!(half_precision::lanes_of(KernelSet::Avx), 8);
    assert_eq!(half_precision::lanes_of(KernelSet::Fma), 8);
    assert_eq!(half_precision::lanes_of(KernelSet::Avx512f), 16);
    assert_eq!(half_precision::lanes_of(KernelSet::Neon), 8);
}
