use gemm::arch::Arch;
use gemm::arch::Machine;
use gemm::gemm::alpha_status;
use gemm::gemm::choose_route;
use gemm::gemm::gemm_basic_generic;
use gemm::gemm::ProductCall;
use gemm::gemm::Route;
use gemm::kernel::AlphaStatus;
use gemm::kernel::KernelCall;
use gemm::layout::Layout;
use gemm::parallel::Parallelism;
use gemm::scalar::c32;
use gemm::scalar::Conj;
use gemm::scalar::Number;
use gemm::scalar::Single;
use gemm::thresholds::set_lhs_packing_threshold_multi_thread;
use gemm::thresholds::set_lhs_packing_threshold_single_thread;
use gemm::thresholds::set_rhs_packing_threshold;
use gemm::thresholds::set_threading_threshold;
use gemm::thresholds::Thresholds;
use gemm::tuning::KernelParams;

const N: usize = 2;
const MR: usize = 6;
const NR: usize = 4;
const MR_DIV_N: usize = 3;

fn single(x: f32) -> Single {
    Single { bits: x.to_bits() }
}

fn float(x: Single) -> f32 {
    f32::from_bits(x.bits)
}

fn singles(values: &[f32]) -> Vec<Single> {
    values.iter().map(|x| single(*x)).collect()
}

fn floats(values: &[Single]) -> Vec<f32> {
    values.iter().map(|x| float(*x)).collect()
}

fn at(layout: Layout, i: usize, j: usize) -> usize {
    (layout.at as isize + i as isize * layout.rs + j as isize * layout.cs) as usize
}

fn times(x: Single, y: Single) -> Single {
    single(float(x) * float(y))
}

fn kernel(call: KernelCall<'_, Single>) -> Vec<Single> {
    assert!(0 < call.m && call.m <= MR);
    assert!(0 < call.n && call.n <= NR);
    assert_eq!(call.lhs_layout.rs, 1);
    assert_eq!(call.dst.len(), call.m * call.n);
    // whole vectors of rows are readable
    let whole = (call.m + N - 1) / N * N;
    for d in 0..call.k {
        for r in 0..whole {
            let _ = call.lhs[at(call.lhs_layout, r, d)];
        }
    }
    let mut out = call.dst.clone();
    for c in 0..call.n {
        for r in 0..call.m {
            let mut acc = 0.0f32;
            for d in 0..call.k {
                acc += float(call.lhs[at(call.lhs_layout, r, d)])
                    * float(call.rhs[at(call.rhs_layout, d, c)]);
            }
            let old = float(call.dst[c * call.m + r]);
            let update = float(call.beta) * acc;
            out[c * call.m + r] = single(match call.alpha_status {
                AlphaStatus::Zero => update,
                AlphaStatus::One => old + update,
                AlphaStatus::Other => float(call.alpha) * old + update,
            });
        }
    }
    out
}

fn whole(call: ProductCall<'_, Single>) -> Vec<Single> {
    let mut out = call.dst.clone();
    for c in 0..call.n {
        for r in 0..call.m {
            let mut acc = 0.0f32;
            for d in 0..call.k {
                acc += float(call.lhs[at(call.lhs_layout, r, d)])
                    * float(call.rhs[at(call.rhs_layout, d, c)]);
            }
            let old = float(call.dst[c * call.m + r]);
            let start = if float(call.alpha) == 0.0 { 0.0 } else { float(call.alpha) * old };
            out[c * call.m + r] = single(start + float(call.beta) * acc);
        }
    }
    out
}

fn refuse(_call: ProductCall<'_, Single>) -> Vec<Single> {
    panic!("not on this route")
}

fn refuse_tile(_call: KernelCall<'_, Single>) -> Vec<Single> {
    panic!("not on this route")
}

fn machine() -> Machine {
    Machine { arch: Arch::X86_64, l2_bytes: 256 * 1024 }
}

fn tuned() -> KernelParams {
    KernelParams { kc: 7, mc: 12, nc: 8 }
}

fn numbers(len: usize, seed: usize) -> Vec<f32> {
    (0..len).map(|i| ((i * 7 + seed * 5 + i / 3) % 11) as f32 - 5.0).collect()
}

#[allow(clippy::too_many_arguments)]
fn expected(
    m: usize,
    n: usize,
    k: usize,
    dst: &[f32],
    dst_layout: Layout,
    read_dst: bool,
    lhs: &[f32],
    lhs_layout: Layout,
    rhs: &[f32],
    rhs_layout: Layout,
    alpha: f32,
    beta: f32,
) -> Vec<f32> {
    let mut out = dst.to_vec();
    for j in 0..n {
        for i in 0..m {
            let mut acc = 0.0f32;
            for d in 0..k {
                acc += lhs[at(lhs_layout, i, d)] * rhs[at(rhs_layout, d, j)];
            }
            let q = at(dst_layout, i, j);
            let old = if read_dst { alpha * dst[q] } else { 0.0 };
            out[q] = old + beta * acc;
        }
    }
    out
}

#[allow(clippy::too_many_arguments)]
fn check(
    m: usize,
    n: usize,
    k: usize,
    dst_layout: Layout,
    dst_len: usize,
    read_dst: bool,
    lhs_layout: Layout,
    rhs_layout: Layout,
    alpha: f32,
    beta: f32,
    parallelism: Parallelism,
    thresholds: &Thresholds,
    params: KernelParams,
) -> Vec<f32> {
    let lhs = numbers(4 * m * k + 1, 1);
    let rhs = numbers(4 * k * n + 1, 2);
    let start = numbers(dst_len, 3);
    let want = expected(
        m, n, k, &start, dst_layout, read_dst, &lhs, lhs_layout, &rhs, rhs_layout, alpha, beta,
    );
    let lhs = singles(&lhs);
    let rhs = singles(&rhs);
    let mut dst = singles(&start);
    gemm_basic_generic::<Single, _, _, _, _, N, MR, NR, MR_DIV_N>(
        m,
        n,
        k,
        &mut dst,
        dst_layout,
        read_dst,
        &lhs,
        lhs_layout,
        &rhs,
        rhs_layout,
        single(alpha),
        single(beta),
        false,
        false,
        false,
        times,
        whole,
        whole,
        &[[kernel; NR]; MR_DIV_N],
        parallelism,
        thresholds,
        machine(),
        params,
    );
    let got = floats(&dst);
    assert_eq!(got, want);
    got
}

fn columns(rows: usize) -> Layout {
    Layout { at: 0, rs: 1, cs: rows as isize }
}

fn rows(cols: usize) -> Layout {
    Layout { at: 0, rs: cols as isize, cs: 1 }
}

#[test]
fn large_product_on_one_thread() {
    let t = Thresholds::new();
    check(
        67, 70, 30, columns(67), 67 * 70 + 3, true, columns(67), columns(30), 2.0, 3.0,
        Parallelism::Serial, &t, tuned(),
    );
}

#[test]
fn large_product_of_row_major_operands() {
    let t = Thresholds::new();
    check(
        67, 70, 30, rows(70), 67 * 70, true, rows(30), rows(70), 1.0, 1.0,
        Parallelism::Serial, &t, tuned(),
    );
}

#[test]
fn large_product_with_negative_strides() {
    let t = Thresholds::new();
    let dst = Layout { at: 67 * 70 - 1, rs: -1, cs: -67 };
    let lhs = Layout { at: 29 * 67, rs: 1, cs: -67 };
    let rhs = Layout { at: 29, rs: -1, cs: 30 };
    check(
        67, 70, 30, dst, 67 * 70, true, lhs, rhs, -1.0, 2.0, Parallelism::Serial, &t, tuned(),
    );
}

#[test]
fn large_product_on_three_threads() {
    let mut t = Thresholds::new();
    set_threading_threshold(&mut t, 1);
    check(
        67, 70, 30, columns(67), 67 * 70, true, columns(67), columns(30), 2.0, 3.0,
        Parallelism::Rayon(3), &t, tuned(),
    );
}

#[test]
fn large_product_on_all_threads_of_the_pool() {
    let mut t = Thresholds::new();
    set_threading_threshold(&mut t, 1);
    check(
        67, 70, 30, rows(70), 67 * 70, false, columns(67), rows(70), 2.0, 3.0,
        Parallelism::Rayon(0), &t, tuned(),
    );
}

#[test]
fn more_threads_than_tiles() {
    let mut t = Thresholds::new();
    set_threading_threshold(&mut t, 1);
    check(
        66, 3, 9, columns(66), 66 * 3, true, rows(9), rows(3), 1.0, 1.0,
        Parallelism::Rayon(100), &t, tuned(),
    );
}

#[test]
fn number_of_threads_does_not_change_the_result() {
    let mut t = Thresholds::new();
    set_threading_threshold(&mut t, 5);
    let mut seen: Vec<Vec<f32>> = Vec::new();
    for parallelism in [
        Parallelism::Serial,
        Parallelism::Rayon(1),
        Parallelism::Rayon(2),
        Parallelism::Rayon(5),
        Parallelism::Rayon(16),
    ] {
        seen.push(check(
            65, 33, 20, columns(65), 65 * 33, true, columns(65), columns(20), 0.5, 1.0,
            parallelism, &t, tuned(),
        ));
    }
    for other in &seen {
        assert_eq!(*other, seen[0]);
    }
}

#[test]
fn packing_does_not_change_the_result() {
    let mut seen: Vec<Vec<f32>> = Vec::new();
    for packing in [0, 1, 256] {
        let mut t = Thresholds::new();
        set_rhs_packing_threshold(&mut t, packing);
        set_lhs_packing_threshold_single_thread(&mut t, packing);
        set_lhs_packing_threshold_multi_thread(&mut t, packing);
        seen.push(check(
            72, 40, 20, columns(72), 72 * 40, true, columns(72), columns(20), 1.0, 2.0,
            Parallelism::Serial, &t, tuned(),
        ));
    }
    assert_eq!(seen[1], seen[0]);
    assert_eq!(seen[2], seen[0]);
}

#[test]
fn small_product_takes_its_own_block_sizes() {
    let t = Thresholds::new();
    let unused = KernelParams { kc: 0, mc: 0, nc: 0 };
    check(
        13, 9, 600, columns(13), 13 * 9, true, columns(13), columns(600), 1.0, 1.0,
        Parallelism::Serial, &t, unused,
    );
}

#[test]
fn missing_number_of_columns_is_filled_in() {
    let t = Thresholds::new();
    let params = KernelParams { kc: 7, mc: 12, nc: 0 };
    check(
        66, 70, 11, columns(66), 66 * 70, true, columns(66), columns(11), 1.0, 1.0,
        Parallelism::Serial, &t, params,
    );
    check(
        66, 70, 11, columns(66), 66 * 70, true, columns(66), columns(11), 1.0, 1.0,
        Parallelism::Rayon(2), &t, params,
    );
}

#[test]
fn destination_that_is_not_read_may_hold_anything() {
    let t = Thresholds::new();
    let lhs = singles(&numbers(70 * 9, 1));
    let rhs = singles(&numbers(9 * 5, 2));
    let mut dst = vec![single(f32::NAN); 70 * 5];
    gemm_basic_generic::<Single, _, _, _, _, N, MR, NR, MR_DIV_N>(
        70,
        5,
        9,
        &mut dst,
        columns(70),
        false,
        &lhs,
        columns(70),
        &rhs,
        columns(9),
        single(7.0),
        single(1.0),
        false,
        false,
        false,
        times,
        refuse,
        refuse,
        &[[kernel; NR]; MR_DIV_N],
        Parallelism::Serial,
        &t,
        machine(),
        tuned(),
    );
    for x in floats(&dst) {
        assert!(x.is_finite());
    }
}

#[test]
fn shallow_product_is_a_sum_of_outer_products() {
    let t = Thresholds::new();
    for k in [1, 2] {
        check(
            5, 6, k, columns(5), 30, true, columns(5), columns(k), 2.0, 3.0,
            Parallelism::Serial, &t, tuned(),
        );
    }
}

#[test]
fn single_column_and_single_row() {
    let t = Thresholds::new();
    check(
        7, 1, 5, columns(7), 7, true, columns(7), columns(5), 2.0, 3.0,
        Parallelism::Serial, &t, tuned(),
    );
    check(
        1, 7, 5, columns(1), 7, true, rows(5), rows(7), 2.0, 3.0,
        Parallelism::Serial, &t, tuned(),
    );
}

fn run_without_kernels(
    m: usize,
    n: usize,
    k: usize,
    dst: &mut [Single],
    read_dst: bool,
    alpha: f32,
) {
    gemm_basic_generic::<Single, _, _, _, _, N, MR, NR, MR_DIV_N>(
        m,
        n,
        k,
        dst,
        columns(m),
        read_dst,
        &[],
        columns(m),
        &[],
        columns(k),
        single(alpha),
        single(1.0),
        false,
        false,
        false,
        times,
        refuse,
        refuse,
        &[[refuse_tile; NR]; MR_DIV_N],
        Parallelism::Serial,
        &Thresholds::new(),
        machine(),
        tuned(),
    );
}

#[test]
fn empty_destination_is_left_alone() {
    let mut dst = singles(&[1.0, 2.0, 3.0]);
    run_without_kernels(0, 3, 0, &mut dst, true, 5.0);
    run_without_kernels(3, 0, 0, &mut dst, false, 5.0);
    // the operands are not looked at
    run_without_kernels(0, 3, 5, &mut dst, false, 5.0);
    run_without_kernels(3, 0, 5, &mut dst, false, 5.0);
    assert_eq!(floats(&dst), vec![1.0, 2.0, 3.0]);
}

#[test]
fn product_without_depth_scales_the_destination() {
    let start = singles(&[1.0, -2.0, 3.0, 4.0, 9.0]);
    let mut dst = start.clone();
    run_without_kernels(2, 2, 0, &mut dst, true, 2.0);
    assert_eq!(floats(&dst), vec![2.0, -4.0, 6.0, 8.0, 9.0]);
    let mut dst = start.clone();
    run_without_kernels(2, 2, 0, &mut dst, true, 1.0);
    assert_eq!(floats(&dst), vec![1.0, -2.0, 3.0, 4.0, 9.0]);
    let mut dst = start.clone();
    run_without_kernels(2, 2, 0, &mut dst, true, -0.0);
    assert_eq!(dst, singles(&[0.0, 0.0, 0.0, 0.0, 9.0]));
    let mut dst = start.clone();
    run_without_kernels(2, 2, 0, &mut dst, false, 2.0);
    assert_eq!(dst, singles(&[0.0, 0.0, 0.0, 0.0, 9.0]));
}

fn complex(re: f32, im: f32) -> c32 {
    c32 { re: single(re), im: single(im) }
}

fn complex_times(x: c32, y: c32) -> c32 {
    let (a, b) = (float(x.re), float(x.im));
    let (c, d) = (float(y.re), float(y.im));
    complex(a * c - b * d, a * d + b * c)
}

fn complex_plus(x: c32, y: c32) -> c32 {
    complex(float(x.re) + float(y.re), float(x.im) + float(y.im))
}

fn conj_if(flag: bool, x: c32) -> c32 {
    if flag {
        x.conj()
    } else {
        x
    }
}

fn complex_kernel(call: KernelCall<'_, c32>) -> Vec<c32> {
    let mut out = call.dst.clone();
    for c in 0..call.n {
        for r in 0..call.m {
            let mut acc = c32::zero();
            for d in 0..call.k {
                let x = conj_if(call.conj_lhs, call.lhs[at(call.lhs_layout, r, d)]);
                let y = conj_if(call.conj_rhs, call.rhs[at(call.rhs_layout, d, c)]);
                acc = complex_plus(acc, complex_times(x, y));
            }
            let old = conj_if(call.conj_dst, call.dst[c * call.m + r]);
            let update = complex_times(call.beta, acc);
            out[c * call.m + r] = match call.alpha_status {
                AlphaStatus::Zero => update,
                AlphaStatus::One => complex_plus(old, update),
                AlphaStatus::Other => complex_plus(complex_times(call.alpha, old), update),
            };
        }
    }
    out
}

fn refuse_complex(_call: ProductCall<'_, c32>) -> Vec<c32> {
    panic!("not on this route")
}

fn complex_numbers(len: usize, seed: usize) -> Vec<c32> {
    let re = numbers(len, seed);
    let im = numbers(len, seed + 4);
    re.iter().zip(im.iter()).map(|(a, b)| complex(*a, *b)).collect()
}

#[test]
fn conjugated_product_of_complex_numbers() {
    let (m, n, k) = (5, 3, 20);
    let lhs = complex_numbers(m * k, 1);
    let rhs = complex_numbers(k * n, 2);
    let start = complex_numbers(m * n, 3);
    let alpha = complex(1.0, -2.0);
    let beta = complex(0.0, 1.0);
    for flags in 1..8 {
        let (cd, cl, cr) = (flags & 1 != 0, flags & 2 != 0, flags & 4 != 0);
        let mut dst = start.clone();
        gemm_basic_generic::<c32, _, _, _, _, N, MR, NR, MR_DIV_N>(
            m,
            n,
            k,
            &mut dst,
            columns(m),
            true,
            &lhs,
            columns(m),
            &rhs,
            columns(k),
            alpha,
            beta,
            cd,
            cl,
            cr,
            complex_times,
            refuse_complex,
            refuse_complex,
            &[[complex_kernel; NR]; MR_DIV_N],
            Parallelism::Serial,
            &Thresholds::new(),
            // room for one tile of rows
            Machine { arch: Arch::Aarch64, l2_bytes: 8 * MR * 20 },
            tuned(),
        );
        for j in 0..n {
            for i in 0..m {
                let mut acc = c32::zero();
                for d in 0..k {
                    acc = complex_plus(
                        acc,
                        complex_times(conj_if(cl, lhs[d * m + i]), conj_if(cr, rhs[j * k + d])),
                    );
                }
                let old = complex_times(alpha, conj_if(cd, start[j * m + i]));
                let want = complex_plus(old, complex_times(beta, acc));
                let got = dst[j * m + i];
                assert_eq!(float(got.re), float(want.re));
                assert_eq!(float(got.im), float(want.im));
            }
        }
    }
}

#[test]
fn scaling_conjugates_on_demand() {
    let mut dst = vec![complex(1.0, 2.0), complex(3.0, -4.0)];
    gemm_basic_generic::<c32, _, _, _, _, N, MR, NR, MR_DIV_N>(
        2,
        1,
        0,
        &mut dst,
        columns(2),
        true,
        &[],
        columns(2),
        &[],
        columns(0),
        complex(1.0, 0.0),
        complex(1.0, 0.0),
        true,
        false,
        false,
        complex_times,
        refuse_complex,
        refuse_complex,
        &[[complex_kernel; NR]; MR_DIV_N],
        Parallelism::Serial,
        &Thresholds::new(),
        machine(),
        tuned(),
    );
    assert_eq!(float(dst[0].re), 1.0);
    assert_eq!(float(dst[0].im), -2.0);
    assert_eq!(float(dst[1].re), 3.0);
    assert_eq!(float(dst[1].im), 4.0);
}

#[test]
fn routes() {
    let l = columns(8);
    assert_eq!(choose_route(0, 5, 5, l, l, false), Route::Nothing);
    assert_eq!(choose_route(5, 0, 5, l, l, true), Route::Nothing);
    assert_eq!(choose_route(5, 5, 0, l, l, true), Route::Scale);
    assert_eq!(choose_route(5, 5, 2, l, l, false), Route::Outer);
    assert_eq!(choose_route(5, 5, 2, l, l, true), Route::Blocked);
    assert_eq!(choose_route(5, 5, 3, l, l, false), Route::Blocked);
    assert_eq!(choose_route(5, 1, 3, l, l, false), Route::Vector);
    assert_eq!(choose_route(1, 5, 3, l, l, false), Route::Blocked);
    assert_eq!(choose_route(1, 5, 3, l, rows(8), false), Route::TransposedVector);
    assert_eq!(choose_route(1, 1, 3, rows(8), l, false), Route::Blocked);
    let negative = Layout { at: 0, rs: -8, cs: 1 };
    assert_eq!(choose_route(1, 5, 3, l, negative, false), Route::TransposedVector);
    assert_eq!(choose_route(5, 1, 3, negative, l, false), Route::Blocked);
    let extreme = Layout { at: 0, rs: isize::MIN, cs: isize::MAX };
    assert_eq!(choose_route(5, 1, 3, extreme, l, false), Route::Blocked);
    assert_eq!(choose_route(1, 5, 3, l, extreme, false), Route::TransposedVector);
}

#[test]
fn statuses() {
    assert_eq!(alpha_status(single(0.0)), AlphaStatus::Zero);
    assert_eq!(alpha_status(single(-0.0)), AlphaStatus::Zero);
    assert_eq!(alpha_status(single(1.0)), AlphaStatus::One);
    assert_eq!(alpha_status(single(-1.0)), AlphaStatus::Other);
    assert_eq!(alpha_status(single(f32::NAN)), AlphaStatus::Other);
    assert_eq!(alpha_status(complex(0.0, -0.0)), AlphaStatus::Zero);
    assert_eq!(alpha_status(complex(1.0, -0.0)), AlphaStatus::One);
    assert_eq!(alpha_status(complex(1.0, 1.0)), AlphaStatus::Other);
}

fn packed_kernel(call: KernelCall<'_, Single>) -> Vec<Single> {
    assert_eq!((call.lhs_layout.rs, call.lhs_layout.cs), (1, MR as isize));
    assert_eq!((call.rhs_layout.rs, call.rhs_layout.cs), (NR as isize, 1));
    // the panel below follows, also where it is not filled
    assert_eq!(call.next_lhs, call.lhs_layout.at + tuned().kc * MR);
    assert_eq!(call.lhs.len(), tuned().kc * tuned().mc);
    kernel(call)
}

fn in_place_kernel(call: KernelCall<'_, Single>) -> Vec<Single> {
    assert_eq!((call.lhs_layout.rs, call.lhs_layout.cs), (1, 72));
    assert_eq!((call.rhs_layout.rs, call.rhs_layout.cs), (1, 20));
    assert_eq!(floats(call.lhs), numbers(72 * 20, 1));
    assert_eq!(floats(call.rhs), numbers(20 * 40, 2));
    // the rows below the tile
    assert_eq!(call.next_lhs, call.lhs_layout.at + call.m);
    kernel(call)
}

fn run_with<F: Fn(KernelCall<'_, Single>) -> Vec<Single> + Copy + Sync>(
    kernel: F,
    packing: usize,
) -> Vec<f32> {
    let mut t = Thresholds::new();
    set_rhs_packing_threshold(&mut t, packing);
    set_lhs_packing_threshold_single_thread(&mut t, packing);
    let lhs = singles(&numbers(72 * 20, 1));
    let rhs = singles(&numbers(20 * 40, 2));
    let mut dst = singles(&numbers(72 * 40, 3));
    gemm_basic_generic::<Single, _, _, _, _, N, MR, NR, MR_DIV_N>(
        72,
        40,
        20,
        &mut dst,
        columns(72),
        true,
        &lhs,
        columns(72),
        &rhs,
        columns(20),
        single(1.0),
        single(1.0),
        false,
        false,
        false,
        times,
        refuse,
        refuse,
        &[[kernel; NR]; MR_DIV_N],
        Parallelism::Serial,
        &t,
        machine(),
        tuned(),
    );
    floats(&dst)
}

#[test]
fn thresholds_decide_where_kernels_read() {
    assert_eq!(run_with(packed_kernel, 0), run_with(in_place_kernel, 256));
}

fn shifted_columns(rows: usize, by: usize) -> Layout {
    Layout { at: rows * by, rs: 1, cs: rows as isize }
}

#[test]
fn product_is_that_of_its_columns() {
    let (m, n, k) = (67, 70, 30);
    let lhs = singles(&numbers(m * k, 1));
    let rhs = singles(&numbers(k * n, 2));
    let start = singles(&numbers(m * n, 3));
    let run = |dst: &mut Vec<Single>, first: usize, width: usize| {
        gemm_basic_generic::<Single, _, _, _, _, N, MR, NR, MR_DIV_N>(
            m,
            width,
            k,
            dst,
            shifted_columns(m, first),
            true,
            &lhs,
            columns(m),
            &rhs,
            shifted_columns(k, first),
            single(2.0),
            single(3.0),
            false,
            false,
            false,
            times,
            whole,
            whole,
            &[[kernel; NR]; MR_DIV_N],
            Parallelism::Serial,
            &Thresholds::new(),
            machine(),
            tuned(),
        );
    };
    let mut together = start.clone();
    run(&mut together, 0, n);
    for cut in [0, 1, 29, 69, 70] {
        let mut apart = start.clone();
        run(&mut apart, 0, cut);
        run(&mut apart, cut, n - cut);
        assert_eq!(apart, together);
    }
}

#[test]
fn product_is_that_of_its_rows_and_of_its_depth() {
    let (m, n, k) = (67, 70, 30);
    let lhs = singles(&numbers(m * k, 1));
    let rhs = singles(&numbers(k * n, 2));
    let start = singles(&numbers(m * n, 3));
    // the rows and the depth of the part
    let run = |dst: &mut Vec<Single>, row: usize, rows: usize, depth: usize, k1: usize, alpha: f32| {
        gemm_basic_generic::<Single, _, _, _, _, N, MR, NR, MR_DIV_N>(
            rows,
            n,
            k1,
            dst,
            Layout { at: row, rs: 1, cs: m as isize },
            true,
            &lhs,
            Layout { at: row + depth * m, rs: 1, cs: m as isize },
            &rhs,
            Layout { at: depth, rs: 1, cs: k as isize },
            single(alpha),
            single(3.0),
            false,
            false,
            false,
            times,
            whole,
            whole,
            &[[kernel; NR]; MR_DIV_N],
            Parallelism::Serial,
            &Thresholds::new(),
            machine(),
            tuned(),
        );
    };
    let mut together = start.clone();
    run(&mut together, 0, m, 0, k, 2.0);
    for cut in [1, 6, 41] {
        let mut apart = start.clone();
        run(&mut apart, 0, cut, 0, k, 2.0);
        run(&mut apart, cut, m - cut, 0, k, 2.0);
        assert_eq!(apart, together);
    }
    for cut in [0, 1, 7, 20, 29] {
        let mut apart = start.clone();
        run(&mut apart, 0, m, 0, cut, 2.0);
        run(&mut apart, 0, m, cut, k - cut, 1.0);
        assert_eq!(apart, together);
    }
}

#[test]
fn transposed_product_is_the_product() {
    let (m, n, k) = (67, 70, 30);
    let lhs = singles(&numbers(m * k, 1));
    let rhs = singles(&numbers(k * n, 2));
    let start = singles(&numbers(m * n, 3));
    let run = |dst: &mut Vec<Single>, transposed: bool| {
        let (rows_of, cols_of, l, l_layout, r, r_layout, d_layout) = if transposed {
            (n, m, &rhs, rows(k), &lhs, rows(m), rows(m))
        } else {
            (m, n, &lhs, columns(m), &rhs, columns(k), columns(m))
        };
        gemm_basic_generic::<Single, _, _, _, _, N, MR, NR, MR_DIV_N>(
            rows_of,
            cols_of,
            k,
            dst,
            d_layout,
            true,
            l,
            l_layout,
            r,
            r_layout,
            single(2.0),
            single(3.0),
            false,
            false,
            false,
            times,
            whole,
            whole,
            &[[kernel; NR]; MR_DIV_N],
            Parallelism::Serial,
            &Thresholds::new(),
            machine(),
            tuned(),
        );
    };
    let mut straight = start.clone();
    let mut transposed = start.clone();
    run(&mut straight, false);
    run(&mut transposed, true);
    assert_eq!(straight, transposed);
}
