use gemm::arch::cacheline_align;
use gemm::arch::complex_lanes;
use gemm::arch::init_gemm_cplx_fn;
use gemm::arch::init_gemm_fn;
use gemm::arch::lanes;
use gemm::arch::Arch;
use gemm::arch::Features;
use gemm::arch::KernelSet;
use gemm::grid::Grid;
use gemm::half_precision;
use gemm::layout::Layout;
use gemm::parallel::par_for_each;
use gemm::parallel::Parallelism;
use gemm::scalar::c32;
use gemm::scalar::c64;
use gemm::scalar::Conj;
use gemm::scalar::Double;
use gemm::scalar::Number;
use gemm::scalar::Single;
use gemm::share::column_start;
use gemm::share::div_ceil;
use gemm::share::share;
use gemm::thresholds::get_lhs_packing_threshold_multi_thread;
use gemm::thresholds::get_lhs_packing_threshold_single_thread;
use gemm::thresholds::get_rhs_packing_threshold;
use gemm::thresholds::get_threading_threshold;
use gemm::thresholds::set_lhs_packing_threshold_multi_thread;
use gemm::thresholds::set_lhs_packing_threshold_single_thread;
use gemm::thresholds::set_rhs_packing_threshold;
use gemm::thresholds::set_threading_threshold;
use gemm::thresholds::Thresholds;
use gemm::tuning::choose_params;
use gemm::tuning::fill_columns;
use gemm::tuning::should_pack_rhs;
use gemm::tuning::thread_count;
use gemm::tuning::threads_for_work;
use gemm::tuning::KernelParams;

#[test]
fn default_thresholds() {
    let t = Thresholds::default();
    assert_eq!(get_threading_threshold(&t), 48 * 48 * 256);
    assert_eq!(get_rhs_packing_threshold(&t), 128);
    assert_eq!(get_lhs_packing_threshold_single_thread(&t), 8);
    assert_eq!(get_lhs_packing_threshold_multi_thread(&t), 16);
}

#[test]
fn thresholds_read_back_what_was_set() {
    let mut t = Thresholds::new();
    set_threading_threshold(&mut t, 1_000_000);
    set_rhs_packing_threshold(&mut t, 5);
    set_lhs_packing_threshold_single_thread(&mut t, 6);
    set_lhs_packing_threshold_multi_thread(&mut t, 256);
    assert_eq!(get_threading_threshold(&t), 1_000_000);
    assert_eq!(get_rhs_packing_threshold(&t), 5);
    assert_eq!(get_lhs_packing_threshold_single_thread(&t), 6);
    assert_eq!(get_lhs_packing_threshold_multi_thread(&t), 256);
}

#[test]
fn packing_thresholds_are_capped() {
    let mut t = Thresholds::new();
    set_rhs_packing_threshold(&mut t, 257);
    set_lhs_packing_threshold_single_thread(&mut t, usize::MAX);
    set_lhs_packing_threshold_multi_thread(&mut t, 1000);
    assert_eq!(get_rhs_packing_threshold(&t), 256);
    assert_eq!(get_lhs_packing_threshold_single_thread(&t), 256);
    assert_eq!(get_lhs_packing_threshold_multi_thread(&t), 256);
    assert_eq!(get_threading_threshold(&t), 48 * 48 * 256);
}

#[test]
fn tasks_run_once_each_and_in_order() {
    assert_eq!(par_for_each(5, |tid| tid * tid), vec![0, 1, 4, 9, 16]);
    assert_eq!(par_for_each(0, |tid| tid), Vec::<usize>::new());
    assert_eq!(par_for_each(1000, |tid| tid).len(), 1000);
}

#[test]
fn threads_follow_the_work() {
    assert_eq!(threads_for_work(8, 100, 100), 1);
    assert_eq!(threads_for_work(8, 101, 100), 1);
    assert_eq!(threads_for_work(8, 299, 100), 2);
    assert_eq!(threads_for_work(8, 298, 100), 1);
    assert_eq!(threads_for_work(8, 5000, 100), 8);
    assert_eq!(threads_for_work(0, 5000, 100), 1);
    assert_eq!(thread_count(Parallelism::Serial, 100, 100, 100, 0), 1);
    assert_eq!(thread_count(Parallelism::Rayon(4), 10, 10, 10, 100), 4);
    assert_eq!(thread_count(Parallelism::Rayon(4), 10, 10, 2, 100), 1);
    assert!(thread_count(Parallelism::Rayon(0), 10, 10, 10, 1) >= 1);
}

#[test]
fn block_sizes() {
    let tuned = KernelParams { kc: 1, mc: 2, nc: 3 };
    let small = choose_params(64, 64, 1000, 6, 4, 4, 1 << 18, tuned);
    assert_eq!(small, KernelParams { kc: 512, mc: 126, nc: 64 });
    let small = choose_params(3, 5, 10, 6, 4, 8, 1 << 18, tuned);
    assert_eq!(small, KernelParams { kc: 10, mc: 3276, nc: 8 });
    assert_eq!(choose_params(65, 64, 10, 6, 4, 8, 1 << 18, tuned), tuned);
    assert_eq!(choose_params(64, 65, 10, 6, 4, 8, 1 << 18, tuned), tuned);

    let open = KernelParams { kc: 1, mc: 2, nc: 0 };
    assert_eq!(fill_columns(tuned, 9, 4, Parallelism::Serial), tuned);
    assert_eq!(fill_columns(open, 9, 4, Parallelism::Serial).nc, 512);
    assert_eq!(fill_columns(open, 9, 4, Parallelism::Rayon(2)).nc, 12);
}

#[test]
fn right_operand_is_packed_when_it_pays() {
    // contiguous rows: only for many tiles on top of one another
    assert!(!should_pack_rhs(false, 1, 512, 4, 128));
    assert!(should_pack_rhs(false, 1, 513, 4, 128));
    assert!(should_pack_rhs(false, -1, 513, 4, 128));
    // other rows: for more than two
    assert!(!should_pack_rhs(false, 5, 8, 4, 128));
    assert!(should_pack_rhs(false, 5, 9, 4, 128));
    assert!(!should_pack_rhs(true, 5, 9, 4, 128));
    assert!(should_pack_rhs(true, 5, 513, 4, 128));
    assert!(!should_pack_rhs(true, 1, usize::MAX, usize::MAX, usize::MAX));
}

#[test]
fn shares_cover_everything_once() {
    for total in 0..20 {
        for parts in 1..7 {
            let mut next = 0;
            for tid in 0..parts {
                let (start, end) = share(total, parts, tid);
                assert_eq!(start, next);
                assert!(end - start == total / parts || end - start == total / parts + 1);
                next = end;
            }
            assert_eq!(next, total);
        }
    }
}

#[test]
fn column_shares_start_with_whole_tiles() {
    assert_eq!(column_start(10, 4, 2, 0), 0);
    assert_eq!(column_start(10, 4, 2, 1), 8);
    assert_eq!(column_start(10, 4, 2, 2), 10);
    assert_eq!(column_start(10, 4, 5, 3), 10);
    assert_eq!(column_start(10, 4, 5, 4), 10);
    assert_eq!(div_ceil(10, 4), 3);
    assert_eq!(div_ceil(8, 4), 2);
    assert_eq!(div_ceil(0, 4), 0);
    assert_eq!(div_ceil(usize::MAX, 2), usize::MAX / 2 + 1);
}

#[test]
fn tiles_cover_every_entry_once() {
    let grid = Grid { m: 11, n: 7, mc: 6, lanes: 2, mr: 4, nr: 3 };
    let n_jobs = grid.count_jobs();
    // panels of 6, 4 and 1 rows
    assert_eq!(n_jobs, 3 * (2 + 1 + 1));
    for n_threads in 1..8 {
        let mut hits = vec![0; 11 * 7];
        for tid in 0..n_threads {
            for tile in grid.thread_tiles(n_jobs, n_threads, tid) {
                assert!(tile.m <= 4 && tile.n <= 3);
                for i in 0..tile.m {
                    for j in 0..tile.n {
                        let row = tile.row_outer + tile.row_inner + i;
                        hits[(tile.col_inner + j) * 11 + row] += 1;
                    }
                }
            }
        }
        assert!(hits.iter().all(|h| *h == 1));
    }
}

#[test]
fn layouts() {
    let l = Layout { at: 10, rs: -2, cs: 3 };
    assert_eq!(l.locate(2, 1), 9);
    assert_eq!(l.transpose().locate(1, 2), 9);
    let s = l.shift(1, 1);
    assert_eq!(s.at, 11);
    assert_eq!(s.locate(1, 0), 9);
}

fn none() -> Features {
    Features {
        sse: false,
        sse2: false,
        avx: false,
        fma: false,
        avx512f: false,
        neon: false,
        fp16: false,
        simd128: false,
        nightly: false,
    }
}

#[test]
fn kernels_are_picked_by_features() {
    let plain = none();
    for arch in [Arch::X86, Arch::X86_64] {
        assert_eq!(init_gemm_fn(arch, plain), KernelSet::Scalar);
        let sse_only = Features { sse: true, ..plain };
        assert_eq!(init_gemm_fn(arch, sse_only), KernelSet::Scalar);
        let sse = Features { sse: true, sse2: true, ..plain };
        assert_eq!(init_gemm_fn(arch, sse), KernelSet::Sse);
        assert_eq!(init_gemm_cplx_fn(arch, sse), KernelSet::Scalar);
        let avx = Features { avx: true, ..sse };
        assert_eq!(init_gemm_fn(arch, avx), KernelSet::Avx);
        assert_eq!(init_gemm_cplx_fn(arch, avx), KernelSet::Scalar);
        let fma = Features { fma: true, ..avx };
        assert_eq!(init_gemm_fn(arch, fma), KernelSet::Fma);
        assert_eq!(init_gemm_cplx_fn(arch, fma), KernelSet::Fma);
        let avx512f = Features { avx512f: true, ..fma };
        assert_eq!(init_gemm_fn(arch, avx512f), KernelSet::Fma);
        let nightly = Features { nightly: true, ..avx512f };
        assert_eq!(init_gemm_fn(arch, nightly), KernelSet::Avx512f);
        assert_eq!(init_gemm_cplx_fn(arch, nightly), KernelSet::Avx512f);
        assert_eq!(half_precision::init_gemm_fn(arch, nightly), KernelSet::Avx512f);
    }
    let neon = Features { neon: true, fma: true, ..plain };
    assert_eq!(init_gemm_fn(Arch::Aarch64, neon), KernelSet::Neon);
    assert_eq!(init_gemm_fn(Arch::Aarch64, plain), KernelSet::Scalar);
    assert_eq!(init_gemm_cplx_fn(Arch::Aarch64, neon), KernelSet::Scalar);
    assert_eq!(half_precision::init_gemm_fn(Arch::Aarch64, neon), KernelSet::Scalar);
    let fp16 = Features { fp16: true, ..neon };
    assert_eq!(half_precision::init_gemm_fn(Arch::Aarch64, fp16), KernelSet::Neon);
    let simd128 = Features { simd128: true, ..plain };
    assert_eq!(init_gemm_fn(Arch::Wasm32, simd128), KernelSet::Simd128);
    assert_eq!(init_gemm_fn(Arch::Wasm32, plain), KernelSet::Scalar);
    assert_eq!(half_precision::init_gemm_fn(Arch::Wasm32, simd128), KernelSet::Scalar);
    assert_eq!(init_gemm_fn(Arch::S390x, fp16), KernelSet::Scalar);
}

#[test]
fn vector_registers() {
    assert_eq!(lanes(KernelSet::Scalar, 2), 1);
    assert_eq!(lanes(KernelSet::Sse, 2), 4);
    assert_eq!(lanes(KernelSet::Avx, 2), 8);
    assert_eq!(lanes(KernelSet::Fma, 1), 4);
    assert_eq!(lanes(KernelSet::Avx512f, 2), 16);
    assert_eq!(lanes(KernelSet::Neon, 1), 2);
    assert_eq!(lanes(KernelSet::Simd128, 2), 4);
    assert_eq!(complex_lanes(KernelSet::Scalar, 2), 1);
    assert_eq!(complex_lanes(KernelSet::Fma, 2), 4);
    assert_eq!(complex_lanes(KernelSet::Avx512f, 1), 4);
}

#[test]
fn alignments() {
    assert_eq!(cacheline_align(Arch::X86_64), 128);
    assert_eq!(cacheline_align(Arch::Aarch64), 128);
    assert_eq!(cacheline_align(Arch::Powerpc64), 128);
    assert_eq!(cacheline_align(Arch::Arm), 32);
    assert_eq!(cacheline_align(Arch::Mips), 32);
    assert_eq!(cacheline_align(Arch::Mips64), 32);
    assert_eq!(cacheline_align(Arch::Riscv64), 32);
    assert_eq!(cacheline_align(Arch::S390x), 256);
    assert_eq!(cacheline_align(Arch::X86), 64);
    assert_eq!(cacheline_align(Arch::Wasm32), 64);
    assert_eq!(cacheline_align(Arch::Other), 64);
}

#[test]
fn conjugation() {
    let x = Single { bits: 1.5f32.to_bits() };
    let y = Single { bits: 2.5f32.to_bits() };
    assert_eq!(x.conj(), x);
    let z = c32 { re: x, im: y };
    assert_eq!(z.conj().re, x);
    assert_eq!(f32::from_bits(z.conj().im.bits), -2.5);
    assert_eq!(z.conj().conj(), z);
    let d = Double { bits: 0.0f64.to_bits() };
    assert_eq!(d.conj(), d);
    let w = c64 { re: d, im: d };
    assert!(f64::from_bits(w.conj().im.bits).is_sign_negative());
    assert_eq!(w.conj().conj(), w);
}

#[test]
fn zeros_and_ones() {
    assert_eq!(f32::from_bits(Single::zero().bits), 0.0);
    assert_eq!(f32::from_bits(Single::one().bits), 1.0);
    assert_eq!(f64::from_bits(Double::zero().bits), 0.0);
    assert_eq!(f64::from_bits(Double::one().bits), 1.0);
    assert!(Single { bits: (-0.0f32).to_bits() }.is_zero());
    assert!(!Single { bits: f32::MIN_POSITIVE.to_bits() }.is_zero());
    assert!(Double { bits: (-0.0f64).to_bits() }.is_zero());
    assert!(!Double { bits: f64::NAN.to_bits() }.is_one());
    assert!(c32::zero().is_zero());
    assert!(c64::one().is_one());
    assert!(!c64::one().is_zero());
    assert_eq!(Single::byte_size(), std::mem::size_of::<Single>());
    assert_eq!(Double::byte_size(), std::mem::size_of::<Double>());
    assert_eq!(c32::byte_size(), std::mem::size_of::<c32>());
    assert_eq!(c64::byte_size(), std::mem::size_of::<c64>());
}

#[test]
fn numbers_without_imaginary_part_equal_their_conjugates() {
    for im in [0.0f32, -0.0, 1.5, -2.5, f32::INFINITY, f32::NAN, f32::MIN_POSITIVE] {
        let z = c32 {
            re: Single { bits: 2.0f32.to_bits() },
            im: Single { bits: im.to_bits() },
        };
        let w = z.conj();
        let equal = f32::from_bits(z.re.bits) == f32::from_bits(w.re.bits)
            && f32::from_bits(z.im.bits) == f32::from_bits(w.im.bits);
        assert_eq!(equal, z.im.is_zero());
    }
}
