//! Which kernels a machine can run.

use vstd::prelude::*;

verus! {

/// Processor architectures.
#[derive(Clone, Copy, Debug, PartialEq, Eq, Structural)]
pub enum Arch {
    X86,
    X86_64,
    Aarch64,
    Wasm32,
    Arm,
    Mips,
    Mips64,
    Riscv64,
    Powerpc64,
    S390x,
    /// Any other one.
    Other,
}

/// What a processor and a build offer.
#[derive(Clone, Copy, Debug, PartialEq, Eq, Structural)]
pub struct Features {
    pub sse: bool,
    pub sse2: bool,
    pub avx: bool,
    pub fma: bool,
    pub avx512f: bool,
    pub neon: bool,
    /// Arithmetic on half precision vectors.
    pub fp16: bool,
    pub simd128: bool,
    /// The build has the kernels that need unstable features of the compiler.
    pub nightly: bool,
}

/// Sets of kernels.
#[derive(Clone, Copy, Debug, PartialEq, Eq, Structural)]
pub enum KernelSet {
    Scalar,
    Sse,
    Avx,
    Fma,
    Avx512f,
    Neon,
    Simd128,
}

/// The machine that a product is computed on.
#[derive(Clone, Copy, Debug, PartialEq, Eq, Structural)]
pub struct Machine {
    pub arch: Arch,
    /// Size of the second level cache in bytes.
    pub l2_bytes: usize,
}

/// Alignment that keeps data of different threads out of each other's cache lines.
pub open spec fn line_alignment(arch: Arch) -> int {
    match arch {
        Arch::X86_64 | Arch::Aarch64 | Arch::Powerpc64 => 128,
        Arch::Arm | Arch::Mips | Arch::Mips64 | Arch::Riscv64 => 32,
        Arch::S390x => 256,
        Arch::X86 | Arch::Wasm32 | Arch::Other => 64,
    }
}

/// Alignment that keeps data of different threads out of each other's cache lines.
pub fn cacheline_align(arch: Arch) -> (r: usize)
    ensures
        r == line_alignment(arch),
{
    match arch {
        Arch::X86_64 | Arch::Aarch64 | Arch::Powerpc64 => 128,
        Arch::Arm | Arch::Mips | Arch::Mips64 | Arch::Riscv64 => 32,
        Arch::S390x => 256,
        Arch::X86 | Arch::Wasm32 | Arch::Other => 64,
    }
}

/// The architecture has the vector registers of Intel's processors.
pub open spec fn is_intel(arch: Arch) -> bool {
    arch is X86 || arch is X86_64
}

/// A machine can run a set of kernels.
pub open spec fn supports(arch: Arch, f: Features, set: KernelSet) -> bool {
    match set {
        KernelSet::Scalar => true,
        KernelSet::Sse => is_intel(arch) && f.sse && f.sse2,
        KernelSet::Avx => is_intel(arch) && f.avx,
        KernelSet::Fma => is_intel(arch) && f.fma,
        KernelSet::Avx512f => is_intel(arch) && f.avx512f && f.nightly,
        KernelSet::Neon => arch is Aarch64 && f.neon,
        KernelSet::Simd128 => arch is Wasm32 && f.simd128,
    }
}

/// The fastest of the kernels for real numbers that a machine can run.
pub open spec fn best_set(arch: Arch, f: Features) -> KernelSet {
    if supports(arch, f, KernelSet::Avx512f) {
        KernelSet::Avx512f
    } else if supports(arch, f, KernelSet::Fma) {
        KernelSet::Fma
    } else if supports(arch, f, KernelSet::Avx) {
        KernelSet::Avx
    } else if supports(arch, f, KernelSet::Sse) {
        KernelSet::Sse
    } else if supports(arch, f, KernelSet::Neon) {
        KernelSet::Neon
    } else if supports(arch, f, KernelSet::Simd128) {
        KernelSet::Simd128
    } else {
        KernelSet::Scalar
    }
}

/// The fastest of the kernels for complex numbers that a machine can run.
pub open spec fn best_complex_set(arch: Arch, f: Features) -> KernelSet {
    if supports(arch, f, KernelSet::Avx512f) {
        KernelSet::Avx512f
    } else if supports(arch, f, KernelSet::Fma) {
        KernelSet::Fma
    } else {
        KernelSet::Scalar
    }
}

/// Picks the kernels for real numbers on Intel's processors.
pub(crate) fn intel_set(f: Features) -> (set: KernelSet)
    ensures
        set == best_set(Arch::X86, f),
        set == best_set(Arch::X86_64, f),
{
    if f.nightly && f.avx512f {
        return KernelSet::Avx512f;
    }
    if f.fma {
        KernelSet::Fma
    } else if f.avx {
        KernelSet::Avx
    } else if f.sse && f.sse2 {
        KernelSet::Sse
    } else {
        KernelSet::Scalar
    }
}

/// Picks the kernels for real numbers.
pub fn init_gemm_fn(arch: Arch, f: Features) -> (set: KernelSet)
    ensures
        set == best_set(arch, f),
{
    match arch {
        Arch::X86 | Arch::X86_64 => intel_set(f),
        Arch::Aarch64 => if f.neon {
            KernelSet::Neon
        } else {
            KernelSet::Scalar
        },
        Arch::Wasm32 => if f.simd128 {
            KernelSet::Simd128
        } else {
            KernelSet::Scalar
        },
        _ => KernelSet::Scalar,
    }
}

/// Picks the kernels for complex numbers.
pub fn init_gemm_cplx_fn(arch: Arch, f: Features) -> (set: KernelSet)
    ensures
        set == best_complex_set(arch, f),
{
    match arch {
        Arch::X86 | Arch::X86_64 => {
            if f.nightly && f.avx512f {
                return KernelSet::Avx512f;
            }
            if f.fma {
                return KernelSet::Fma;
            }
            KernelSet::Scalar
        },
        _ => KernelSet::Scalar,
    }
}

/// Number of rows that one vector register holds, for real numbers of which a register of `Sse`
/// holds `2 * multiplier`.
pub open spec fn vector_rows(set: KernelSet, multiplier: int) -> int {
    match set {
        KernelSet::Scalar => 1,
        KernelSet::Sse | KernelSet::Neon | KernelSet::Simd128 => 2 * multiplier,
        KernelSet::Avx | KernelSet::Fma => 4 * multiplier,
        KernelSet::Avx512f => 8 * multiplier,
    }
}

/// Number of rows that one vector register holds. See [`vector_rows`].
pub fn lanes(set: KernelSet, multiplier: usize) -> (r: usize)
    requires
        vector_rows(set, multiplier as int) <= usize::MAX,
    ensures
        r == vector_rows(set, multiplier as int),
{
    match set {
        KernelSet::Scalar => 1,
        KernelSet::Sse | KernelSet::Neon | KernelSet::Simd128 => 2 * multiplier,
        KernelSet::Avx | KernelSet::Fma => 4 * multiplier,
        KernelSet::Avx512f => 8 * multiplier,
    }
}

/// Number of rows that one vector register holds, for complex numbers: half as many as of their
/// real parts. There are kernels for complex numbers in three of the sets only.
pub open spec fn complex_vector_rows(set: KernelSet, multiplier: int) -> int
    recommends
        set is Scalar || set is Fma || set is Avx512f,
{
    match set {
        KernelSet::Scalar => 1,
        _ => vector_rows(set, multiplier) / 2,
    }
}

/// Number of rows that one vector register holds. See [`complex_vector_rows`].
pub fn complex_lanes(set: KernelSet, multiplier: usize) -> (r: usize)
    requires
        set is Scalar || set is Fma || set is Avx512f,
        complex_vector_rows(set, multiplier as int) <= usize::MAX,
    ensures
        r == complex_vector_rows(set, multiplier as int),
{
    match set {
        KernelSet::Scalar => 1,
        KernelSet::Avx512f => 4 * multiplier,
        _ => 2 * multiplier,
    }
}

/// The kernels that are picked can be run. Those for complex numbers belong to the same set as those
/// for real numbers, unless that has none for complex numbers.
pub proof fn law_picked_kernels_run(arch: Arch, f: Features)
    ensures
        supports(arch, f, best_set(arch, f)),
        supports(arch, f, best_complex_set(arch, f)),
        best_complex_set(arch, f) == best_set(arch, f) || best_complex_set(arch, f) is Scalar,
{
}

/// The kernels for real numbers are picked by what the processor offers: of those that Intel's processors
/// can run the widest, `Fma` before `Avx`; those for the vectors of aarch64 and of wasm32 where these
/// are there; and none with vectors otherwise.
pub proof fn law_init_gemm_fn(arch: Arch, f: Features, set: KernelSet)
    requires
        call_ensures(init_gemm_fn, (arch, f), set),
    ensures
        set is Avx512f || set is Fma || set is Avx || set is Sse ==> arch is X86 || arch is X86_64,
        arch is X86 || arch is X86_64 ==> {
            &&& set is Avx512f <==> f.avx512f && f.nightly
            &&& set is Fma ==> f.fma
            &&& set is Avx ==> f.avx && !f.fma
            &&& set is Sse ==> f.sse && f.sse2 && !f.avx && !f.fma
            &&& set is Scalar ==> !f.fma && !f.avx && !(f.sse && f.sse2)
        },
        set is Neon <==> arch is Aarch64 && f.neon,
        set is Simd128 <==> arch is Wasm32 && f.simd128,
{
}

/// The kernels for complex numbers are picked by what the processor offers: there are some with vectors
/// only on Intel's processors, and only for `Avx512f` and `Fma`.
pub proof fn law_init_gemm_cplx_fn(arch: Arch, f: Features, set: KernelSet)
    requires
        call_ensures(init_gemm_cplx_fn, (arch, f), set),
    ensures
        set is Scalar || set is Fma || set is Avx512f,
        set is Avx512f <==> (arch is X86 || arch is X86_64) && f.avx512f && f.nightly,
        set is Fma <==> (arch is X86 || arch is X86_64) && f.fma && !(f.avx512f && f.nightly),
{
}

/// A vector register has 16 bytes for `Sse`, `Neon` and `Simd128`, twice as many for `Avx` and `Fma`, and
/// four times as many for `Avx512f`; numbers of `8 / multiplier` bytes fill it. Without vectors there
/// is one row. Of complex numbers a register holds half as many.
pub proof fn law_lanes(set: KernelSet, multiplier: usize, bytes: int, rows: usize)
    requires
        0 < multiplier,
        bytes * multiplier == 8,
        call_ensures(lanes, (set, multiplier), rows),
    ensures
        set is Scalar ==> rows == 1,
        set is Sse || set is Neon || set is Simd128 ==> rows * bytes == 16,
        set is Avx || set is Fma ==> rows * bytes == 32,
        set is Avx512f ==> rows * bytes == 64,
        forall|r: usize| #[trigger]
            call_ensures(complex_lanes, (set, multiplier), r) && (set is Fma || set is Avx512f)
                ==> r + r == rows,
        forall|r: usize| #[trigger]
            call_ensures(complex_lanes, (set, multiplier), r) && set is Scalar ==> r == 1,
{
    let x = multiplier as int;
    assert((2 * x) * bytes == 16 && (4 * x) * bytes == 32 && (8 * x) * bytes == 64)
        by (nonlinear_arith)
        requires
            bytes * x == 8,
    ;
}

/// An alignment is a power of two between 32 and 256.
pub proof fn law_cacheline_align(arch: Arch, r: usize)
    requires
        call_ensures(cacheline_align, (arch,), r),
    ensures
        r == 32 || r == 64 || r == 128 || r == 256,
        r == 256 <==> arch is S390x,
        r == 128 <==> arch is X86_64 || arch is Aarch64 || arch is Powerpc64,
        r == 32 <==> arch is Arm || arch is Mips || arch is Mips64 || arch is Riscv64,
{
}

} // verus!
