# gemm

Blocked matrix multiplication, verified with [Verus](https://github.com/verus-lang/verus).

The library computes

    dst = alpha * conj?(dst) + beta * conj?(lhs) * conj?(rhs)

for strided matrices of real, complex and half precision numbers. It decides how the product is
computed, cuts it into blocks and tiles, packs the operands, deals the tiles out to threads and puts
the results together. The kernels that multiply and add are given by the caller.

- `src/` is the library. Floating-point numbers are held by their bit patterns. The contract of a
  product says which kernels are called on which operands, where these are read, and what becomes of
  the results.
- `src/laws.rs`, `src/gemm_laws.rs` and `src/half_laws.rs` prove that the result does not depend on
  the number of threads, on the tiles or on what is packed. `src/exact.rs` and `src/half_exact.rs`
  prove that every entry has the value of the formula above where what is computed on the way is
  exact; `src/parts.rs` proves that a product can then be computed in parts.
- `app/` is ordinary Rust: floating-point arithmetic, the thresholds of the process, the detection
  of processor features, and products of slices of floating-point numbers.
- `tests/` runs the library with kernels on floating-point numbers.

Threads are those of the `rayon` pool. The two functions of it that are called are declared in
`src/parallel.rs`; everything else is proved.
