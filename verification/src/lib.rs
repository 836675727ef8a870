//! Blocked matrix multiplication.
//!
//! A product `dst = alpha * conj?(dst) + beta * conj?(lhs) * conj?(rhs)` is cut into blocks that fit
//! the caches, the blocks into tiles, and the tiles are dealt out to threads. Kernels, which are the
//! caller's, compute the tiles.
//!
//! - [`layout`], [`block`] and [`entries`]: strided matrices in flat buffers.
//! - [`scalar`] and [`convert`]: numbers as bit patterns, and their conversion.
//! - [`pack`]: operands in the order in which the kernels read them.
//! - [`share`], [`grid`] and [`parallel`]: tiles, shares and threads.
//! - [`thresholds`], [`tuning`] and [`arch`]: what is decided from sizes and from the machine.
//! - [`scheme`], [`kernel`], [`merge`], [`sweep`] and [`blocked`]: one step of a tile, of a block and
//!   of a product.
//! - [`gemm`] and [`half_precision`]: the products.
//! - [`laws`], [`gemm_laws`], [`half_laws`], [`exact`], [`half_exact`] and [`parts`]: what the products
//!   amount to.
//! - [`values`] and [`calls`]: what bit patterns stand for, and what a call computes, in its own
//!   arguments.

use vstd::prelude::*;

pub mod arch;
pub mod block;
pub mod blocked;
pub mod calls;
pub mod convert;
pub mod entries;
pub mod exact;
pub mod gemm;
pub mod gemm_laws;
pub mod grid;
pub mod half_exact;
pub mod half_laws;
pub mod half_precision;
pub mod kernel;
pub mod laws;
pub mod layout;
pub mod merge;
pub mod pack;
pub mod parallel;
pub mod parts;
pub mod scalar;
pub mod scheme;
pub mod share;
pub mod sweep;
pub mod thresholds;
pub mod tuning;
pub mod values;

verus! {

} // verus!
