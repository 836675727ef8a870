//! Block sizes, packing decisions and the number of threads.

use crate::parallel::current_num_threads;
use crate::parallel::Parallelism;
use crate::share::div_ceil;
use vstd::prelude::*;

verus! {

/// Sizes of the blocks that the operands are processed in.
#[derive(Clone, Copy, Debug, PartialEq, Eq, Structural)]
pub struct KernelParams {
    /// Columns of the left and rows of the right operand.
    pub kc: usize,
    /// Rows of the left operand.
    pub mc: usize,
    /// Columns of the right operand.
    pub nc: usize,
}

/// The mathematical content of [`KernelParams`].
pub struct Blocking {
    pub kc: int,
    pub mc: int,
    pub nc: int,
}

impl View for KernelParams {
    type V = Blocking;

    open spec fn view(&self) -> Blocking {
        Blocking { kc: self.kc as int, mc: self.mc as int, nc: self.nc as int }
    }
}

impl Blocking {
    /// The blocks are not empty, are made of whole tiles of `mr` rows and `nr` columns, and their
    /// packed copies can be addressed. The right operand is copied only if it is packed.
    pub open spec fn wf(self, mr: int, nr: int, packs_rhs: bool) -> bool {
        &&& 0 < self.kc
        &&& 0 < self.mc
        &&& 0 < self.nc <= usize::MAX
        &&& self.mc % mr == 0
        &&& self.nc % nr == 0
        &&& self.kc * self.mc <= usize::MAX
        &&& self.kc * nr <= usize::MAX
        &&& packs_rhs ==> self.kc * self.nc <= usize::MAX
    }

    /// The multiplications of every block can be counted, where the number of threads depends on
    /// it.
    pub open spec fn work_counts(self, m: int, n: int, k: int, parallelism: Parallelism) -> bool {
        parallelism is Rayon ==> {
            let n_chunk = if self.nc < n {
                self.nc
            } else {
                n
            };
            let k_chunk = if self.kc < k {
                self.kc
            } else {
                k
            };
            m * n_chunk * k_chunk <= usize::MAX
        }
    }
}

/// Rows and columns up to which a destination counts as small.
pub const SMALL: usize = 64;

/// Largest depth of a block of a small product.
pub const SMALL_KC: usize = 512;

/// Number of tiles in a column block on one thread, where no other size is known.
pub const TILES_PER_BLOCK: usize = 128;

/// Block sizes for a small product: the whole depth up to [`SMALL_KC`], as many whole tiles of
/// rows as fill `room` elements, and all columns.
pub open spec fn small_blocking(n: int, k: int, mr: int, nr: int, room: int) -> Blocking {
    let kc = if k < SMALL_KC {
        k
    } else {
        SMALL_KC as int
    };
    Blocking { kc, mc: room / kc / mr * mr, nc: crate::share::ceil_quotient(n, nr) * nr }
}

/// Number of columns of a block: what is given, unless that is zero; then all columns if threads
/// may be used, and [`TILES_PER_BLOCK`] tiles if not.
pub open spec fn block_columns(nc: int, n: int, nr: int, parallelism: Parallelism) -> int {
    if nc > 0 {
        nc
    } else {
        match parallelism {
            Parallelism::Serial => TILES_PER_BLOCK * nr,
            Parallelism::Rayon(_) => crate::share::ceil_quotient(n, nr) * nr,
        }
    }
}

/// `blocking` with a number of columns.
pub open spec fn with_columns(
    blocking: Blocking,
    n: int,
    nr: int,
    parallelism: Parallelism,
) -> Blocking {
    Blocking { nc: block_columns(blocking.nc, n, nr, parallelism), ..blocking }
}

/// `params` with a number of columns.
pub fn fill_columns(params: KernelParams, n: usize, nr: usize, parallelism: Parallelism) -> (r:
    KernelParams)
    requires
        0 < nr,
        block_columns(params.nc as int, n as int, nr as int, parallelism) <= usize::MAX,
    ensures
        r@ == with_columns(params@, n as int, nr as int, parallelism),
{
    let nc: usize = if params.nc > 0 {
        params.nc
    } else {
        match parallelism {
            Parallelism::Serial => TILES_PER_BLOCK * nr,
            Parallelism::Rayon(_) => div_ceil(n, nr) * nr,
        }
    };
    KernelParams { kc: params.kc, mc: params.mc, nc }
}

/// Block sizes: those for a small product where the destination has at most [`SMALL`] rows and
/// columns, `tuned` otherwise. `l2_bytes` is the size of the second level cache and `elem_bytes`
/// that of an element.
pub open spec fn chosen_blocking(
    m: int,
    n: int,
    k: int,
    mr: int,
    nr: int,
    elem_bytes: int,
    l2_bytes: int,
    tuned: Blocking,
) -> Blocking {
    if m <= SMALL && n <= SMALL {
        small_blocking(n, k, mr, nr, l2_bytes / elem_bytes)
    } else {
        tuned
    }
}

/// Block sizes. See [`chosen_blocking`].
pub fn choose_params(
    m: usize,
    n: usize,
    k: usize,
    mr: usize,
    nr: usize,
    elem_bytes: usize,
    l2_bytes: usize,
    tuned: KernelParams,
) -> (r: KernelParams)
    requires
        0 < k,
        0 < mr,
        0 < nr,
        0 < elem_bytes,
        chosen_blocking(
            m as int,
            n as int,
            k as int,
            mr as int,
            nr as int,
            elem_bytes as int,
            l2_bytes as int,
            tuned@,
        ).nc <= usize::MAX,
    ensures
        r@ == chosen_blocking(
            m as int,
            n as int,
            k as int,
            mr as int,
            nr as int,
            elem_bytes as int,
            l2_bytes as int,
            tuned@,
        ),
{
    if m <= SMALL && n <= SMALL {
        let kc: usize = if k < SMALL_KC {
            k
        } else {
            SMALL_KC
        };
        let room: usize = l2_bytes / elem_bytes;
        let rows: usize = room / kc;
        proof {
            assert(0 <= rows / mr * mr <= rows) by (nonlinear_arith)
                requires
                    0 < mr,
                    0 <= rows,
            ;
        }
        KernelParams { kc, mc: rows / mr * mr, nc: div_ceil(n, nr) * nr }
    } else {
        tuned
    }
}

/// Number of threads for `work` multiplications when there are `available` threads: one for every
/// `threshold` multiplications beyond the first `threshold`, at least one and at most all.
pub open spec fn threads_for(available: int, work: int, threshold: int) -> int {
    if work > threshold {
        let wanted = (work - threshold + 1) / threshold;
        let some = if available < wanted {
            available
        } else {
            wanted
        };
        if some < 1 {
            1
        } else {
            some
        }
    } else {
        1
    }
}

/// Number of threads for `work` multiplications. See [`threads_for`].
pub fn threads_for_work(available: usize, work: usize, threshold: usize) -> (r: usize)
    requires
        work > threshold ==> threshold > 0,
    ensures
        r == threads_for(available as int, work as int, threshold as int),
{
    if work > threshold {
        let wanted: usize = (work - threshold + 1) / threshold;
        let some: usize = if available < wanted {
            available
        } else {
            wanted
        };
        if some < 1 {
            1
        } else {
            some
        }
    } else {
        1
    }
}

/// `threads` is a number of threads for the product of an `m` by `k` and a `k` by `n` block.
/// Without a limit on the threads it depends on how many the pool has.
pub open spec fn thread_count_ok(
    threads: int,
    parallelism: Parallelism,
    work: int,
    threshold: int,
) -> bool {
    match parallelism {
        Parallelism::Serial => threads == 1,
        Parallelism::Rayon(limit) => if limit == 0 {
            exists|available: usize|
                threads == #[trigger] threads_for(available as int, work, threshold)
        } else {
            threads == threads_for(limit as int, work, threshold)
        },
    }
}

/// Number of threads for the product of an `m` by `k` and a `k` by `n` block.
pub fn thread_count(
    parallelism: Parallelism,
    m: usize,
    n: usize,
    k: usize,
    threshold: usize,
) -> (r: usize)
    requires
        parallelism is Rayon ==> m * n * k <= usize::MAX,
        parallelism is Rayon && m * n * k > threshold ==> threshold > 0,
    ensures
        r >= 1,
        thread_count_ok(r as int, parallelism, m * n * k, threshold as int),
{
    match parallelism {
        Parallelism::Serial => 1,
        Parallelism::Rayon(limit) => {
            let available: usize = if limit == 0 {
                current_num_threads()
            } else {
                limit
            };
            proof {
                assert(m * n <= m * n * k || k == 0) by (nonlinear_arith);
                assert(0 <= m * n) by (nonlinear_arith);
            }
            let work: usize = if k == 0 {
                0
            } else {
                m * n * k
            };
            proof {
                assert(k == 0 ==> m * n * k == 0) by (nonlinear_arith);
            }
            threads_for_work(available, work, threshold)
        },
    }
}

/// Whether the right operand is packed. On aarch64 that is so for many tiles on top of one another
/// only; elsewhere it depends on whether its rows are contiguous.
pub open spec fn packs_rhs(aarch64: bool, rhs_rs: int, m: int, mr: int, threshold: int) -> bool {
    if aarch64 {
        m > threshold * mr
    } else if rhs_rs == 1 || rhs_rs == -1 {
        m > threshold * mr
    } else {
        m > 2 * mr
    }
}

/// Whether the right operand is packed. See [`packs_rhs`].
pub fn should_pack_rhs(
    aarch64: bool,
    rhs_rs: isize,
    m: usize,
    mr: usize,
    threshold: usize,
) -> (r: bool)
    ensures
        r == packs_rhs(aarch64, rhs_rs as int, m as int, mr as int, threshold as int),
{
    if aarch64 || rhs_rs == 1 || rhs_rs == -1 {
        crate::sweep::exceeds(m, threshold, mr)
    } else {
        crate::sweep::exceeds(m, 2, mr)
    }
}

/// At least one thread is used and never more than there are. Work up to the threshold stays on one
/// thread.
pub proof fn law_thread_bounds(available: int, work: int, threshold: int)
    requires
        0 < threshold,
    ensures
        1 <= threads_for(available, work, threshold),
        1 <= available ==> threads_for(available, work, threshold) <= available,
        work <= threshold ==> threads_for(available, work, threshold) == 1,
{
}

/// The blocks of a small product are made of whole tiles, hold all columns, and a packed block of
/// the left operand fits into `room` elements.
pub proof fn law_small_blocking(n: int, k: int, mr: int, nr: int, room: int)
    requires
        0 < n,
        0 < k,
        0 < mr,
        0 < nr,
        0 <= room,
    ensures
        ({
            let b = small_blocking(n, k, mr, nr, room);
            &&& 0 < b.kc <= k
            &&& 0 <= b.mc
            &&& b.mc % mr == 0
            &&& b.kc * b.mc <= room
            &&& n <= b.nc < n + nr
            &&& b.nc % nr == 0
        }),
{
    let b = small_blocking(n, k, mr, nr, room);
    let kc = b.kc;
    let rows = room / kc;
    let tiles = rows / mr;
    let panels = crate::share::ceil_quotient(n, nr);
    vstd::arithmetic::div_mod::lemma_fundamental_div_mod(room, kc);
    vstd::arithmetic::div_mod::lemma_fundamental_div_mod(rows, mr);
    vstd::arithmetic::div_mod::lemma_mod_multiples_basic(tiles, mr);
    vstd::arithmetic::div_mod::lemma_mod_multiples_basic(panels, nr);
    crate::share::lemma_ceil_quotient(n, nr);
    assert(panels * nr == nr * panels) by (nonlinear_arith);
    assert(nr * (panels - 1) == nr * panels - nr) by (nonlinear_arith);
    assert(0 <= rows) by (nonlinear_arith)
        requires
            room == kc * rows + room % kc,
            room % kc < kc,
            0 <= room,
            0 < kc,
    ;
    assert(0 <= tiles) by (nonlinear_arith)
        requires
            rows == mr * tiles + rows % mr,
            rows % mr < mr,
            0 <= rows,
            0 < mr,
    ;
    assert(0 <= tiles * mr <= rows) by (nonlinear_arith)
        requires
            rows == mr * tiles + rows % mr,
            0 <= rows % mr,
            0 <= tiles,
            0 < mr,
    ;
    assert(kc * b.mc <= kc * rows) by (nonlinear_arith)
        requires
            b.mc <= rows,
            0 < kc,
    ;
}

/// The number of threads is the largest one that is allowed: at least one and at most all that there are,
/// and every thread beyond the first has `threshold` multiplications of its own beyond the first
/// `threshold`. One thread more would be more than there are, or would not have them.
pub proof fn law_threads_for_work(available: usize, work: usize, threshold: usize, r: usize)
    requires
        0 < threshold,
        call_ensures(threads_for_work, (available, work, threshold), r),
    ensures
        1 <= r,
        1 < r ==> r <= available,
        1 < r ==> r * threshold <= work - threshold + 1,
        r < available ==> work <= threshold || work - threshold + 1 < (r + 1) * threshold,
        work <= threshold ==> r == 1,
{
    if work > threshold {
        let extra = work - threshold + 1;
        let wanted = extra / (threshold as int);
        vstd::arithmetic::div_mod::lemma_fundamental_div_mod(extra as int, threshold as int);
        assert(wanted * threshold <= extra < (wanted + 1) * threshold) by (nonlinear_arith)
            requires
                extra == threshold * wanted + extra % (threshold as int),
                0 <= extra % (threshold as int) < threshold,
        ;
        assert(r <= wanted ==> r * threshold <= wanted * threshold) by (nonlinear_arith)
            requires
                0 < threshold,
        ;
        assert(wanted <= r ==> (wanted + 1) * threshold <= (r + 1) * threshold)
            by (nonlinear_arith)
            requires
                0 < threshold,
        ;
    }
}

/// Without threads there is one. With a limit, the number is what the work gives it, and never more than
/// the limit; small work stays on one thread whatever the limit is.
pub proof fn law_thread_count(
    parallelism: Parallelism,
    m: usize,
    n: usize,
    k: usize,
    threshold: usize,
    r: usize,
)
    requires
        0 < threshold,
        call_ensures(thread_count, (parallelism, m, n, k, threshold), r),
    ensures
        1 <= r,
        parallelism is Serial ==> r == 1,
        m * n * k <= threshold ==> r == 1,
        parallelism matches Parallelism::Rayon(limit) ==> {
            &&& 0 < limit ==> r <= limit
            &&& 1 < r ==> r * threshold <= m * n * k - threshold + 1
            &&& r < limit ==> m * n * k <= threshold || m * n * k - threshold + 1 < (r + 1)
                * threshold
        },
{
    let work = m * n * k;
    if parallelism is Rayon && work > threshold {
        let extra = work - threshold + 1;
        let wanted = extra / (threshold as int);
        vstd::arithmetic::div_mod::lemma_fundamental_div_mod(extra, threshold as int);
        assert(wanted * threshold <= extra < (wanted + 1) * threshold) by (nonlinear_arith)
            requires
                extra == threshold * wanted + extra % (threshold as int),
                0 <= extra % (threshold as int) < threshold,
        ;
        assert(r <= wanted ==> r * threshold <= wanted * threshold) by (nonlinear_arith)
            requires
                0 < threshold,
        ;
        assert(wanted <= r ==> (wanted + 1) * threshold <= (r + 1) * threshold)
            by (nonlinear_arith)
            requires
                0 < threshold,
        ;
    }
}

/// A given number of columns is kept. Otherwise a block has 128 tiles side by side where no threads are
/// used, and as few whole tiles as hold all columns where they may be. The other sizes are kept.
pub proof fn law_fill_columns(
    params: KernelParams,
    n: usize,
    nr: usize,
    parallelism: Parallelism,
    r: KernelParams,
)
    requires
        0 < nr,
        call_ensures(fill_columns, (params, n, nr, parallelism), r),
    ensures
        r.kc == params.kc,
        r.mc == params.mc,
        0 < params.nc ==> r.nc == params.nc,
        params.nc == 0 && parallelism is Serial ==> r.nc == 128 * nr,
        params.nc == 0 && parallelism is Rayon ==> {
            &&& r.nc as int % nr as int == 0
            &&& n <= r.nc < n + nr
        },
{
    let groups = crate::share::ceil_quotient(n as int, nr as int);
    crate::share::lemma_ceil_quotient(n as int, nr as int);
    vstd::arithmetic::div_mod::lemma_mod_multiples_basic(groups, nr as int);
    assert(groups * nr == nr * groups) by (nonlinear_arith);
    assert(nr * (groups - 1) == nr * groups - nr) by (nonlinear_arith);
    assert(r@.nc == r.nc && r@.kc == r.kc && r@.mc == r.mc);
}

/// The block sizes of a product with more than 64 rows or columns are the given ones. Those of a smaller
/// one take the whole depth up to 512, as few whole tiles as hold all columns, and as many whole tiles
/// of rows as the second level cache holds that deep: one tile of rows more would not fit.
pub proof fn law_choose_params(
    m: usize,
    n: usize,
    k: usize,
    mr: usize,
    nr: usize,
    elem_bytes: usize,
    l2_bytes: usize,
    tuned: KernelParams,
    r: KernelParams,
)
    requires
        0 < k,
        0 < n,
        0 < mr,
        0 < nr,
        0 < elem_bytes,
        call_ensures(choose_params, (m, n, k, mr, nr, elem_bytes, l2_bytes, tuned), r),
    ensures
        m > 64 || n > 64 ==> r == tuned,
        m <= 64 && n <= 64 ==> {
            &&& r.kc <= k && r.kc <= 512
            &&& r.kc == k || r.kc == 512
            &&& r.nc as int % nr as int == 0
            &&& n <= r.nc < n + nr
            &&& r.mc as int % mr as int == 0
            &&& r.kc * r.mc * elem_bytes <= l2_bytes
            &&& l2_bytes < r.kc * (r.mc + mr) * elem_bytes
        },
{
    let room = l2_bytes as int / elem_bytes as int;
    assert(r@.nc == r.nc && r@.kc == r.kc && r@.mc == r.mc);
    if m <= 64 && n <= 64 {
        law_small_blocking(n as int, k as int, mr as int, nr as int, room);
        let kc = r.kc as int;
        let rows = room / kc;
        let tiles = rows / (mr as int);
        vstd::arithmetic::div_mod::lemma_fundamental_div_mod(l2_bytes as int, elem_bytes as int);
        vstd::arithmetic::div_mod::lemma_fundamental_div_mod(room, kc);
        vstd::arithmetic::div_mod::lemma_fundamental_div_mod(rows, mr as int);
        assert(rows < r.mc + mr) by (nonlinear_arith)
            requires
                rows == mr * tiles + rows % (mr as int),
                rows % (mr as int) < mr,
                r.mc == tiles * mr,
        ;
        assert(room < kc * (r.mc + mr)) by (nonlinear_arith)
            requires
                room == kc * rows + room % kc,
                room % kc < kc,
                rows + 1 <= r.mc + mr,
                0 < kc,
        ;
        let tile_room = kc * (r.mc + mr);
        assert(l2_bytes < tile_room * elem_bytes) by (nonlinear_arith)
            requires
                l2_bytes == elem_bytes * room + l2_bytes as int % (elem_bytes as int),
                l2_bytes as int % (elem_bytes as int) < elem_bytes,
                room + 1 <= tile_room,
                0 < elem_bytes,
        ;
        let used = kc * r.mc;
        assert(used * elem_bytes <= l2_bytes) by (nonlinear_arith)
            requires
                l2_bytes == elem_bytes * room + l2_bytes as int % (elem_bytes as int),
                0 <= l2_bytes as int % (elem_bytes as int),
                used <= room,
                0 < elem_bytes,
        ;
    }
}

/// Whether the right operand is packed changes once, between two numbers of rows: a contiguous operand
/// is packed from the first row on that is beyond `threshold` tiles, and so is every operand on aarch64;
/// any other operand as if the threshold were two.
pub proof fn law_should_pack_rhs(
    aarch64: bool,
    rhs_rs: isize,
    m: usize,
    mr: usize,
    threshold: usize,
    r: bool,
)
    requires
        call_ensures(should_pack_rhs, (aarch64, rhs_rs, m, mr, threshold), r),
    ensures
        m == 0 ==> !r,
        aarch64 || rhs_rs * rhs_rs == 1 ==> {
            &&& r ==> m >= threshold * mr + 1
            &&& !r ==> m <= threshold * mr
        },
        !aarch64 && rhs_rs * rhs_rs != 1 ==> {
            &&& r ==> m >= mr + mr + 1
            &&& !r ==> m <= mr + mr
        },
{
    let x = rhs_rs as int;
    assert(x * x == 1 <==> x == 1 || x == -1) by (nonlinear_arith);
    assert(0 <= threshold * mr) by (nonlinear_arith);
}

} // verus!
