//! The product of two matrices, block by block.

use crate::convert::Convert;
use crate::grid::Grid;
use crate::kernel::TileCall;
use crate::kernel::TileStep;
use crate::layout::Layout;
use crate::pack::pack_generic;
use crate::pack::store_run;
use crate::parallel::par_for_each;
use crate::parallel::Parallelism;
use crate::scheme::Scheme;
use crate::share::column_start;
use crate::share::div_ceil;
use crate::sweep::filled;
use crate::sweep::sweep;
use crate::sweep::Problem;
use crate::sweep::Sweep;
use crate::thresholds::get_lhs_packing_threshold_multi_thread;
use crate::thresholds::get_lhs_packing_threshold_single_thread;
use crate::thresholds::get_threading_threshold;
use crate::thresholds::Thresholds;
use crate::tuning::thread_count;
use crate::tuning::KernelParams;
use vstd::prelude::*;

verus! {

/// The columns of share `t` are those of its groups.
proof fn lemma_share_columns(n: int, nr: int, parts: int, t: int, h: int)
    requires
        0 < n,
        0 < nr,
        0 <= t < parts,
    ensures
        ({
            let groups = crate::share::ceil_quotient(n, nr);
            let s0 = crate::share::share_start(groups, parts, t);
            let s1 = crate::share::share_start(groups, parts, t + 1);
            let c0 = crate::share::column_share(n, nr, parts, t);
            let c1 = crate::share::column_share(n, nr, parts, t + 1);
            &&& 0 <= s0 <= s1 <= groups
            &&& 0 <= c0 <= c1 <= n
            &&& crate::share::ceil_quotient(c1 - c0, nr) == s1 - s0
            &&& s0 == s1 ==> c0 == c1
            &&& s0 < s1 ==> c0 < c1 && c0 == s0 * nr && c0 / nr == s0
            &&& 0 <= c0 / nr <= groups
            &&& 0 <= h < s1 - s0 ==> crate::pack::panel_rows(c1 - c0, nr, h)
                == crate::pack::panel_rows(n, nr, s0 + h)
        }),
{
    let groups = crate::share::ceil_quotient(n, nr);
    let s0 = crate::share::share_start(groups, parts, t);
    let s1 = crate::share::share_start(groups, parts, t + 1);
    let c0 = crate::share::column_share(n, nr, parts, t);
    let c1 = crate::share::column_share(n, nr, parts, t + 1);
    crate::share::lemma_ceil_quotient(n, nr);
    crate::share::lemma_share_bounds(groups, parts, t);
    crate::share::lemma_share_bounds(groups, parts, t + 1);
    crate::share::lemma_share_ordered(groups, parts, t, t + 1);
    assert(0 <= nr * s0 <= nr * s1) by (nonlinear_arith)
        requires
            0 < nr,
            0 <= s0 <= s1,
    ;
    assert(nr * s0 == s0 * nr) by (nonlinear_arith);
    crate::share::lemma_ceil_quotient(c1 - c0, nr);
    assert(0 <= c0 / nr <= groups) by (nonlinear_arith)
        requires
            0 <= c0 <= n,
            n <= nr * groups,
            0 < nr,
    ;
    if s0 < s1 {
        assert(nr * (s1 - 1) <= nr * (groups - 1) && nr * s0 <= nr * (s1 - 1)) by (nonlinear_arith)
            requires
                0 < nr,
                s0 + 1 <= s1 <= groups,
        ;
        vstd::arithmetic::div_mod::lemma_fundamental_div_mod_converse(c0, nr, s0, 0);
        let x = c1 - c0;
        let q = s1 - s0;
        let c = crate::share::ceil_quotient(x, nr);
        assert(nr * (s1 - 1) == nr * s1 - nr) by (nonlinear_arith);
        assert(nr * q == nr * s1 - nr * s0) by (nonlinear_arith)
            requires
                q == s1 - s0,
        ;
        assert(nr * (q - 1) == nr * q - nr) by (nonlinear_arith);
        assert(c == q) by (nonlinear_arith)
            requires
                nr * (q - 1) < x <= nr * q,
                nr * (c - 1) < x <= nr * c,
                0 < nr,
        ;
        if 0 <= h < q {
            assert((s0 + h) * nr == s0 * nr + h * nr) by (nonlinear_arith);
            if c1 < n {
                assert(h * nr + nr <= nr * q) by (nonlinear_arith)
                    requires
                        h + 1 <= q,
                        0 < nr,
                ;
            }
        }
    } else {
        vstd::arithmetic::div_mod::lemma_fundamental_div_mod_converse(nr - 1, nr, 0, nr - 1);
        assert(crate::share::ceil_quotient(0, nr) == 0);
    }
}

/// Columns of the right operand that are to be packed.
struct RhsBlock<'a, T, C, V> {
    conv: &'a V,
    src: &'a [T],
    /// Where they are; the columns count as rows here.
    layout: Layout,
    /// Number of columns.
    n: usize,
    /// Length of a column.
    k: usize,
    /// Distance of the panels of the packed operand.
    stride: usize,
    zero: C,
    n_threads: usize,
}

impl<'a, T, C, V: Convert<T, C>> RhsBlock<'a, T, C, V> {
    spec fn wf(self, nr: int) -> bool {
        &&& self.conv.ready()
        &&& 0 < nr <= isize::MAX
        &&& 0 < self.n
        &&& 0 < self.k
        &&& self.layout.fits(self.src@.len() as int, self.n as int, self.k as int)
        &&& self.k * nr <= self.stride
        &&& nr * self.groups(nr) <= usize::MAX
        &&& self.stride * self.groups(nr) <= usize::MAX
        &&& 0 < self.n_threads
    }

    /// Number of panels.
    spec fn groups(self, nr: int) -> int {
        crate::share::ceil_quotient(self.n as int, nr)
    }

    /// First panel of share `t`.
    spec fn first(self, nr: int, t: int) -> int {
        crate::share::share_start(self.groups(nr), self.n_threads as int, t)
    }

    /// The panel at `at` is panel `g`.
    spec fn panel_at(self, nr: int, g: int, buf: Seq<C>, at: int) -> bool {
        crate::pack::panel_packed(
            *self.conv,
            self.src@,
            self.layout,
            g * nr,
            crate::pack::panel_rows(self.n as int, nr, g),
            self.k as int,
            buf,
            at,
            nr,
        )
    }

    /// `local` holds the panels of share `t`, one after the other.
    spec fn share_packed(self, nr: int, t: int, local: Seq<C>) -> bool {
        let s0 = self.first(nr, t);
        let s1 = self.first(nr, t + 1);
        &&& local.len() == (s1 - s0) * self.stride
        &&& forall|h: int|
            0 <= h < s1 - s0 ==> self.panel_at(
                nr,
                s0 + h,
                local,
                #[trigger] crate::pack::panel_start(0, self.stride as int, h),
            )
    }

    /// The first `count` panels are in `buf`.
    spec fn panels_in(self, nr: int, count: int, buf: Seq<C>) -> bool {
        forall|g: int|
            0 <= g < count ==> self.panel_at(
                nr,
                g,
                buf,
                #[trigger] crate::pack::panel_start(0, self.stride as int, g),
            )
    }
}

/// Packs the columns of share `tid`.
fn pack_rhs_share<T: Copy, C: Copy, V: Convert<T, C>, const NR: usize>(
    b: &RhsBlock<'_, T, C, V>,
    tid: usize,
) -> (local: Vec<C>)
    requires
        b.wf(NR as int),
        tid < b.n_threads,
    ensures
        b.share_packed(NR as int, tid as int, local@),
{
    let ghost groups = b.groups(NR as int);
    let ghost s0 = b.first(NR as int, tid as int);
    let ghost s1 = b.first(NR as int, tid + 1);
    let ghost n = b.n as int;
    let ghost k = b.k as int;
    let ghost stride = b.stride as int;
    let col: usize = column_start(b.n, NR, b.n_threads, tid);
    let end: usize = column_start(b.n, NR, b.n_threads, tid + 1);
    proof {
        lemma_share_columns(n, NR as int, b.n_threads as int, tid as int, 0);
    }
    let ncols: usize = end - col;
    let panels: usize = div_ceil(ncols, NR);
    proof {
        assert(0 <= panels * stride <= stride * groups) by (nonlinear_arith)
            requires
                0 <= panels <= groups,
                0 <= stride,
        ;
    }
    let mut local: Vec<C> = filled(panels * b.stride, b.zero);
    if ncols > 0 {
        proof {
            assert(0 <= b.layout.index(col as int, 0) < b.src@.len() == b.src.len());
            assert((panels - 1) * stride == panels * stride - stride) by (nonlinear_arith);
        }
        let sub = b.layout.shift(col, 0);
        assert forall|i: int, j: int| 0 <= i < ncols && 0 <= j < k implies 0 <= #[trigger] sub.index(
            i,
            j,
        ) < b.src@.len() by {
            assert(sub.index(i, j) == b.layout.index(col + i, 0 + j));
        }
        pack_generic::<T, C, V, 1, NR>(
            b.conv,
            ncols,
            b.k,
            local.as_mut_slice(),
            0,
            b.src,
            sub,
            b.stride,
            b.zero,
        );
        proof {
            assert forall|h: int| 0 <= h < s1 - s0 implies b.panel_at(
                NR as int,
                s0 + h,
                local@,
                #[trigger] crate::pack::panel_start(0, stride, h),
            ) by {
                lemma_share_columns(n, NR as int, b.n_threads as int, tid as int, h);
                assert(crate::pack::holds_panel(
                    *b.conv,
                    b.src@,
                    sub,
                    ncols as int,
                    k,
                    local@,
                    0,
                    NR as int,
                    stride,
                    h,
                ));
                assert((s0 + h) * NR == s0 * NR + h * NR) by (nonlinear_arith);
                let at = crate::pack::panel_start(0, stride, h);
                assert forall|j: int, d: int|
                    0 <= j < crate::pack::panel_rows(n, NR as int, s0 + h) && 0 <= d
                        < k implies b.conv.converts(
                    b.src@[b.layout.index((s0 + h) * NR + j, d)],
                    local@[#[trigger] crate::pack::slot(at, NR as int, j, d)],
                ) by {
                    assert(sub.index(h * NR + j, d) == b.layout.index(col + (h * NR + j), 0 + d));
                }
            }
        }
    }
    local
}

/// What a task on the thread pool needs.
spec fn share_possible<T, C, V: Convert<T, C>>(
    b: &RhsBlock<'_, T, C, V>,
    nr: usize,
    tid: usize,
) -> bool {
    b.wf(nr as int) && tid < b.n_threads
}

/// What a task on the thread pool gives.
spec fn share_made<T, C, V: Convert<T, C>>(
    b: &RhsBlock<'_, T, C, V>,
    nr: usize,
    tid: usize,
    local: &Vec<C>,
) -> bool {
    b.share_packed(nr as int, tid as int, local@)
}

/// Copying the panels of share `t` behind those of the earlier shares completes them.
proof fn lemma_share_copied<T, C, V: Convert<T, C>>(
    b: RhsBlock<'_, T, C, V>,
    nr: int,
    t: int,
    local: Seq<C>,
    before: Seq<C>,
    after: Seq<C>,
    at: int,
)
    requires
        b.wf(nr),
        0 <= t < b.n_threads,
        b.share_packed(nr, t, local),
        b.panels_in(nr, b.first(nr, t), before),
        b.stride * b.groups(nr) <= before.len(),
        b.first(nr, t) < b.first(nr, t + 1) ==> at == b.first(nr, t) * b.stride,
        crate::pack::same_outside(before, after, at, at + local.len()),
        forall|i: int| 0 <= i < local.len() ==> after[at + i] == #[trigger] local[i],
    ensures
        b.panels_in(nr, b.first(nr, t + 1), after),
{
    let s0 = b.first(nr, t);
    let s1 = b.first(nr, t + 1);
    let k = b.k as int;
    let stride = b.stride as int;
    let groups = b.groups(nr);
    lemma_share_columns(b.n as int, nr, b.n_threads as int, t, 0);
    if s0 == s1 {
        assert((s1 - s0) * stride == 0) by (nonlinear_arith)
            requires
                s0 == s1,
        ;
    }
    assert forall|g: int| 0 <= g < s1 implies b.panel_at(
        nr,
        g,
        after,
        #[trigger] crate::pack::panel_start(0, stride, g),
    ) by {
        let rows = crate::pack::panel_rows(b.n as int, nr, g);
        let to = crate::pack::panel_start(0, stride, g);
        assert(to == g * stride);
        assert(0 <= g * stride && g * stride + stride <= stride * groups) by (nonlinear_arith)
            requires
                0 <= g,
                g + 1 <= groups,
                0 <= stride,
        ;
        if g < s0 {
            assert(b.panel_at(nr, g, before, to));
            assert forall|j: int, d: int| 0 <= j < rows && 0 <= d < k implies b.conv.converts(
                b.src@[b.layout.index(g * nr + j, d)],
                after[#[trigger] crate::pack::slot(to, nr, j, d)],
            ) by {
                crate::pack::lemma_slot(to, nr, j, d, k);
                let q = crate::pack::slot(to, nr, j, d);
                if s0 < s1 {
                    assert(g * stride + stride <= s0 * stride) by (nonlinear_arith)
                        requires
                            g + 1 <= s0,
                            0 <= stride,
                    ;
                }
                assert(after[q] == before[q]);
            }
        } else {
            let h = g - s0;
            let from = crate::pack::panel_start(0, stride, h);
            assert(b.panel_at(nr, s0 + h, local, from));
            assert(h * stride == g * stride - s0 * stride) by (nonlinear_arith)
                requires
                    h == g - s0,
            ;
            assert(0 <= h * stride && h * stride + stride <= (s1 - s0) * stride)
                by (nonlinear_arith)
                requires
                    0 <= h,
                    h + 1 <= s1 - s0,
                    0 <= stride,
            ;
            assert forall|j: int, d: int| 0 <= j < rows && 0 <= d < k implies b.conv.converts(
                b.src@[b.layout.index(g * nr + j, d)],
                after[#[trigger] crate::pack::slot(to, nr, j, d)],
            ) by {
                crate::pack::lemma_slot(to, nr, j, d, k);
                crate::pack::lemma_slot(from, nr, j, d, k);
                let i = crate::pack::slot(from, nr, j, d);
                assert(after[at + i] == local[i]);
            }
        }
    }
}

/// Packs the columns, on as many threads as there are shares.
fn pack_rhs_block<
    T: Copy + Send + Sync,
    C: Copy + Send + Sync,
    V: Convert<T, C> + Sync,
    const NR: usize,
>(b: &RhsBlock<'_, T, C, V>, packed: &mut Vec<C>)
    requires
        b.wf(NR as int),
        b.stride * b.groups(NR as int) <= old(packed)@.len(),
    ensures
        final(packed)@.len() == old(packed)@.len(),
        crate::pack::operand_packed(
            *b.conv,
            b.src@,
            b.layout,
            b.n as int,
            b.k as int,
            final(packed)@,
            0,
            NR as int,
            b.stride as int,
        ),
{
    let ghost groups = b.groups(NR as int);
    let ghost stride = b.stride as int;
    if b.n_threads <= 1 {
        proof {
            crate::share::lemma_ceil_quotient(b.n as int, NR as int);
            assert((groups - 1) * stride == stride * groups - stride) by (nonlinear_arith);
        }
        pack_generic::<T, C, V, 1, NR>(
            b.conv,
            b.n,
            b.k,
            packed.as_mut_slice(),
            0,
            b.src,
            b.layout,
            b.stride,
            b.zero,
        );
    } else {
        let task = |tid: usize| -> (local: Vec<C>)
            requires
                share_possible(b, NR, tid),
            ensures
                share_made(b, NR, tid, &local),
        { pack_rhs_share::<T, C, V, NR>(b, tid) };
        let parts = par_for_each(b.n_threads, task);
        proof {
            crate::share::lemma_share_bounds(groups, b.n_threads as int, 0);
        }
        let len: usize = packed.len();
        let mut tid: usize = 0;
        while tid < b.n_threads
            invariant
                b.wf(NR as int),
                groups == b.groups(NR as int),
                stride == b.stride,
                tid <= b.n_threads,
                parts@.len() == b.n_threads,
                len == packed@.len(),
                len == old(packed)@.len(),
                stride * groups <= len,
                forall|t: usize|
                    t < b.n_threads ==> share_made(b, NR, t, &#[trigger] parts@[t as int]),
                b.panels_in(NR as int, b.first(NR as int, tid as int), packed@),
            decreases b.n_threads - tid,
        {
            proof {
                lemma_share_columns(b.n as int, NR as int, b.n_threads as int, tid as int, 0);
                assert(share_made(b, NR, tid, &parts@[tid as int]));
            }
            let ghost s0 = b.first(NR as int, tid as int);
            let ghost s1 = b.first(NR as int, tid + 1);
            let ghost before = packed@;
            let j: usize = column_start(b.n, NR, b.n_threads, tid) / NR;
            proof {
                assert(0 <= j * stride <= stride * groups) by (nonlinear_arith)
                    requires
                        0 <= j <= groups,
                        0 <= stride,
                ;
                if s0 < s1 {
                    assert(s0 * stride + (s1 - s0) * stride <= stride * groups)
                        by (nonlinear_arith)
                        requires
                            s1 <= groups,
                            0 <= stride,
                    ;
                } else {
                    assert((s1 - s0) * stride == 0) by (nonlinear_arith)
                        requires
                            s0 == s1,
                    ;
                }
            }
            store_run(packed.as_mut_slice(), j * b.stride, &parts[tid]);
            proof {
                lemma_share_copied(
                    *b,
                    NR as int,
                    tid as int,
                    parts@[tid as int]@,
                    before,
                    packed@,
                    j * stride,
                );
            }
            tid = tid + 1;
        }
        proof {
            crate::share::lemma_share_bounds(groups, b.n_threads as int, b.n_threads as int);
            assert forall|g: int| 0 <= g < groups implies #[trigger] crate::pack::holds_panel(
                *b.conv,
                b.src@,
                b.layout,
                b.n as int,
                b.k as int,
                packed@,
                0,
                NR as int,
                stride,
                g,
            ) by {
                assert(b.panel_at(
                    NR as int,
                    g,
                    packed@,
                    crate::pack::panel_start(0, stride, g),
                ));
            }
        }
    }
}

/// Number of columns of the left operand and rows of the right one in block `t`.
pub open spec fn depth_of(k: int, kc: int, t: int) -> int {
    if kc < k - t * kc {
        kc
    } else {
        k - t * kc
    }
}

/// `states[t + 1]` is what steps with block `t` along the depth make of the columns `lo..hi` of
/// `states[t]`.
pub open spec fn advances<T, C, V: Convert<T, C>, S: TileStep<T, C>>(
    p: Problem<T>,
    conv: V,
    step: S,
    scheme: Scheme<C>,
    states: Seq<Seq<T>>,
    lo: int,
    hi: int,
    t: int,
) -> bool {
    forall|r: int, c: int|
        0 <= r < p.m && lo <= c < hi ==> crate::sweep::stepped_to(
            p,
            conv,
            step,
            scheme,
            states[t],
            t * scheme.blocking.kc,
            depth_of(p.k as int, scheme.blocking.kc, t),
            lo,
            hi,
            r,
            c,
            states[t + 1][#[trigger] p.dst_layout.index(r, c)],
        )
}

/// `states` are the states that the columns `lo..hi` of the destination go through from `pre` to
/// `post`, one for each block along the depth.
pub open spec fn passes_through<T, C, V: Convert<T, C>, S: TileStep<T, C>>(
    p: Problem<T>,
    conv: V,
    step: S,
    scheme: Scheme<C>,
    states: Seq<Seq<T>>,
    pre: Seq<T>,
    post: Seq<T>,
    lo: int,
    hi: int,
) -> bool {
    let blocks = crate::share::ceil_quotient(p.k as int, scheme.blocking.kc);
    &&& states.len() == blocks + 1
    &&& states[0] == pre
    &&& states[blocks] == post
    &&& forall|t: int|
        0 <= t < blocks ==> #[trigger] advances(p, conv, step, scheme, states, lo, hi, t)
}

/// The destination goes from `pre` to `post` by one step per entry for each block along the depth,
/// with tiles and operands as the scheme has them, and nothing beside it changes.
pub open spec fn accumulated<T, C, V: Convert<T, C>, S: TileStep<T, C>>(
    p: Problem<T>,
    conv: V,
    step: S,
    scheme: Scheme<C>,
    pre: Seq<T>,
    post: Seq<T>,
) -> bool {
    &&& p.dst_layout.same_beside(pre, post, p.m as int, 0, p.n as int)
    &&& exists|states: Seq<Seq<T>>| #[trigger]
        passes_through(p, conv, step, scheme, states, pre, post, 0, p.n as int)
}

/// `direct` is the operand `src` in the computing precision.
pub open spec fn reads_in_place<T, C, V: Convert<T, C>>(
    conv: V,
    src: Seq<T>,
    direct: Option<&[C]>,
) -> bool {
    direct matches Some(values) ==> {
        &&& values@.len() == src.len()
        &&& forall|q: int| 0 <= q < values@.len() ==> conv.converts(src[q], #[trigger] values@[q])
    }
}

/// A product and how it is to be computed.
pub struct Plan<'a, T, C, V, S> {
    pub problem: Problem<'a, T>,
    pub conv: &'a V,
    pub step: &'a S,
    /// What unused parts of a packed panel are filled with.
    pub zero: C,
    pub params: KernelParams,
    /// The left operand in the computing precision, if it may be read in place.
    pub lhs_direct: Option<&'a [C]>,
    /// The right operand in the computing precision, if it is read in place and not packed.
    pub rhs_direct: Option<&'a [C]>,
    pub parallelism: Parallelism,
    pub thresholds: &'a Thresholds,
}

impl<'a, T, C, V: Convert<T, C>, S: TileStep<T, C>> Plan<'a, T, C, V, S> {
    /// The scheme of the plan, with tiles of `mr` by `nr` entries.
    pub open spec fn scheme(self, lanes: usize, mr: usize, nr: usize) -> Scheme<'a, C> {
        Scheme {
            blocking: self.params@,
            lanes,
            mr,
            nr,
            lhs_direct: self.lhs_direct,
            rhs_direct: self.rhs_direct,
            parallelism: self.parallelism,
            thresholds: self.thresholds@,
        }
    }

    pub open spec fn wf(self, dst_len: int, lanes: int, mr: int, nr: int) -> bool {
        let p = self.problem;
        &&& p.wf(dst_len)
        &&& 0 < p.m
        &&& 0 < p.n
        &&& 0 < p.k
        &&& self.conv.ready()
        &&& 0 < lanes
        &&& 0 < mr <= isize::MAX
        &&& 0 < nr <= isize::MAX
        &&& mr % lanes == 0
        &&& self.params@.wf(mr, nr, self.rhs_direct is None)
        &&& reads_in_place(*self.conv, p.lhs@, self.lhs_direct)
        &&& reads_in_place(*self.conv, p.rhs@, self.rhs_direct)
        &&& forall|call: TileCall<T, C>|
            call.wf(lanes, mr, nr) ==> #[trigger] self.step.accepts(call)
        &&& self.params@.work_counts(p.m as int, p.n as int, p.k as int, self.parallelism)
        &&& self.parallelism is Rayon ==> self.thresholds@.threading > 0
    }
}

/// What a step makes of an entry depends on the destination only in the columns that the tile may
/// lie in.
proof fn lemma_stepped_elsewhere<T, C, V: Convert<T, C>, S: TileStep<T, C>>(
    p: Problem<T>,
    conv: V,
    step: S,
    scheme: Scheme<C>,
    a: Seq<T>,
    b: Seq<T>,
    depth: int,
    k: int,
    lo: int,
    hi: int,
    lo2: int,
    hi2: int,
    r: int,
    c: int,
    v: T,
)
    requires
        crate::sweep::stepped_to(p, conv, step, scheme, a, depth, k, lo, hi, r, c, v),
        lo2 <= lo,
        hi <= hi2,
        forall|i: int, j: int|
            0 <= i < p.m && lo <= j < hi ==> b[#[trigger] p.dst_layout.index(i, j)]
                == a[p.dst_layout.index(i, j)],
    ensures
        crate::sweep::stepped_to(p, conv, step, scheme, b, depth, k, lo2, hi2, r, c, v),
{
    let (call, out, row, col) = choose|call: TileCall<T, C>, out: Seq<T>, row: int, col: int|
        #![trigger
            crate::sweep::tile_matches(p, conv, a, depth, k, row, col, call),
            step.yields(call, out)
        ]
        {
            &&& crate::sweep::tile_matches(p, conv, a, depth, k, row, col, call)
            &&& step.accepts(call)
            &&& step.yields(call, out)
            &&& row == scheme.tile_of(p, r, c).row_outer + scheme.tile_of(p, r, c).row_inner
            &&& col == scheme.block_start(c) + scheme.tile_of(p, r, c).col_inner
            &&& scheme.placed(
                p,
                depth,
                k,
                scheme.block_start(c),
                scheme.tile_of(p, r, c),
                call,
            )
            &&& lo <= col
            &&& col + call.n <= hi
            &&& row <= r < row + call.m
            &&& col <= c < col + call.n
            &&& out.len() == call.m * call.n
            &&& v == out[crate::block::cell(call.m as int, r - row, c - col)]
        };
    assert forall|i: int, j: int| 0 <= i < call.m && 0 <= j < call.n implies call.dst@[
        #[trigger] crate::block::cell(call.m as int, i, j)
    ] == b[p.dst_layout.index(row + i, col + j)] by {
        assert(b[p.dst_layout.index(row + i, col + j)] == a[p.dst_layout.index(row + i, col + j)]);
    }
    assert(crate::sweep::tile_matches(p, conv, b, depth, k, row, col, call));
}

/// The packed blocks are as large as their panels together.
proof fn lemma_block_sizes(params: KernelParams, mr: int, nr: int, packs_rhs: bool, n: int)
    requires
        params@.wf(mr, nr, packs_rhs),
        0 < mr,
        0 < nr,
        0 < n <= params.nc,
    ensures
        0 <= (params.kc * mr) * (params.mc as int / mr) <= usize::MAX,
        0 <= params.kc * mr <= usize::MAX,
        0 <= nr * crate::share::ceil_quotient(n, nr) <= params.nc,
        crate::share::ceil_quotient(n, nr) <= params.nc as int / nr,
        0 <= (params.kc * nr) * (params.nc as int / nr),
        packs_rhs ==> (params.kc * nr) * (params.nc as int / nr) <= usize::MAX,
        0 <= (params.kc * nr) * crate::share::ceil_quotient(n, nr) <= (params.kc * nr) * (
        params.nc as int / nr),
{
    let kc = params.kc as int;
    let mc = params.mc as int;
    let nc = params.nc as int;
    let a = mc / mr;
    let b = nc / nr;
    let g = crate::share::ceil_quotient(n, nr);
    vstd::arithmetic::div_mod::lemma_fundamental_div_mod(mc, mr);
    vstd::arithmetic::div_mod::lemma_fundamental_div_mod(nc, nr);
    crate::share::lemma_ceil_quotient(n, nr);
    assert((kc * mr) * a == kc * mc) by (nonlinear_arith)
        requires
            mc == mr * a,
    ;
    assert((kc * nr) * b == kc * nc) by (nonlinear_arith)
        requires
            nc == nr * b,
    ;
    assert(a >= 1) by (nonlinear_arith)
        requires
            mr * a == mc,
            0 < mc,
            0 < mr,
    ;
    assert(mr <= mc) by (nonlinear_arith)
        requires
            mr * a == mc,
            1 <= a,
            0 < mr,
    ;
    assert(0 <= kc * mr <= kc * mc) by (nonlinear_arith)
        requires
            0 < mr <= mc,
            0 < kc,
    ;
    assert(g <= b) by (nonlinear_arith)
        requires
            nr * (g - 1) < n,
            n <= nr * b,
            0 < nr,
    ;
    assert(0 <= nr * g <= nr * b) by (nonlinear_arith)
        requires
            0 <= g <= b,
            0 < nr,
    ;
    assert(0 <= kc * nr) by (nonlinear_arith)
        requires
            0 < kc,
            0 < nr,
    ;
    assert(0 <= (kc * nr) * g <= (kc * nr) * b) by (nonlinear_arith)
        requires
            0 <= g <= b,
            0 <= kc * nr,
    ;
}

/// Updates the columns from `col_outer` on with one block along the depth.
fn update_block<
    T: Copy + Send + Sync,
    C: Copy + Send + Sync,
    V: Convert<T, C> + Sync,
    S: TileStep<T, C> + Sync,
    const N: usize,
    const MR: usize,
    const NR: usize,
>(
    plan: &Plan<'_, T, C, V, S>,
    dst: &mut [T],
    packed_rhs: &mut Vec<C>,
    col_outer: usize,
    n_chunk: usize,
    depth: usize,
    k_chunk: usize,
)
    requires
        plan.wf(old(dst)@.len() as int, N as int, MR as int, NR as int),
        0 < n_chunk <= plan.params.nc,
        0 < k_chunk <= plan.params.kc,
        col_outer as int % plan.params.nc as int == 0,
        n_chunk == plan.scheme(N, MR, NR).block_width(plan.problem, col_outer as int),
        col_outer + n_chunk <= plan.problem.n,
        depth + k_chunk <= plan.problem.k,
        plan.rhs_direct is None ==> old(packed_rhs)@.len() == (plan.params.kc * NR) * (
        plan.params.nc as int / NR as int),
    ensures
        final(packed_rhs)@.len() == old(packed_rhs)@.len(),
        crate::sweep::swept(
            plan.problem,
            *plan.conv,
            *plan.step,
            plan.scheme(N, MR, NR),
            old(dst)@,
            final(dst)@,
            depth as int,
            k_chunk as int,
            col_outer as int,
            col_outer + n_chunk,
        ),
{
    let p = plan.problem;
    let ghost m = p.m as int;
    proof {
        lemma_block_sizes(
            plan.params,
            MR as int,
            NR as int,
            plan.rhs_direct is None,
            n_chunk as int,
        );
        if plan.parallelism is Rayon {
            let nb = if plan.params.nc < p.n {
                plan.params.nc as int
            } else {
                p.n as int
            };
            let kb = if plan.params.kc < p.k {
                plan.params.kc as int
            } else {
                p.k as int
            };
            assert(m * n_chunk * k_chunk <= m * nb * kb) by (nonlinear_arith)
                requires
                    0 <= n_chunk <= nb,
                    0 <= k_chunk <= kb,
                    0 <= m,
            ;
        }
        assert(m * n_chunk <= m * p.n) by (nonlinear_arith)
            requires
                0 <= n_chunk <= p.n,
                0 <= m,
        ;
        assert(k_chunk * NR <= plan.params.kc * NR && k_chunk * MR <= plan.params.kc * MR)
            by (nonlinear_arith)
            requires
                k_chunk <= plan.params.kc,
        ;
        assert(0 <= p.rhs_layout.index(depth as int, col_outer as int) < p.rhs@.len()
            == p.rhs.len());
    }
    let n_threads = thread_count(
        plan.parallelism,
        p.m,
        n_chunk,
        k_chunk,
        get_threading_threshold(plan.thresholds),
    );
    let rhs_stride: usize = plan.params.kc * NR;
    let lhs_stride: usize = plan.params.kc * MR;
    let rhs_layout = p.rhs_layout.shift(depth, col_outer);
    if plan.rhs_direct.is_none() {
        let columns = rhs_layout.transpose();
        let b = RhsBlock {
            conv: plan.conv,
            src: p.rhs,
            layout: columns,
            n: n_chunk,
            k: k_chunk,
            stride: rhs_stride,
            zero: plan.zero,
            n_threads,
        };
        proof {
            assert forall|i: int, j: int| 0 <= i < n_chunk && 0 <= j < k_chunk implies 0
                <= #[trigger] columns.index(i, j) < p.rhs@.len() by {
                assert(columns.index(i, j) == rhs_layout.index(j, i));
                assert(rhs_layout.index(j, i) == p.rhs_layout.index(depth + j, col_outer + i));
            }
        }
        pack_rhs_block::<T, C, V, NR>(&b, packed_rhs);
    }
    let grid = Grid { m: p.m, n: n_chunk, mc: plan.params.mc, lanes: N, mr: MR, nr: NR };
    let n_jobs: usize = grid.count_jobs();
    let lhs_threshold: usize = if n_threads == 1 {
        get_lhs_packing_threshold_single_thread(plan.thresholds)
    } else {
        get_lhs_packing_threshold_multi_thread(plan.thresholds)
    };
    let (rhs, rhs_packed): (&[C], bool) = match plan.rhs_direct {
        Some(direct) => (direct, false),
        None => (packed_rhs.as_slice(), true),
    };
    let s = Sweep {
        problem: p,
        conv: plan.conv,
        step: plan.step,
        scheme: Ghost(plan.scheme(N, MR, NR)),
        zero: plan.zero,
        grid,
        col_outer,
        depth,
        k_chunk,
        lhs_direct: plan.lhs_direct,
        lhs_stride,
        lhs_threshold,
        rhs,
        rhs_layout,
        rhs_packed,
        rhs_stride,
        n_jobs,
        n_threads,
    };
    sweep::<T, C, V, S, N, MR>(&s, dst);
}

/// `states` are the states that the columns `lo..hi` go through in the first blocks along the depth.
spec fn swept_through<T, C, V: Convert<T, C>, S: TileStep<T, C>>(
    p: Problem<T>,
    conv: V,
    step: S,
    scheme: Scheme<C>,
    states: Seq<Seq<T>>,
    lo: int,
    hi: int,
) -> bool {
    forall|t: int|
        0 <= t < states.len() - 1 ==> crate::sweep::swept(
            p,
            conv,
            step,
            scheme,
            #[trigger] states[t],
            states[t + 1],
            t * scheme.blocking.kc,
            depth_of(p.k as int, scheme.blocking.kc, t),
            lo,
            hi,
        )
}

/// Updates the columns from `col_outer` on with all blocks along the depth. Returns the states that
/// they go through.
fn update_columns<
    T: Copy + Send + Sync,
    C: Copy + Send + Sync,
    V: Convert<T, C> + Sync,
    S: TileStep<T, C> + Sync,
    const N: usize,
    const MR: usize,
    const NR: usize,
>(
    plan: &Plan<'_, T, C, V, S>,
    dst: &mut [T],
    packed_rhs: &mut Vec<C>,
    col_outer: usize,
    n_chunk: usize,
) -> (states: Ghost<Seq<Seq<T>>>)
    requires
        plan.wf(old(dst)@.len() as int, N as int, MR as int, NR as int),
        0 < n_chunk <= plan.params.nc,
        col_outer as int % plan.params.nc as int == 0,
        n_chunk == plan.scheme(N, MR, NR).block_width(plan.problem, col_outer as int),
        col_outer + n_chunk <= plan.problem.n,
        plan.rhs_direct is None ==> old(packed_rhs)@.len() == (plan.params.kc * NR) * (
        plan.params.nc as int / NR as int),
    ensures
        final(packed_rhs)@.len() == old(packed_rhs)@.len(),
        states@.len() == crate::share::ceil_quotient(
            plan.problem.k as int,
            plan.params.kc as int,
        ) + 1,
        states@[0] == old(dst)@,
        states@.last() == final(dst)@,
        swept_through(
            plan.problem,
            *plan.conv,
            *plan.step,
            plan.scheme(N, MR, NR),
            states@,
            col_outer as int,
            col_outer + n_chunk,
        ),
        plan.problem.dst_layout.same_beside(
            old(dst)@,
            final(dst)@,
            plan.problem.m as int,
            col_outer as int,
            col_outer + n_chunk,
        ),
{
    let ghost p = plan.problem;
    let ghost scheme = plan.scheme(N, MR, NR);
    let ghost kc = plan.params.kc as int;
    let ghost k = p.k as int;
    let ghost lo = col_outer as int;
    let ghost hi = col_outer + n_chunk;
    let ghost mut states: Seq<Seq<T>> = seq![dst@];
    let ghost mut t: int = 0;
    let mut depth_outer: usize = 0;
    while depth_outer != plan.problem.k
        invariant
            plan.wf(dst@.len() as int, N as int, MR as int, NR as int),
            p == plan.problem,
            scheme == plan.scheme(N, MR, NR),
            kc == plan.params.kc,
            k == p.k,
            col_outer as int % plan.params.nc as int == 0,
            n_chunk == scheme.block_width(p, col_outer as int),
            lo == col_outer,
            hi == col_outer + n_chunk,
            0 < n_chunk <= plan.params.nc,
            hi <= p.n,
            packed_rhs@.len() == old(packed_rhs)@.len(),
            plan.rhs_direct is None ==> packed_rhs@.len() == (plan.params.kc * NR) * (
            plan.params.nc as int / NR as int),
            0 <= t,
            states.len() == t + 1,
            states[0] == old(dst)@,
            states[t] == dst@,
            swept_through(p, *plan.conv, *plan.step, scheme, states, lo, hi),
            p.dst_layout.same_beside(old(dst)@, dst@, p.m as int, lo, hi),
            depth_outer <= k,
            depth_outer == if t * kc < k {
                t * kc
            } else {
                k
            },
            0 < t ==> (t - 1) * kc < k,
        decreases k - depth_outer,
    {
        let left: usize = plan.problem.k - depth_outer;
        let k_chunk: usize = if plan.params.kc < left {
            plan.params.kc
        } else {
            left
        };
        let ghost before = dst@;
        let ghost earlier = states;
        update_block::<T, C, V, S, N, MR, NR>(
            plan,
            dst,
            packed_rhs,
            col_outer,
            n_chunk,
            depth_outer,
            k_chunk,
        );
        proof {
            states = earlier.push(dst@);
            assert((t + 1) * kc == t * kc + kc) by (nonlinear_arith);
            assert forall|u: int| 0 <= u < states.len() - 1 implies crate::sweep::swept(
                p,
                *plan.conv,
                *plan.step,
                scheme,
                #[trigger] states[u],
                states[u + 1],
                u * kc,
                depth_of(k, kc, u),
                lo,
                hi,
            ) by {
                if u < t {
                    assert(states[u] == earlier[u]);
                    assert(states[u + 1] == earlier[u + 1]);
                }
            }
            assert forall|q: int|
                0 <= q < dst@.len() && !p.dst_layout.holds(
                    p.m as int,
                    lo,
                    hi,
                    q,
                ) implies #[trigger] dst@[q] == old(dst)@[q] by {
                assert(dst@[q] == before[q]);
            }
            t = t + 1;
        }
        depth_outer = depth_outer + k_chunk;
    }
    proof {
        crate::share::lemma_ceil_quotient(k, kc);
        let c = crate::share::ceil_quotient(k, kc);
        assert(t == c) by (nonlinear_arith)
            requires
                kc * (c - 1) < k <= kc * c,
                (t - 1) * kc < k <= t * kc,
                0 < kc,
        ;
    }
    Ghost(states)
}

/// The states that all columns up to `hi` go through, from those of the columns up to `lo` and those
/// of the columns between.
spec fn merged<T>(
    p: Problem<T>,
    lo: int,
    hi: int,
    left: Seq<Seq<T>>,
    right: Seq<Seq<T>>,
) -> Seq<Seq<T>> {
    Seq::new(
        left.len(),
        |t: int|
            Seq::new(
                left[t].len(),
                |q: int|
                    if p.dst_layout.holds(p.m as int, lo, hi, q) {
                        right[t][q]
                    } else {
                        left[t][q]
                    },
            ),
    )
}

/// Column blocks do not meddle with one another: what their columns go through is put together.
proof fn lemma_merged<T, C, V: Convert<T, C>, S: TileStep<T, C>>(
    p: Problem<T>,
    conv: V,
    step: S,
    scheme: Scheme<C>,
    left: Seq<Seq<T>>,
    right: Seq<Seq<T>>,
    pre: Seq<T>,
    mid: Seq<T>,
    post: Seq<T>,
    lo: int,
    hi: int,
)
    requires
        p.wf(pre.len() as int),
        0 < p.k,
        0 < scheme.blocking.kc,
        0 <= lo <= hi <= p.n,
        passes_through(p, conv, step, scheme, left, pre, mid, 0, lo),
        forall|t: int| 0 <= t < left.len() ==> (#[trigger] left[t]).len() == pre.len(),
        right.len() == left.len(),
        right[0] == mid,
        right.last() == post,
        swept_through(p, conv, step, scheme, right, lo, hi),
        p.dst_layout.same_beside(pre, mid, p.m as int, 0, lo),
        p.dst_layout.same_beside(mid, post, p.m as int, lo, hi),
    ensures
        passes_through(p, conv, step, scheme, merged(p, lo, hi, left, right), pre, post, 0, hi),
        p.dst_layout.same_beside(pre, post, p.m as int, 0, hi),
{
    let kc = scheme.blocking.kc;
    let all = merged(p, lo, hi, left, right);
    let l = p.dst_layout;
    let blocks = crate::share::ceil_quotient(p.k as int, kc);
    let m = p.m as int;
    crate::share::lemma_ceil_quotient(p.k as int, kc);
    assert forall|i: int, j: int| 0 <= i < m && 0 <= j < lo implies !l.holds(
        m,
        lo,
        hi,
        #[trigger] l.index(i, j),
    ) by {
        if l.holds(m, lo, hi, l.index(i, j)) {
            let (i2, j2) = choose|i2: int, j2: int|
                0 <= i2 < m && lo <= j2 < hi && #[trigger] l.index(i2, j2) == l.index(i, j);
            assert(j2 == j);
        }
    }
    assert forall|i: int, j: int| 0 <= i < m && lo <= j < hi implies !l.holds(
        m,
        0,
        lo,
        #[trigger] l.index(i, j),
    ) && l.holds(m, lo, hi, l.index(i, j)) by {
        if l.holds(m, 0, lo, l.index(i, j)) {
            let (i2, j2) = choose|i2: int, j2: int|
                0 <= i2 < m && 0 <= j2 < lo && #[trigger] l.index(i2, j2) == l.index(i, j);
            assert(j2 == j);
        }
    }
    assert forall|q: int| 0 <= q < pre.len() && !l.holds(m, 0, hi, q) implies #[trigger] post[q]
        == pre[q] by {
        if l.holds(m, 0, lo, q) {
            let (i2, j2) = choose|i2: int, j2: int|
                0 <= i2 < m && 0 <= j2 < lo && #[trigger] l.index(i2, j2) == q;
            assert(l.holds(m, 0, hi, q));
        }
        if l.holds(m, lo, hi, q) {
            let (i2, j2) = choose|i2: int, j2: int|
                0 <= i2 < m && lo <= j2 < hi && #[trigger] l.index(i2, j2) == q;
            assert(l.holds(m, 0, hi, q));
        }
        assert(post[q] == mid[q]);
        assert(mid[q] == pre[q]);
    }
    assert(all[0] =~= pre) by {
        assert forall|q: int| 0 <= q < pre.len() implies all[0][q] == pre[q] by {
            if l.holds(m, lo, hi, q) {
                let (i2, j2) = choose|i2: int, j2: int|
                    0 <= i2 < m && lo <= j2 < hi && #[trigger] l.index(i2, j2) == q;
                assert(!l.holds(m, 0, lo, l.index(i2, j2)));
                assert(mid[q] == pre[q]);
            }
        }
    }
    assert(all[blocks] =~= post) by {
        assert(left[blocks].len() == pre.len());
        assert forall|q: int| 0 <= q < pre.len() implies all[blocks][q] == post[q] by {
            if !l.holds(m, lo, hi, q) {
                assert(post[q] == mid[q]);
            }
        }
    }
    assert forall|t: int| 0 <= t < blocks implies #[trigger] advances(
        p,
        conv,
        step,
        scheme,
        all,
        0,
        hi,
        t,
    ) by {
        assert(left[t].len() == pre.len() && left[t + 1].len() == pre.len());
        assert(advances(p, conv, step, scheme, left, 0, lo, t));
        assert(crate::sweep::swept(
            p,
            conv,
            step,
            scheme,
            right[t],
            right[t + 1],
            t * kc,
            depth_of(p.k as int, kc, t),
            lo,
            hi,
        ));
        assert forall|r: int, c: int| 0 <= r < m && 0 <= c < hi implies crate::sweep::stepped_to(
            p,
            conv,
            step,
            scheme,
            all[t],
            t * kc,
            depth_of(p.k as int, kc, t),
            0,
            hi,
            r,
            c,
            all[t + 1][#[trigger] l.index(r, c)],
        ) by {
            let v = all[t + 1][l.index(r, c)];
            if c < lo {
                assert(!l.holds(m, lo, hi, l.index(r, c)));
                assert(v == left[t + 1][l.index(r, c)]);
                assert forall|i: int, j: int| 0 <= i < m && 0 <= j < lo implies all[t][
                    #[trigger] l.index(i, j)
                ] == left[t][l.index(i, j)] by {
                    assert(!l.holds(m, lo, hi, l.index(i, j)));
                }
                lemma_stepped_elsewhere(
                    p,
                    conv,
                    step,
                    scheme,
                    left[t],
                    all[t],
                    t * kc,
                    depth_of(p.k as int, kc, t),
                    0,
                    lo,
                    0,
                    hi,
                    r,
                    c,
                    v,
                );
            } else {
                assert(l.holds(m, lo, hi, l.index(r, c)));
                assert(v == right[t + 1][l.index(r, c)]);
                assert forall|i: int, j: int| 0 <= i < m && lo <= j < hi implies all[t][
                    #[trigger] l.index(i, j)
                ] == right[t][l.index(i, j)] by {
                    assert(l.holds(m, lo, hi, l.index(i, j)));
                }
                lemma_stepped_elsewhere(
                    p,
                    conv,
                    step,
                    scheme,
                    right[t],
                    all[t],
                    t * kc,
                    depth_of(p.k as int, kc, t),
                    lo,
                    hi,
                    0,
                    hi,
                    r,
                    c,
                    v,
                );
            }
        }
    }
}

/// Computes the product.
pub(crate) fn multiply_blocked<
    T: Copy + Send + Sync,
    C: Copy + Send + Sync,
    V: Convert<T, C> + Sync,
    S: TileStep<T, C> + Sync,
    const N: usize,
    const MR: usize,
    const NR: usize,
>(plan: &Plan<'_, T, C, V, S>, dst: &mut [T])
    requires
        plan.wf(old(dst)@.len() as int, N as int, MR as int, NR as int),
    ensures
        accumulated(
            plan.problem,
            *plan.conv,
            *plan.step,
            plan.scheme(N, MR, NR),
            old(dst)@,
            final(dst)@,
        ),
{
    let ghost p = plan.problem;
    let ghost scheme = plan.scheme(N, MR, NR);
    let ghost kc = plan.params.kc as int;
    let ghost pre = dst@;
    let ghost blocks = crate::share::ceil_quotient(p.k as int, kc);
    let n = plan.problem.n;
    let ghost mut states: Seq<Seq<T>> = Seq::new((blocks + 1) as nat, |t: int| pre);
    proof {
        crate::share::lemma_ceil_quotient(p.k as int, kc);
        lemma_block_sizes(plan.params, MR as int, NR as int, plan.rhs_direct is None, 1);
    }
    let mut packed_rhs: Vec<C> = if plan.rhs_direct.is_none() {
        filled((plan.params.kc * NR) * (plan.params.nc / NR), plan.zero)
    } else {
        Vec::new()
    };
    let mut col_outer: usize = 0;
    while col_outer != n
        invariant
            plan.wf(dst@.len() as int, N as int, MR as int, NR as int),
            p == plan.problem,
            n == p.n,
            scheme == plan.scheme(N, MR, NR),
            kc == plan.params.kc,
            col_outer == n || col_outer as int % plan.params.nc as int == 0,
            blocks == crate::share::ceil_quotient(p.k as int, kc),
            pre == old(dst)@,
            plan.rhs_direct is None ==> packed_rhs@.len() == (plan.params.kc * NR) * (
            plan.params.nc as int / NR as int),
            col_outer <= n,
            passes_through(
                p,
                *plan.conv,
                *plan.step,
                scheme,
                states,
                pre,
                dst@,
                0,
                col_outer as int,
            ),
            forall|t: int| 0 <= t < states.len() ==> (#[trigger] states[t]).len() == pre.len(),
            p.dst_layout.same_beside(pre, dst@, p.m as int, 0, col_outer as int),
        decreases n - col_outer,
    {
        let left: usize = n - col_outer;
        let n_chunk: usize = if plan.params.nc < left {
            plan.params.nc
        } else {
            left
        };
        let ghost mid = dst@;
        let found = update_columns::<T, C, V, S, N, MR, NR>(
            plan,
            dst,
            &mut packed_rhs,
            col_outer,
            n_chunk,
        );
        proof {
            lemma_merged(
                p,
                *plan.conv,
                *plan.step,
                scheme,
                states,
                found@,
                pre,
                mid,
                dst@,
                col_outer as int,
                col_outer + n_chunk,
            );
            states = merged(p, col_outer as int, col_outer + n_chunk, states, found@);
            if col_outer + n_chunk != n {
                vstd::arithmetic::div_mod::lemma_mod_add_multiples_vanish(
                    col_outer as int,
                    plan.params.nc as int,
                );
            }
        }
        col_outer = col_outer + n_chunk;
    }
}

} // verus!
