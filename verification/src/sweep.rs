//! One update of a column block of the destination with a slice of the operands along the depth.

use crate::block::gather;
use crate::block::scatter;
use crate::convert::Convert;
use crate::grid::Grid;
use crate::grid::Tile;
use crate::kernel::TileCall;
use crate::kernel::TileStep;
use crate::layout::Layout;
use crate::pack::pack_generic;
use crate::parallel::par_for_each;
use crate::scheme::Scheme;
use vstd::prelude::*;

verus! {

/// The operands of a product, and where the entries of the destination are.
pub struct Problem<'a, T> {
    /// Rows of the destination and of the left operand.
    pub m: usize,
    /// Columns of the destination and of the right operand.
    pub n: usize,
    /// Columns of the left operand and rows of the right one.
    pub k: usize,
    pub lhs: &'a [T],
    pub lhs_layout: Layout,
    pub rhs: &'a [T],
    pub rhs_layout: Layout,
    pub dst_layout: Layout,
}

impl<'a, T> Clone for Problem<'a, T> {
    fn clone(&self) -> (r: Self)
        ensures
            r == *self,
    {
        Problem {
            m: self.m,
            n: self.n,
            k: self.k,
            lhs: self.lhs,
            lhs_layout: self.lhs_layout,
            rhs: self.rhs,
            rhs_layout: self.rhs_layout,
            dst_layout: self.dst_layout,
        }
    }
}

impl<'a, T> Copy for Problem<'a, T> {

}

impl<'a, T> Problem<'a, T> {
    /// All entries lie inside their buffers, those of the destination do not share elements, and
    /// they can be counted. The operands of an empty destination do not matter.
    pub open spec fn wf(self, dst_len: int) -> bool {
        &&& self.m > 0 && self.n > 0 ==> {
            &&& self.lhs_layout.fits(self.lhs@.len() as int, self.m as int, self.k as int)
            &&& self.rhs_layout.fits(self.rhs@.len() as int, self.k as int, self.n as int)
        }
        &&& self.dst_layout.fits(dst_len, self.m as int, self.n as int)
        &&& self.dst_layout.distinct(self.m as int, self.n as int)
        &&& self.m * self.n <= usize::MAX
    }
}

/// The operands of a step are those of the tile whose first entry is `(row, col)`: the tile as it
/// is in `pre`, the matching rows of the left and columns of the right operand between `depth` and
/// `depth + k`.
pub open spec fn tile_matches<T, C, V: Convert<T, C>>(
    p: Problem<T>,
    conv: V,
    pre: Seq<T>,
    depth: int,
    k: int,
    row: int,
    col: int,
    call: TileCall<T, C>,
) -> bool {
    &&& 0 <= row <= row + call.m <= p.m
    &&& 0 <= col <= col + call.n <= p.n
    &&& call.k == k
    &&& call.first == (depth == 0)
    &&& crate::block::is_block(
        call.dst@,
        pre,
        p.dst_layout,
        row,
        col,
        call.m as int,
        call.n as int,
    )
    &&& forall|r: int, d: int|
        0 <= r < call.m && 0 <= d < k ==> conv.converts(
            p.lhs@[p.lhs_layout.index(row + r, depth + d)],
            call.lhs@[#[trigger] call.lhs_layout.index(r, d)],
        )
    &&& forall|d: int, c: int|
        0 <= d < k && 0 <= c < call.n ==> conv.converts(
            p.rhs@[p.rhs_layout.index(depth + d, col + c)],
            call.rhs@[#[trigger] call.rhs_layout.index(d, c)],
        )
}

/// `v` is what a step makes of entry `(r, c)` of the destination `pre`. It is the step for the tile
/// that the scheme puts the entry in, and the tile lies within the columns `lo..hi`.
pub open spec fn stepped_to<T, C, V: Convert<T, C>, S: TileStep<T, C>>(
    p: Problem<T>,
    conv: V,
    step: S,
    scheme: Scheme<C>,
    pre: Seq<T>,
    depth: int,
    k: int,
    lo: int,
    hi: int,
    r: int,
    c: int,
    v: T,
) -> bool {
    exists|call: TileCall<T, C>, out: Seq<T>, row: int, col: int|
        #![trigger tile_matches(p, conv, pre, depth, k, row, col, call), step.yields(call, out)]
        {
            &&& tile_matches(p, conv, pre, depth, k, row, col, call)
            &&& step.accepts(call)
            &&& step.yields(call, out)
            &&& row == scheme.tile_of(p, r, c).row_outer + scheme.tile_of(p, r, c).row_inner
            &&& col == scheme.block_start(c) + scheme.tile_of(p, r, c).col_inner
            &&& scheme.placed(
                p,
                depth,
                k,
                scheme.block_start(c),
                scheme.tile_of(p, r, c),
                call,
            )
            &&& lo <= col
            &&& col + call.n <= hi
            &&& row <= r < row + call.m
            &&& col <= c < col + call.n
            &&& out.len() == call.m * call.n
            &&& v == out[crate::block::cell(call.m as int, r - row, c - col)]
        }
}

/// Every entry of the columns `lo..hi` has been stepped, and nothing else has changed.
pub open spec fn swept<T, C, V: Convert<T, C>, S: TileStep<T, C>>(
    p: Problem<T>,
    conv: V,
    step: S,
    scheme: Scheme<C>,
    pre: Seq<T>,
    post: Seq<T>,
    depth: int,
    k: int,
    lo: int,
    hi: int,
) -> bool {
    &&& p.dst_layout.same_beside(pre, post, p.m as int, lo, hi)
    &&& forall|r: int, c: int|
        0 <= r < p.m && lo <= c < hi ==> stepped_to(
            p,
            conv,
            step,
            scheme,
            pre,
            depth,
            k,
            lo,
            hi,
            r,
            c,
            post[#[trigger] p.dst_layout.index(r, c)],
        )
}

/// Everything that the tiles of one sweep have in common.
pub struct Sweep<'a, T, C, V, S> {
    pub problem: Problem<'a, T>,
    pub conv: &'a V,
    pub step: &'a S,
    pub scheme: Ghost<Scheme<'a, C>>,
    /// What unused parts of a packed panel are filled with.
    pub zero: C,
    /// How the column block is cut into tiles.
    pub grid: Grid,
    /// First column of the block.
    pub col_outer: usize,
    /// First column of the left operand and row of the right one.
    pub depth: usize,
    /// Number of columns of the left operand and rows of the right one.
    pub k_chunk: usize,
    /// The left operand in the computing precision, if it may be read in place.
    pub lhs_direct: Option<&'a [C]>,
    /// Distance of the panels of the packed left operand.
    pub lhs_stride: usize,
    /// Number of tiles side by side above which the left operand is packed in any case.
    pub lhs_threshold: usize,
    /// The right operand: packed, or as it is.
    pub rhs: &'a [C],
    /// Where the rows and columns that are needed are, if the right operand is not packed.
    pub rhs_layout: Layout,
    /// The right operand is packed.
    pub rhs_packed: bool,
    /// Distance of the panels of the packed right operand.
    pub rhs_stride: usize,
    pub n_jobs: usize,
    pub n_threads: usize,
}

/// A tile and what a step made of it.
pub struct TileOut<T> {
    pub tile: Tile,
    pub values: Vec<T>,
}

impl<'a, T, C, V: Convert<T, C>, S: TileStep<T, C>> Sweep<'a, T, C, V, S> {
    /// The left operand that may be read in place really is the left operand.
    pub open spec fn lhs_ok(self) -> bool {
        self.lhs_direct matches Some(direct) ==> {
            &&& direct@.len() == self.problem.lhs@.len()
            &&& forall|q: int|
                0 <= q < direct@.len() ==> self.conv.converts(
                    self.problem.lhs@[q],
                    #[trigger] direct@[q],
                )
        }
    }

    /// The right operand holds, packed or in place, what the sweep needs of it.
    pub open spec fn rhs_ok(self) -> bool {
        let p = self.problem;
        if self.rhs_packed {
            &&& self.k_chunk * self.grid.nr <= self.rhs_stride
            &&& self.rhs_stride * self.grid.tiles_across() <= self.rhs@.len()
            &&& crate::pack::operand_packed(
                *self.conv,
                p.rhs@,
                self.rhs_layout.transposed(),
                self.grid.n as int,
                self.k_chunk as int,
                self.rhs@,
                0,
                self.grid.nr as int,
                self.rhs_stride as int,
            )
        } else {
            &&& self.rhs@.len() == p.rhs@.len()
            &&& forall|q: int|
                0 <= q < p.rhs@.len() ==> self.conv.converts(p.rhs@[q], #[trigger] self.rhs@[q])
        }
    }

    /// The sweep follows the scheme.
    pub open spec fn scheme_ok(self) -> bool {
        let p = self.problem;
        let h = self.scheme@;
        &&& 0 < h.blocking.nc
        &&& self.col_outer as int % h.blocking.nc == 0
        &&& self.grid == h.grid(p, self.col_outer as int)
        &&& self.grid.n == h.block_width(p, self.col_outer as int)
        &&& self.lhs_direct == h.lhs_direct
        &&& self.rhs_packed == (h.rhs_direct is None)
        &&& h.rhs_direct matches Some(direct) ==> self.rhs@ == direct@
        &&& self.lhs_stride == h.blocking.kc * h.mr
        &&& self.rhs_stride == h.blocking.kc * h.nr
        &&& self.lhs_threshold == h.lhs_threshold(self.n_threads as int)
        &&& crate::tuning::thread_count_ok(
            self.n_threads as int,
            h.parallelism,
            p.m * self.grid.n * self.k_chunk,
            h.thresholds.threading,
        )
    }

    pub open spec fn wf(self, pre: Seq<T>, lanes: int, mr: int, nr: int) -> bool {
        let p = self.problem;
        &&& self.scheme_ok()
        &&& p.wf(pre.len() as int)
        &&& self.conv.ready()
        &&& self.grid.wf()
        &&& self.grid.m == p.m
        &&& self.grid.lanes == lanes
        &&& self.grid.mr == mr
        &&& self.grid.nr == nr
        &&& mr <= isize::MAX
        &&& nr <= isize::MAX
        &&& mr % lanes == 0
        &&& self.grid.mc % self.grid.mr == 0
        &&& self.col_outer + self.grid.n <= p.n
        &&& 0 < self.grid.n
        &&& 0 < p.m
        &&& 0 < self.k_chunk
        &&& self.depth + self.k_chunk <= p.k
        &&& self.k_chunk * self.grid.mr <= self.lhs_stride
        &&& self.lhs_stride * (self.grid.mc / self.grid.mr) <= usize::MAX
        &&& self.lhs_ok()
        &&& self.rhs_ok()
        &&& self.rhs_layout.rs == p.rhs_layout.rs
        &&& self.rhs_layout.cs == p.rhs_layout.cs
        &&& forall|a: int, b: int| #[trigger]
            self.rhs_layout.index(a, b) == p.rhs_layout.index(self.depth + a, self.col_outer + b)
        &&& forall|call: TileCall<T, C>|
            call.wf(lanes, mr, nr) ==> #[trigger] self.step.accepts(call)
        &&& self.n_jobs == self.grid.jobs_from(0)
        &&& 0 < self.n_threads
    }

    /// `values` is what a step made of `tile`.
    pub open spec fn tile_done(self, pre: Seq<T>, tile: Tile, values: Seq<T>) -> bool {
        &&& values.len() == tile.m * tile.n
        &&& exists|call: TileCall<T, C>|
            {
                &&& #[trigger] tile_matches(
                    self.problem,
                    *self.conv,
                    pre,
                    self.depth as int,
                    self.k_chunk as int,
                    tile.row_outer + tile.row_inner,
                    self.col_outer + tile.col_inner,
                    call,
                )
                &&& self.scheme@.placed(
                    self.problem,
                    self.depth as int,
                    self.k_chunk as int,
                    self.col_outer as int,
                    tile@,
                    call,
                )
                &&& self.step.accepts(call)
                &&& self.step.yields(call, values)
            }
    }
}

/// `len` copies of `value`.
pub(crate) fn filled<C: Copy>(len: usize, value: C) -> (out: Vec<C>)
    ensures
        out@ == Seq::new(len as nat, |i: int| value),
{
    let mut out: Vec<C> = Vec::new();
    let mut i: usize = 0;
    while i < len
        invariant
            i <= len,
            out@ == Seq::new(i as nat, |t: int| value),
        decreases len - i,
    {
        out.push(value);
        i = i + 1;
    }
    out
}

/// `n` is more than `factor * unit`.
pub(crate) fn exceeds(n: usize, factor: usize, unit: usize) -> (r: bool)
    ensures
        r == (n > factor * unit),
{
    proof {
        assert(0 <= factor * unit <= 0xffff_ffff_ffff_ffff * 0xffff_ffff_ffff_ffff)
            by (nonlinear_arith)
            requires
                0 <= factor <= 0xffff_ffff_ffff_ffff,
                0 <= unit <= 0xffff_ffff_ffff_ffff,
        ;
    }
    (n as u128) > (factor as u128) * (unit as u128)
}

/// The panel that starts with row `first` is where the packed operand says it is.
proof fn lemma_panel_view<T, C, V: Convert<T, C>>(
    conv: V,
    src: Seq<T>,
    layout: Layout,
    m: int,
    k: int,
    buf: Seq<C>,
    w: int,
    stride: int,
    first: int,
)
    requires
        0 < w,
        0 <= k,
        k * w <= stride,
        0 <= first < m,
        first % w == 0,
        stride * crate::share::ceil_quotient(m, w) <= buf.len(),
        crate::pack::operand_packed(conv, src, layout, m, k, buf, 0, w, stride),
    ensures
        0 <= (first / w) * stride,
        (first / w) * stride + k * w <= buf.len(),
        (first / w) * stride + stride <= buf.len(),
        forall|j: int, d: int|
            0 <= j < w && 0 <= j < m - first && 0 <= d < k ==> conv.converts(
                src[layout.index(first + j, d)],
                buf[#[trigger] crate::pack::slot((first / w) * stride, w, j, d)],
            ),
{
    let g = first / w;
    let panels = crate::share::ceil_quotient(m, w);
    crate::share::lemma_ceil_quotient(m, w);
    vstd::arithmetic::div_mod::lemma_fundamental_div_mod(first, w);
    assert(g * w == first) by (nonlinear_arith)
        requires
            first == w * g,
    ;
    assert(0 <= g < panels) by (nonlinear_arith)
        requires
            w * g == first,
            0 <= first < m,
            m <= w * panels,
            0 < w,
    ;
    assert(0 <= k * w) by (nonlinear_arith)
        requires
            0 <= k,
            0 < w,
    ;
    assert(0 <= g * stride && g * stride + stride <= stride * panels) by (nonlinear_arith)
        requires
            0 <= g,
            g + 1 <= panels,
            0 <= stride,
    ;
    assert(crate::pack::holds_panel(conv, src, layout, m, k, buf, 0, w, stride, g));
    assert(crate::pack::panel_start(0, stride, g) == g * stride);
}

/// A packed panel is a matrix whose rows lie next to one another.
proof fn lemma_panel_layout(l: Layout, w: int)
    requires
        l.rs == 1,
        l.cs == w,
    ensures
        forall|j: int, d: int| #[trigger]
            l.index(j, d) == crate::pack::slot(l.at as int, w, j, d),
{
    reveal(Layout::index);
    reveal(crate::pack::slot);
}

proof fn lemma_panel_layout_transposed(l: Layout, w: int)
    requires
        l.rs == w,
        l.cs == 1,
    ensures
        forall|d: int, j: int| #[trigger]
            l.index(d, j) == crate::pack::slot(l.at as int, w, j, d),
{
    reveal(Layout::index);
    reveal(crate::pack::slot);
}

/// Rounding the rows of a tile up to whole vectors does not leave the tile size, and does nothing
/// where the tile is made of whole vectors.
proof fn lemma_whole_vectors(m: int, lanes: int, mr: int)
    requires
        0 < lanes,
        0 < m <= mr,
        mr % lanes == 0,
    ensures
        m <= crate::kernel::whole_vectors(m, lanes) <= mr,
        m % lanes == 0 ==> crate::kernel::whole_vectors(m, lanes) == m,
{
    crate::share::lemma_ceil_quotient(m, lanes);
    let q = crate::share::ceil_quotient(m, lanes);
    vstd::arithmetic::div_mod::lemma_fundamental_div_mod(mr, lanes);
    vstd::arithmetic::div_mod::lemma_fundamental_div_mod(m, lanes);
    let b = mr / lanes;
    assert(q * lanes == lanes * q) by (nonlinear_arith);
    assert(q <= b) by (nonlinear_arith)
        requires
            lanes * (q - 1) < m,
            m <= mr,
            mr == lanes * b,
            0 < lanes,
    ;
    assert(lanes * q <= lanes * b) by (nonlinear_arith)
        requires
            q <= b,
            0 < lanes,
    ;
}

/// Where the columns of the right operand for `tile` are.
fn rhs_for_tile<T: Copy, C: Copy, V: Convert<T, C>, S: TileStep<T, C>>(
    s: &Sweep<'_, T, C, V, S>,
    Ghost(pre): Ghost<Seq<T>>,
    tile: Tile,
) -> (l: Layout)
    requires
        s.wf(pre, s.grid.lanes as int, s.grid.mr as int, s.grid.nr as int),
        s.grid.has_tile(tile@),
    ensures
        l.fits(s.rhs@.len() as int, s.k_chunk as int, tile.n as int),
        s.scheme@.rhs_placed(
            s.problem,
            s.depth as int,
            s.col_outer as int,
            tile@,
            s.rhs@,
            l,
        ),
        forall|d: int, c: int|
            0 <= d < s.k_chunk && 0 <= c < tile.n ==> s.conv.converts(
                s.problem.rhs@[s.problem.rhs_layout.index(
                    s.depth + d,
                    s.col_outer + tile.col_inner + c,
                )],
                s.rhs@[#[trigger] l.index(d, c)],
            ),
{
    let ghost p = s.problem;
    let ghost k = s.k_chunk as int;
    if s.rhs_packed {
        let ghost t = s.rhs_layout.transposed();
        proof {
            lemma_panel_view(
                *s.conv,
                p.rhs@,
                t,
                s.grid.n as int,
                k,
                s.rhs@,
                s.grid.nr as int,
                s.rhs_stride as int,
                tile.col_inner as int,
            );
            assert(s.rhs@.len() == s.rhs.len());
            assert(0 <= k * s.grid.nr) by (nonlinear_arith)
                requires
                    0 <= k,
                    0 <= s.grid.nr,
            ;
        }
        let at: usize = tile.col_inner / s.grid.nr * s.rhs_stride;
        let l = Layout { at, rs: s.grid.nr as isize, cs: 1 };
        proof {
            lemma_panel_layout_transposed(l, s.grid.nr as int);
            assert forall|d: int, c: int| 0 <= d < k && 0 <= c < tile.n implies 0
                <= #[trigger] l.index(d, c) < s.rhs@.len() by {
                crate::pack::lemma_slot(at as int, s.grid.nr as int, c, d, k);
            }
            assert forall|d: int, c: int|
                0 <= d < k && 0 <= c < tile.n implies s.conv.converts(
                p.rhs@[p.rhs_layout.index(s.depth + d, s.col_outer + tile.col_inner + c)],
                s.rhs@[#[trigger] l.index(d, c)],
            ) by {
                let q = crate::pack::slot(at as int, s.grid.nr as int, c, d);
                assert(s.conv.converts(p.rhs@[t.index(tile.col_inner + c, d)], s.rhs@[q]));
                assert(t.index(tile.col_inner + c, d) == s.rhs_layout.index(
                    d,
                    tile.col_inner + c,
                )) by {
                    reveal(Layout::index);
                }
                assert(s.rhs_layout.index(d, tile.col_inner + c) == p.rhs_layout.index(
                    s.depth + d,
                    s.col_outer + (tile.col_inner + c),
                ));
            }
        }
        l
    } else {
        proof {
            assert(s.rhs_layout.index(0, tile.col_inner as int) == p.rhs_layout.index(
                s.depth + 0,
                s.col_outer + tile.col_inner,
            ));
            assert(s.rhs@.len() == s.rhs.len());
        }
        let l = s.rhs_layout.shift(0, tile.col_inner);
        proof {
            assert forall|d: int, c: int| 0 <= d < k && 0 <= c < tile.n implies 0
                <= #[trigger] l.index(d, c) < s.rhs@.len() && l.index(d, c)
                == p.rhs_layout.index(s.depth + d, s.col_outer + tile.col_inner + c) by {
                assert(l.index(d, c) == s.rhs_layout.index(0 + d, tile.col_inner + c));
                assert(s.rhs_layout.index(d, tile.col_inner + c) == p.rhs_layout.index(
                    s.depth + d,
                    s.col_outer + (tile.col_inner + c),
                ));
            }
        }
        l
    }
}

/// Packs the rows of the panel that `tile` belongs to.
fn pack_panel<
    T: Copy,
    C: Copy,
    V: Convert<T, C>,
    S: TileStep<T, C>,
    const N: usize,
    const MR: usize,
>(s: &Sweep<'_, T, C, V, S>, Ghost(pre): Ghost<Seq<T>>, tile: Tile, packed: &mut Vec<C>) -> (sub:
    Ghost<Layout>)
    requires
        s.wf(pre, N as int, MR as int, s.grid.nr as int),
        s.grid.has_tile(tile@),
        old(packed)@.len() == s.lhs_stride * (s.grid.mc / s.grid.mr),
    ensures
        final(packed)@.len() == old(packed)@.len(),
        panel_ready(*s, tile.row_outer as int, tile.m_chunk as int, sub@, final(packed)@),
{
    let ghost p = s.problem;
    proof {
        s.grid.lemma_chunk(tile.row_outer as int);
        lemma_panel_room(
            tile.m_chunk as int,
            s.grid.mc as int,
            MR as int,
            s.k_chunk as int,
            s.lhs_stride as int,
        );
        assert(0 <= p.lhs_layout.index(tile.row_outer as int, s.depth as int) < p.lhs@.len());
        assert(s.problem.lhs@.len() == s.problem.lhs.len());
    }
    let sub = s.problem.lhs_layout.shift(tile.row_outer, s.depth);
    proof {
        assert forall|a: int, b: int| 0 <= a < tile.m_chunk && 0 <= b < s.k_chunk implies 0
            <= #[trigger] sub.index(a, b) < p.lhs@.len() by {
            assert(sub.index(a, b) == p.lhs_layout.index(tile.row_outer + a, s.depth + b));
        }
        vstd::arithmetic::div_mod::lemma_fundamental_div_mod(MR as int, N as int);
        assert(N <= MR) by (nonlinear_arith)
            requires
                MR == N * (MR as int / N as int) + 0,
                0 < MR,
                0 < N,
        ;
    }
    pack_generic::<T, C, V, N, MR>(
        s.conv,
        tile.m_chunk,
        s.k_chunk,
        packed.as_mut_slice(),
        0,
        s.problem.lhs,
        sub,
        s.lhs_stride,
        s.zero,
    );
    Ghost(sub)
}

/// `packed` holds the panel of `m_chunk` rows that starts at `row`.
spec fn panel_ready<T, C, V: Convert<T, C>, S: TileStep<T, C>>(
    s: Sweep<'_, T, C, V, S>,
    row: int,
    m_chunk: int,
    sub: Layout,
    packed: Seq<C>,
) -> bool {
    &&& forall|a: int, b: int| #[trigger]
        sub.index(a, b) == s.problem.lhs_layout.index(row + a, s.depth + b)
    &&& crate::pack::operand_packed(
        *s.conv,
        s.problem.lhs@,
        sub,
        m_chunk,
        s.k_chunk as int,
        packed,
        0,
        s.grid.mr as int,
        s.lhs_stride as int,
    )
}

/// The panels that `chunk` rows need fit where `mc` rows have been made room for.
proof fn lemma_panel_room(chunk: int, mc: int, mr: int, k: int, stride: int)
    requires
        0 < mr,
        0 < chunk <= mc,
        mc % mr == 0,
        0 <= k,
        k * mr <= stride,
    ensures
        crate::share::ceil_quotient(chunk, mr) <= mc / mr,
        stride * crate::share::ceil_quotient(chunk, mr) <= stride * (mc / mr),
        crate::pack::panel_start(0, stride, crate::share::ceil_quotient(chunk, mr) - 1) + k * mr
            <= stride * (mc / mr),
{
    let g = crate::share::ceil_quotient(chunk, mr);
    let b = mc / mr;
    crate::share::lemma_ceil_quotient(chunk, mr);
    vstd::arithmetic::div_mod::lemma_fundamental_div_mod(mc, mr);
    assert(g <= b) by (nonlinear_arith)
        requires
            mr * (g - 1) < chunk,
            chunk <= mc,
            mc == mr * b,
            0 < mr,
    ;
    assert(0 <= k * mr) by (nonlinear_arith)
        requires
            0 <= k,
            0 < mr,
    ;
    assert(stride * g <= stride * b) by (nonlinear_arith)
        requires
            g <= b,
            0 <= stride,
    ;
    assert((g - 1) * stride + stride == stride * g) by (nonlinear_arith);
}

/// A panel of `m_chunk` rows is packed.
spec fn packs_panel<T, C, V: Convert<T, C>, S: TileStep<T, C>>(
    s: Sweep<'_, T, C, V, S>,
    m_chunk: int,
) -> bool {
    s.scheme@.packs_lhs(s.problem, s.grid.n as int, m_chunk, s.n_threads as int)
}

/// The rows of the left operand for `tile` are at `l` in `lhs`, in whole vectors, and the rows below
/// them start at `next`.
spec fn lhs_ready<T, C, V: Convert<T, C>, S: TileStep<T, C>>(
    s: Sweep<'_, T, C, V, S>,
    tile: Tile,
    lhs: Seq<C>,
    l: Layout,
    next: usize,
) -> bool {
    &&& l.rs == 1
    &&& next <= lhs.len()
    &&& s.scheme@.lhs_placed(
        s.problem,
        s.depth as int,
        s.k_chunk as int,
        s.col_outer as int,
        tile@,
        lhs,
        l,
        next as int,
    )
    &&& l.fits(
        lhs.len() as int,
        crate::kernel::whole_vectors(tile.m as int, s.grid.lanes as int),
        s.k_chunk as int,
    )
    &&& forall|r: int, d: int|
        0 <= r < tile.m && 0 <= d < s.k_chunk ==> s.conv.converts(
            s.problem.lhs@[s.problem.lhs_layout.index(
                tile.row_outer + tile.row_inner + r,
                s.depth + d,
            )],
            lhs[#[trigger] l.index(r, d)],
        )
}

/// Where the rows for `tile` are in its packed panel, and where the rows below them start.
fn packed_lhs_for_tile<T: Copy, C: Copy, V: Convert<T, C>, S: TileStep<T, C>>(
    s: &Sweep<'_, T, C, V, S>,
    Ghost(pre): Ghost<Seq<T>>,
    tile: Tile,
    Ghost(sub): Ghost<Layout>,
    packed: &Vec<C>,
) -> (place: (Layout, usize))
    requires
        s.wf(pre, s.grid.lanes as int, s.grid.mr as int, s.grid.nr as int),
        s.grid.has_tile(tile@),
        packed@.len() == s.lhs_stride * (s.grid.mc / s.grid.mr),
        panel_ready(*s, tile.row_outer as int, tile.m_chunk as int, sub, packed@),
        packs_panel(*s, tile.m_chunk as int),
    ensures
        lhs_ready(*s, tile, packed@, place.0, place.1),
{
    let ghost p = s.problem;
    let ghost k = s.k_chunk as int;
    let ghost mr = s.grid.mr as int;
    proof {
        s.grid.lemma_chunk(tile.row_outer as int);
        lemma_panel_room(tile.m_chunk as int, s.grid.mc as int, mr, k, s.lhs_stride as int);
        lemma_panel_view(
            *s.conv,
            p.lhs@,
            sub,
            tile.m_chunk as int,
            k,
            packed@,
            mr,
            s.lhs_stride as int,
            tile.row_inner as int,
        );
        assert(packed@.len() == packed.len());
        assert(0 <= k * mr) by (nonlinear_arith)
            requires
                0 <= k,
                0 <= mr,
        ;
        lemma_whole_vectors(tile.m as int, s.grid.lanes as int, mr);
    }
    let at: usize = tile.row_inner / s.grid.mr * s.lhs_stride;
    let l = Layout { at, rs: 1, cs: s.grid.mr as isize };
    let next: usize = at + s.lhs_stride;
    proof {
        let g = tile.row_inner as int / mr;
        assert((g + 1) * s.lhs_stride == g * s.lhs_stride + s.lhs_stride) by (nonlinear_arith);
        lemma_panel_layout(l, mr);
        assert forall|r: int, d: int|
            0 <= r < crate::kernel::whole_vectors(tile.m as int, s.grid.lanes as int) && 0 <= d
                < k implies 0 <= #[trigger] l.index(r, d) < packed@.len() by {
            crate::pack::lemma_slot(at as int, mr, r, d, k);
        }
        assert forall|r: int, d: int| 0 <= r < tile.m && 0 <= d < k implies s.conv.converts(
            p.lhs@[p.lhs_layout.index(tile.row_outer + tile.row_inner + r, s.depth + d)],
            packed@[#[trigger] l.index(r, d)],
        ) by {
            let q = crate::pack::slot(at as int, mr, r, d);
            assert(s.conv.converts(p.lhs@[sub.index(tile.row_inner + r, d)], packed@[q]));
            assert(sub.index(tile.row_inner + r, d) == p.lhs_layout.index(
                tile.row_outer + (tile.row_inner + r),
                s.depth + d,
            ));
        }
    }
    (l, next)
}

/// Where the rows for `tile` are in the left operand itself, and where the rows below them start.
fn direct_lhs_for_tile<T: Copy, C: Copy, V: Convert<T, C>, S: TileStep<T, C>>(
    s: &Sweep<'_, T, C, V, S>,
    Ghost(pre): Ghost<Seq<T>>,
    tile: Tile,
    direct: &[C],
) -> (place: (Layout, usize))
    requires
        s.wf(pre, s.grid.lanes as int, s.grid.mr as int, s.grid.nr as int),
        s.grid.has_tile(tile@),
        s.lhs_direct == Some(direct),
        !packs_panel(*s, tile.m_chunk as int),
    ensures
        lhs_ready(*s, tile, direct@, place.0, place.1),
{
    let ghost p = s.problem;
    let ghost lanes = s.grid.lanes as int;
    proof {
        lemma_aligned_rows(
            tile.m_chunk as int,
            s.grid.mr as int,
            lanes,
            tile.row_inner as int,
            tile.m as int,
        );
        lemma_whole_vectors(tile.m as int, lanes, s.grid.mr as int);
        assert(0 <= p.lhs_layout.index(tile.row_outer + tile.row_inner, s.depth as int)
            < p.lhs@.len());
        assert(direct@.len() == direct.len());
    }
    let l = s.problem.lhs_layout.shift(tile.row_outer + tile.row_inner, s.depth);
    proof {
        let row = tile.row_outer + tile.row_inner;
        assert(0 <= p.lhs_layout.index(row + tile.m - 1, s.depth as int) < p.lhs@.len());
        assert(p.lhs_layout.index(row + tile.m, s.depth as int) == l.at + tile.m
            && p.lhs_layout.index(row + tile.m - 1, s.depth as int) == l.at + tile.m - 1) by {
            reveal(Layout::index);
        }
    }
    let next: usize = l.at + tile.m;
    proof {
        assert forall|r: int, d: int| 0 <= r < tile.m && 0 <= d < s.k_chunk implies 0
            <= #[trigger] l.index(r, d) < direct@.len() by {
            assert(l.index(r, d) == p.lhs_layout.index(
                tile.row_outer + tile.row_inner + r,
                s.depth + d,
            ));
        }
    }
    (l, next)
}

/// A tile of a panel of whole vectors is made of whole vectors.
proof fn lemma_aligned_rows(chunk: int, mr: int, lanes: int, row_inner: int, m: int)
    requires
        0 < lanes,
        0 < mr,
        mr % lanes == 0,
        chunk % lanes == 0,
        0 <= row_inner,
        row_inner % mr == 0,
        m == mr || row_inner + m == chunk,
    ensures
        m % lanes == 0,
{
    vstd::arithmetic::div_mod::lemma_fundamental_div_mod(mr, lanes);
    vstd::arithmetic::div_mod::lemma_fundamental_div_mod(chunk, lanes);
    vstd::arithmetic::div_mod::lemma_fundamental_div_mod(row_inner, mr);
    let a = mr / lanes;
    let b = chunk / lanes;
    let c = row_inner / mr;
    if m != mr {
        assert(m == (b - a * c) * lanes) by (nonlinear_arith)
            requires
                m == chunk - row_inner,
                chunk == lanes * b,
                row_inner == mr * c,
                mr == lanes * a,
        ;
        vstd::arithmetic::div_mod::lemma_mod_multiples_basic(b - a * c, lanes);
    }
}

/// Makes the step for one tile.
fn run_tile<T: Copy, C: Copy, V: Convert<T, C>, S: TileStep<T, C>>(
    s: &Sweep<'_, T, C, V, S>,
    pre: &[T],
    tile: Tile,
    lhs: &[C],
    lhs_layout: Layout,
    next_lhs: usize,
) -> (values: Vec<T>)
    requires
        s.wf(pre@, s.grid.lanes as int, s.grid.mr as int, s.grid.nr as int),
        s.grid.has_tile(tile@),
        lhs_ready(*s, tile, lhs@, lhs_layout, next_lhs),
    ensures
        s.tile_done(pre@, tile, values@),
{
    let row: usize = tile.row_outer + tile.row_inner;
    let col: usize = s.col_outer + tile.col_inner;
    proof {
        assert(tile.m * tile.n <= s.problem.m * s.problem.n) by (nonlinear_arith)
            requires
                0 <= tile.m <= s.problem.m,
                0 <= tile.n <= s.problem.n,
        ;
    }
    let dst = gather(pre, s.problem.dst_layout, row, col, tile.m, tile.n);
    let rhs_layout = rhs_for_tile(s, Ghost(pre@), tile);
    let call = TileCall {
        m: tile.m,
        n: tile.n,
        k: s.k_chunk,
        dst,
        lhs,
        lhs_layout,
        next_lhs,
        rhs: s.rhs,
        rhs_layout,
        first: s.depth == 0,
    };
    let ghost given = call;
    proof {
        assert(call.wf(s.grid.lanes as int, s.grid.mr as int, s.grid.nr as int));
    }
    let values = s.step.step(call);
    proof {
        assert(tile_matches(
            s.problem,
            *s.conv,
            pre@,
            s.depth as int,
            s.k_chunk as int,
            row as int,
            col as int,
            given,
        ));
    }
    values
}

/// Makes the steps for all tiles of thread `tid`. The rows of the left operand are packed where
/// they are not whole vectors of neighbouring elements, or where many tiles read them.
fn run_share<
    T: Copy,
    C: Copy,
    V: Convert<T, C>,
    S: TileStep<T, C>,
    const N: usize,
    const MR: usize,
>(s: &Sweep<'_, T, C, V, S>, pre: &[T], tid: usize) -> (outs: Vec<TileOut<T>>)
    requires
        s.wf(pre@, N as int, MR as int, s.grid.nr as int),
        tid < s.n_threads,
    ensures
        share_done(*s, pre@, tid as int, outs@),
{
    let tiles = s.grid.thread_tiles(s.n_jobs, s.n_threads, tid);
    let mut packed: Vec<C> = filled(s.lhs_stride * (s.grid.mc / s.grid.mr), s.zero);
    let mut outs: Vec<TileOut<T>> = Vec::new();
    let mut have_panel: bool = false;
    let mut panel_row: usize = 0;
    let mut in_place: Option<&[C]> = None;
    let ghost mut sub: Layout = s.rhs_layout;
    let ghost start = crate::share::share_start(s.n_jobs as int, s.n_threads as int, tid as int);
    proof {
        crate::share::lemma_share_bounds(s.n_jobs as int, s.n_threads as int, tid as int);
        crate::share::lemma_share_bounds(s.n_jobs as int, s.n_threads as int, tid + 1);
    }
    let mut t: usize = 0;
    while t < tiles.len()
        invariant
            s.wf(pre@, N as int, MR as int, s.grid.nr as int),
            tid < s.n_threads,
            0 <= start,
            start + tiles@.len() <= s.n_jobs,
            forall|i: int|
                0 <= i < tiles@.len() ==> (#[trigger] tiles@[i])@ == s.grid.tile_at(0, start + i),
            packed@.len() == s.lhs_stride * (s.grid.mc / s.grid.mr),
            t <= tiles@.len(),
            outs@.len() == t,
            forall|i: int|
                0 <= i < t ==> (#[trigger] outs@[i]).tile@ == s.grid.tile_at(0, start + i)
                    && s.grid.has_tile(outs@[i].tile@) && s.tile_done(
                    pre@,
                    outs@[i].tile,
                    outs@[i].values@,
                ),
            have_panel && in_place is None ==> panel_ready(
                *s,
                panel_row as int,
                s.grid.chunk_at(panel_row as int),
                sub,
                packed@,
            ),
            have_panel ==> (in_place is None) == packs_panel(
                *s,
                s.grid.chunk_at(panel_row as int),
            ),
            in_place is None || in_place == s.lhs_direct,
        decreases tiles@.len() - t,
    {
        let tile = tiles[t];
        proof {
            assert(tile@ == s.grid.tile_at(0, start + t));
            s.grid.lemma_tile_valid(0, start + t);
        }
        if !have_panel || panel_row != tile.row_outer {
            let may_stay: bool = tile.m_chunk % N == 0 && s.problem.lhs_layout.rs == 1 && !exceeds(
                s.grid.n,
                s.lhs_threshold,
                s.grid.nr,
            );
            in_place = if may_stay {
                s.lhs_direct
            } else {
                None
            };
            if in_place.is_none() {
                let layout = pack_panel::<T, C, V, S, N, MR>(s, Ghost(pre@), tile, &mut packed);
                proof {
                    sub = layout@;
                }
            }
            have_panel = true;
            panel_row = tile.row_outer;
        }
        let values = match in_place {
            Some(direct) => {
                let (l, next) = direct_lhs_for_tile(s, Ghost(pre@), tile, direct);
                run_tile(s, pre, tile, direct, l, next)
            },
            None => {
                let (l, next) = packed_lhs_for_tile(s, Ghost(pre@), tile, Ghost(sub), &packed);
                run_tile(s, pre, tile, packed.as_slice(), l, next)
            },
        };
        outs.push(TileOut { tile, values });
        t = t + 1;
    }
    outs
}

/// `outs` holds, in order, the tiles of thread `tid` and what became of them.
spec fn share_done<T, C, V: Convert<T, C>, S: TileStep<T, C>>(
    s: Sweep<'_, T, C, V, S>,
    pre: Seq<T>,
    tid: int,
    outs: Seq<TileOut<T>>,
) -> bool {
    let start = crate::share::share_start(s.n_jobs as int, s.n_threads as int, tid);
    &&& outs.len() == crate::share::share_start(s.n_jobs as int, s.n_threads as int, tid + 1)
        - start
    &&& forall|i: int|
        0 <= i < outs.len() ==> (#[trigger] outs[i]).tile@ == s.grid.tile_at(0, start + i)
            && s.grid.has_tile(outs[i].tile@) && s.tile_done(pre, outs[i].tile, outs[i].values@)
}

/// Makes the steps for all tiles, on as many threads as there are shares.
fn run_all<
    T: Copy + Send + Sync,
    C: Copy + Send + Sync,
    V: Convert<T, C> + Sync,
    S: TileStep<T, C> + Sync,
    const N: usize,
    const MR: usize,
>(s: &Sweep<'_, T, C, V, S>, pre: &[T]) -> (results: Vec<Vec<TileOut<T>>>)
    requires
        s.wf(pre@, N as int, MR as int, s.grid.nr as int),
    ensures
        all_done(*s, pre@, results@),
{
    if s.n_threads == 1 {
        let mut results: Vec<Vec<TileOut<T>>> = Vec::new();
        results.push(run_share::<T, C, V, S, N, MR>(s, pre, 0));
        results
    } else {
        let task = |tid: usize| -> (outs: Vec<TileOut<T>>)
            requires
                share_possible(s, pre, N, MR, tid),
            ensures
                share_made(s, pre, tid, &outs),
        { run_share::<T, C, V, S, N, MR>(s, pre, tid) };
        let results = par_for_each(s.n_threads, task);
        proof {
            assert forall|tid: int| 0 <= tid < s.n_threads implies share_done(
                *s,
                pre@,
                tid,
                (#[trigger] results@[tid])@,
            ) by {
                let t = tid as usize;
                assert(share_made(s, pre, t, &results@[t as int]));
            }
        }
        results
    }
}

/// What a task on the thread pool needs.
spec fn share_possible<T, C, V: Convert<T, C>, S: TileStep<T, C>>(
    s: &Sweep<'_, T, C, V, S>,
    pre: &[T],
    lanes: usize,
    mr: usize,
    tid: usize,
) -> bool {
    s.wf(pre@, lanes as int, mr as int, s.grid.nr as int) && tid < s.n_threads
}

/// What a task on the thread pool gives.
spec fn share_made<T, C, V: Convert<T, C>, S: TileStep<T, C>>(
    s: &Sweep<'_, T, C, V, S>,
    pre: &[T],
    tid: usize,
    outs: &Vec<TileOut<T>>,
) -> bool {
    share_done(*s, pre@, tid as int, outs@)
}

spec fn all_done<T, C, V: Convert<T, C>, S: TileStep<T, C>>(
    s: Sweep<'_, T, C, V, S>,
    pre: Seq<T>,
    results: Seq<Vec<TileOut<T>>>,
) -> bool {
    &&& results.len() == s.n_threads
    &&& forall|tid: int|
        0 <= tid < s.n_threads ==> share_done(s, pre, tid, (#[trigger] results[tid])@)
}

/// The entries that one of the first `count` tiles of `outs` covers have been stepped.
spec fn part_stepped<T, C, V: Convert<T, C>, S: TileStep<T, C>>(
    s: Sweep<'_, T, C, V, S>,
    pre: Seq<T>,
    data: Seq<T>,
    outs: Seq<TileOut<T>>,
    count: int,
) -> bool {
    forall|i: int, r: int, c: int|
        #![trigger outs[i], s.problem.dst_layout.index(r, c)]
        0 <= i < count && 0 <= r < s.problem.m && s.col_outer <= c < s.col_outer + s.grid.n
            && outs[i].tile@.covers(r, c - s.col_outer) ==> s.entry_stepped(
            pre,
            r,
            c,
            data[s.problem.dst_layout.index(r, c)],
        )
}

impl<'a, T, C, V: Convert<T, C>, S: TileStep<T, C>> Sweep<'a, T, C, V, S> {
    /// `v` is what a step of this sweep makes of entry `(r, c)`.
    pub open spec fn entry_stepped(self, pre: Seq<T>, r: int, c: int, v: T) -> bool {
        stepped_to(
            self.problem,
            *self.conv,
            *self.step,
            self.scheme@,
            pre,
            self.depth as int,
            self.k_chunk as int,
            self.col_outer as int,
            self.col_outer + self.grid.n,
            r,
            c,
            v,
        )
    }
}

/// Writes the tiles of one share back. Entries that were stepped before remain so.
fn write_share<T: Copy, C: Copy, V: Convert<T, C>, S: TileStep<T, C>>(
    s: &Sweep<'_, T, C, V, S>,
    Ghost(pre): Ghost<Seq<T>>,
    Ghost(tid): Ghost<int>,
    dst: &mut [T],
    outs: &Vec<TileOut<T>>,
)
    requires
        s.wf(pre, s.grid.lanes as int, s.grid.mr as int, s.grid.nr as int),
        old(dst)@.len() == pre.len(),
        0 <= tid < s.n_threads,
        share_done(*s, pre, tid, outs@),
    ensures
        s.problem.dst_layout.same_beside(
            old(dst)@,
            final(dst)@,
            s.problem.m as int,
            s.col_outer as int,
            s.col_outer + s.grid.n,
        ),
        part_stepped(*s, pre, final(dst)@, outs@, outs@.len() as int),
        forall|r: int, c: int|
            0 <= r < s.problem.m && s.col_outer <= c < s.col_outer + s.grid.n && s.entry_stepped(
                pre,
                r,
                c,
                old(dst)@[#[trigger] s.problem.dst_layout.index(r, c)],
            ) ==> s.entry_stepped(pre, r, c, final(dst)@[s.problem.dst_layout.index(r, c)]),
{
    let ghost p = s.problem;
    let ghost lo = s.col_outer as int;
    let ghost hi = s.col_outer + s.grid.n;
    let mut t: usize = 0;
    while t < outs.len()
        invariant
            s.wf(pre, s.grid.lanes as int, s.grid.mr as int, s.grid.nr as int),
            p == s.problem,
            lo == s.col_outer,
            hi == s.col_outer + s.grid.n,
            dst@.len() == pre.len(),
            old(dst)@.len() == pre.len(),
            0 <= tid < s.n_threads,
            share_done(*s, pre, tid, outs@),
            t <= outs@.len(),
            p.dst_layout.same_beside(old(dst)@, dst@, p.m as int, lo, hi),
            part_stepped(*s, pre, dst@, outs@, t as int),
            forall|r: int, c: int|
                0 <= r < p.m && lo <= c < hi && s.entry_stepped(
                    pre,
                    r,
                    c,
                    old(dst)@[#[trigger] p.dst_layout.index(r, c)],
                ) ==> s.entry_stepped(pre, r, c, dst@[p.dst_layout.index(r, c)]),
        decreases outs@.len() - t,
    {
        let ghost before = dst@;
        let out = &outs[t];
        let tile = out.tile;
        let row: usize = tile.row_outer + tile.row_inner;
        let col: usize = s.col_outer + tile.col_inner;
        scatter(
            dst,
            s.problem.dst_layout,
            Ghost(p.m as int),
            Ghost(p.n as int),
            row,
            col,
            tile.m,
            tile.n,
            &out.values,
        );
        proof {
            assert forall|r: int, c: int|
                0 <= r < p.m && lo <= c < hi && tile@.covers(r, c - lo) implies s.entry_stepped(
                pre,
                r,
                c,
                dst@[#[trigger] p.dst_layout.index(r, c)],
            ) by {
                let start = crate::share::share_start(
                    s.n_jobs as int,
                    s.n_threads as int,
                    tid,
                );
                crate::share::lemma_share_bounds(s.n_jobs as int, s.n_threads as int, tid);
                crate::share::lemma_share_bounds(s.n_jobs as int, s.n_threads as int, tid + 1);
                lemma_covered_entry(*s, pre, dst@, tile, start + t, out.values@, r, c);
            }
            assert forall|q: int|
                0 <= q < old(dst)@.len() && !p.dst_layout.holds(
                    p.m as int,
                    lo,
                    hi,
                    q,
                ) implies #[trigger] dst@[q] == old(dst)@[q] by {
                if p.dst_layout.holds(p.m as int, col as int, col + tile.n, q) {
                    let (i, j) = choose|i: int, j: int|
                        0 <= i < p.m && col <= j < col + tile.n && #[trigger] p.dst_layout.index(
                            i,
                            j,
                        ) == q;
                    assert(p.dst_layout.index(i, j) == q && lo <= j < hi);
                }
                assert(before[q] == old(dst)@[q]);
            }
            assert forall|i: int, r: int, c: int|
                #![trigger outs@[i], p.dst_layout.index(r, c)]
                0 <= i < t + 1 && 0 <= r < p.m && lo <= c < hi && outs@[i].tile@.covers(
                    r,
                    c - lo,
                ) implies s.entry_stepped(pre, r, c, dst@[p.dst_layout.index(r, c)]) by {
                if !tile@.covers(r, c - lo) {
                    assert(dst@[p.dst_layout.index(r, c)] == before[p.dst_layout.index(r, c)]);
                }
            }
            assert forall|r: int, c: int|
                0 <= r < p.m && lo <= c < hi && s.entry_stepped(
                    pre,
                    r,
                    c,
                    old(dst)@[#[trigger] p.dst_layout.index(r, c)],
                ) implies s.entry_stepped(pre, r, c, dst@[p.dst_layout.index(r, c)]) by {
                if !tile@.covers(r, c - lo) {
                    assert(dst@[p.dst_layout.index(r, c)] == before[p.dst_layout.index(r, c)]);
                }
            }
        }
        t = t + 1;
    }
}

/// An entry of a tile that was written back has been stepped.
proof fn lemma_covered_entry<T, C, V: Convert<T, C>, S: TileStep<T, C>>(
    s: Sweep<'_, T, C, V, S>,
    pre: Seq<T>,
    data: Seq<T>,
    tile: Tile,
    job: int,
    values: Seq<T>,
    r: int,
    c: int,
)
    requires
        s.wf(pre, s.grid.lanes as int, s.grid.mr as int, s.grid.nr as int),
        0 <= job < s.n_jobs,
        tile@ == s.grid.tile_at(0, job),
        s.grid.has_tile(tile@),
        s.tile_done(pre, tile, values),
        crate::block::is_block(
            values,
            data,
            s.problem.dst_layout,
            tile.row_outer + tile.row_inner,
            s.col_outer + tile.col_inner,
            tile.m as int,
            tile.n as int,
        ),
        tile@.covers(r, c - s.col_outer),
    ensures
        s.entry_stepped(pre, r, c, data[s.problem.dst_layout.index(r, c)]),
{
    let row = tile.row_outer + tile.row_inner;
    let col = s.col_outer + tile.col_inner;
    s.scheme@.lemma_block_start(s.col_outer as int, c);
    s.grid.lemma_tile_covers(0, r, c - s.col_outer);
    assert(s.scheme@.tile_of(s.problem, r, c) == tile@);
    let call = choose|call: TileCall<T, C>|
        {
            &&& #[trigger] tile_matches(
                s.problem,
                *s.conv,
                pre,
                s.depth as int,
                s.k_chunk as int,
                row,
                col,
                call,
            )
            &&& s.scheme@.placed(
                s.problem,
                s.depth as int,
                s.k_chunk as int,
                s.col_outer as int,
                tile@,
                call,
            )
            &&& s.step.accepts(call)
            &&& s.step.yields(call, values)
        };
    assert(tile_matches(
        s.problem,
        *s.conv,
        pre,
        s.depth as int,
        s.k_chunk as int,
        row,
        col,
        call,
    ));
    assert(s.step.yields(call, values));
    assert(values[crate::block::cell(tile.m as int, r - row, c - col)]
        == data[s.problem.dst_layout.index(row + (r - row), col + (c - col))]);
}

/// Updates the column block.
pub(crate) fn sweep<
    T: Copy + Send + Sync,
    C: Copy + Send + Sync,
    V: Convert<T, C> + Sync,
    S: TileStep<T, C> + Sync,
    const N: usize,
    const MR: usize,
>(s: &Sweep<'_, T, C, V, S>, dst: &mut [T])
    requires
        s.wf(old(dst)@, N as int, MR as int, s.grid.nr as int),
    ensures
        swept(
            s.problem,
            *s.conv,
            *s.step,
            s.scheme@,
            old(dst)@,
            final(dst)@,
            s.depth as int,
            s.k_chunk as int,
            s.col_outer as int,
            s.col_outer + s.grid.n,
        ),
{
    let ghost pre = dst@;
    let ghost p = s.problem;
    let ghost lo = s.col_outer as int;
    let ghost hi = s.col_outer + s.grid.n;
    let results = run_all::<T, C, V, S, N, MR>(s, &*dst);
    let mut tid: usize = 0;
    while tid < results.len()
        invariant
            s.wf(pre, s.grid.lanes as int, s.grid.mr as int, s.grid.nr as int),
            p == s.problem,
            lo == s.col_outer,
            hi == s.col_outer + s.grid.n,
            all_done(*s, pre, results@),
            tid <= results@.len(),
            p.dst_layout.same_beside(pre, dst@, p.m as int, lo, hi),
            forall|a: int| 0 <= a < tid ==> part_stepped(
                *s,
                pre,
                dst@,
                (#[trigger] results@[a])@,
                results@[a]@.len() as int,
            ),
        decreases results@.len() - tid,
    {
        let ghost before = dst@;
        write_share(s, Ghost(pre), Ghost(tid as int), dst, &results[tid]);
        proof {
            assert forall|a: int| 0 <= a < tid + 1 implies part_stepped(
                *s,
                pre,
                dst@,
                (#[trigger] results@[a])@,
                results@[a]@.len() as int,
            ) by {
                if a < tid {
                    assert(part_stepped(
                        *s,
                        pre,
                        before,
                        results@[a]@,
                        results@[a]@.len() as int,
                    ));
                    let outs = results@[a]@;
                    assert forall|i: int, r: int, c: int|
                        #![trigger outs[i], p.dst_layout.index(r, c)]
                        0 <= i < outs.len() && 0 <= r < p.m && lo <= c < hi
                            && outs[i].tile@.covers(r, c - lo) implies s.entry_stepped(
                        pre,
                        r,
                        c,
                        dst@[p.dst_layout.index(r, c)],
                    ) by {
                        assert(s.entry_stepped(pre, r, c, before[p.dst_layout.index(r, c)]));
                    }
                }
            }
            assert forall|q: int|
                0 <= q < pre.len() && !p.dst_layout.holds(
                    p.m as int,
                    lo,
                    hi,
                    q,
                ) implies #[trigger] dst@[q] == pre[q] by {
                assert(dst@[q] == before[q]);
            }
        }
        tid = tid + 1;
    }
    proof {
        assert forall|r: int, c: int| 0 <= r < p.m && lo <= c < hi implies s.entry_stepped(
            pre,
            r,
            c,
            dst@[#[trigger] p.dst_layout.index(r, c)],
        ) by {
            s.grid.lemma_tile_covers(0, r, c - lo);
            let job = s.grid.job_of(0, r, c - lo);
            let a = crate::share::lemma_share_covers(s.n_jobs as int, s.n_threads as int, job);
            let i = job - crate::share::share_start(s.n_jobs as int, s.n_threads as int, a);
            let outs = results@[a]@;
            assert(share_done(*s, pre, a, results@[a]@));
            assert(outs[i].tile@ == s.grid.tile_at(0, job));
        }
    }
}

} // verus!
