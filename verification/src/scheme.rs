//! How a product is to be computed block by block.

use crate::grid::Grid;
use crate::grid::Span;
use crate::kernel::TileCall;
use crate::layout::Layout;
use crate::parallel::Parallelism;
use crate::sweep::Problem;
use crate::thresholds::ThresholdValues;
use crate::tuning::Blocking;
use vstd::prelude::*;

verus! {

/// The sizes of blocks and tiles, and what decides where the kernels read the operands.
pub struct Scheme<'a, C> {
    pub blocking: Blocking,
    /// Number of rows that one vector register holds.
    pub lanes: usize,
    /// Largest number of rows of a tile.
    pub mr: usize,
    /// Largest number of columns of a tile.
    pub nr: usize,
    /// The left operand in the computing precision, if it may be read in place.
    pub lhs_direct: Option<&'a [C]>,
    /// The right operand in the computing precision, if it is read in place and not packed.
    pub rhs_direct: Option<&'a [C]>,
    pub parallelism: Parallelism,
    pub thresholds: ThresholdValues,
}

impl<'a, C> Scheme<'a, C> {
    /// First column of the column block that column `c` belongs to.
    pub open spec fn block_start(self, c: int) -> int {
        c / self.blocking.nc * self.blocking.nc
    }

    /// Number of columns of the column block that starts at column `lo`.
    pub open spec fn block_width<T>(self, p: Problem<T>, lo: int) -> int {
        if self.blocking.nc < p.n - lo {
            self.blocking.nc
        } else {
            p.n - lo
        }
    }

    /// How the column block that starts at column `lo` is cut into tiles.
    pub open spec fn grid<T>(self, p: Problem<T>, lo: int) -> Grid {
        Grid {
            m: p.m,
            n: self.block_width(p, lo) as usize,
            mc: self.blocking.mc as usize,
            lanes: self.lanes,
            mr: self.mr,
            nr: self.nr,
        }
    }

    /// The tile that entry `(r, c)` of the destination lies in. Its columns are counted from the
    /// start of the column block.
    pub open spec fn tile_of<T>(self, p: Problem<T>, r: int, c: int) -> Span {
        let lo = self.block_start(c);
        let grid = self.grid(p, lo);
        grid.tile_at(0, grid.job_of(0, r, c - lo))
    }

    /// Number of tiles side by side above which the left operand is packed in any case.
    pub open spec fn lhs_threshold(self, threads: int) -> int {
        if threads == 1 {
            self.thresholds.lhs_packing_single_thread
        } else {
            self.thresholds.lhs_packing_multi_thread
        }
    }

    /// A panel of `m_chunk` rows of the left operand is packed: it may not be read in place, it is
    /// not made of whole vectors of neighbouring elements, or many tiles read it. `width` is the
    /// number of columns of the column block.
    pub open spec fn packs_lhs<T>(
        self,
        p: Problem<T>,
        width: int,
        m_chunk: int,
        threads: int,
    ) -> bool {
        ||| self.lhs_direct is None
        ||| m_chunk % (self.lanes as int) != 0
        ||| p.lhs_layout.rs != 1
        ||| width > self.lhs_threshold(threads) * self.nr
    }

    /// The rows of the left operand for `tile` are where they belong: in a packed panel, or in the
    /// operand itself. `next` is where the rows below them start. The column block starts at `lo`,
    /// the block along the depth has `k` columns from `depth` on.
    pub open spec fn lhs_placed<T>(
        self,
        p: Problem<T>,
        depth: int,
        k: int,
        lo: int,
        tile: Span,
        values: Seq<C>,
        l: Layout,
        next: int,
    ) -> bool {
        exists|threads: int|
            {
                &&& #[trigger] crate::tuning::thread_count_ok(
                    threads,
                    self.parallelism,
                    p.m * self.block_width(p, lo) * k,
                    self.thresholds.threading,
                )
                &&& if self.packs_lhs(p, self.block_width(p, lo), tile.m_chunk, threads) {
                    &&& l.at == tile.row_inner / (self.mr as int) * (self.blocking.kc * self.mr)
                    &&& l.rs == 1
                    &&& l.cs == self.mr
                    &&& next == (tile.row_inner / (self.mr as int) + 1) * (self.blocking.kc
                        * self.mr)
                } else {
                    &&& values == self.lhs_direct->0@
                    &&& l.at == p.lhs_layout.index(tile.row_outer + tile.row_inner, depth)
                    &&& l.rs == p.lhs_layout.rs
                    &&& l.cs == p.lhs_layout.cs
                    &&& next == p.lhs_layout.index(
                        tile.row_outer + tile.row_inner + tile.m,
                        depth,
                    )
                }
            }
    }

    /// The columns of the right operand for `tile` are where they belong: in a packed panel, or in
    /// the operand itself.
    pub open spec fn rhs_placed<T>(
        self,
        p: Problem<T>,
        depth: int,
        lo: int,
        tile: Span,
        values: Seq<C>,
        l: Layout,
    ) -> bool {
        match self.rhs_direct {
            None => {
                &&& l.at == tile.col_inner / (self.nr as int) * (self.blocking.kc * self.nr)
                &&& l.rs == self.nr
                &&& l.cs == 1
            },
            Some(direct) => {
                &&& values == direct@
                &&& l.at == p.rhs_layout.index(depth, lo + tile.col_inner)
                &&& l.rs == p.rhs_layout.rs
                &&& l.cs == p.rhs_layout.cs
            },
        }
    }

    /// The step is made for `tile`, with operands where they belong.
    pub open spec fn placed<T>(
        self,
        p: Problem<T>,
        depth: int,
        k: int,
        lo: int,
        tile: Span,
        call: TileCall<T, C>,
    ) -> bool {
        &&& call.m == tile.m
        &&& call.n == tile.n
        &&& self.lhs_placed(p, depth, k, lo, tile, call.lhs@, call.lhs_layout, call.next_lhs as int)
        &&& self.rhs_placed(p, depth, lo, tile, call.rhs@, call.rhs_layout)
    }

    /// All columns of a column block have its start.
    pub proof fn lemma_block_start(self, lo: int, c: int)
        requires
            0 < self.blocking.nc,
            lo % self.blocking.nc == 0,
            lo <= c < lo + self.blocking.nc,
        ensures
            self.block_start(c) == lo,
    {
        let nc = self.blocking.nc;
        let q = lo / nc;
        vstd::arithmetic::div_mod::lemma_fundamental_div_mod(lo, nc);
        assert(nc * q == q * nc) by (nonlinear_arith);
        vstd::arithmetic::div_mod::lemma_fundamental_div_mod_converse(c, nc, q, c - lo);
    }
}

/// Rows of the left operand are packed where they cannot be read in place: there is no copy in the computing
/// precision, they are not whole vectors, or neighbouring rows are apart. Those that could be are packed
/// where more than `t` tiles read them side by side, with one threshold `t` for one thread and another
/// for more.
pub proof fn law_lhs_packing<T, C>(
    scheme: Scheme<C>,
    p: Problem<T>,
    width: int,
    m_chunk: int,
    threads: int,
)
    requires
        0 < scheme.lanes,
    ensures
        scheme.lhs_direct is None ==> scheme.packs_lhs(p, width, m_chunk, threads),
        p.lhs_layout.rs != 1 ==> scheme.packs_lhs(p, width, m_chunk, threads),
        m_chunk % (scheme.lanes as int) != 0 ==> scheme.packs_lhs(p, width, m_chunk, threads),
        scheme.lhs_direct is Some && p.lhs_layout.rs == 1 && m_chunk % (scheme.lanes as int) == 0
            ==> {
            let t = if threads == 1 {
                scheme.thresholds.lhs_packing_single_thread
            } else {
                scheme.thresholds.lhs_packing_multi_thread
            };
            scheme.packs_lhs(p, width, m_chunk, threads) <==> width >= t * scheme.nr + 1
        },
{
}

/// A kernel is told where the rows below its tile start: right after them where they are read in place, and
/// one packed panel further where they are packed.
pub proof fn law_next_rows<T, C>(
    scheme: Scheme<C>,
    p: Problem<T>,
    depth: int,
    k: int,
    lo: int,
    tile: Span,
    call: TileCall<T, C>,
)
    requires
        scheme.placed(p, depth, k, lo, tile, call),
    ensures
        ({
            ||| call.lhs_layout.cs == scheme.mr && call.next_lhs - call.lhs_layout.at
                == scheme.blocking.kc * scheme.mr
            ||| call.lhs_layout.cs == p.lhs_layout.cs && call.lhs@ == scheme.lhs_direct->0@
                && call.next_lhs - call.lhs_layout.at == call.m * p.lhs_layout.rs
        }),
        scheme.lhs_direct is None ==> call.lhs_layout.cs == scheme.mr && call.next_lhs
            - call.lhs_layout.at == scheme.blocking.kc * scheme.mr,
{
    let g = tile.row_inner / (scheme.mr as int);
    let size = scheme.blocking.kc * scheme.mr;
    assert((g + 1) * size == g * size + size) by (nonlinear_arith);
    let row = tile.row_outer + tile.row_inner;
    let l = p.lhs_layout;
    assert(l.index(row + tile.m, depth) == l.index(row, depth) + tile.m * l.rs) by {
        reveal(Layout::index);
        assert((row + tile.m) * l.rs == row * l.rs + tile.m * l.rs) by (nonlinear_arith);
    }
}

} // verus!
