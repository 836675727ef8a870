//! The tiles that one block of the destination is cut into, and the threads they go to.
//!
//! A block of `m` rows and `n` columns is cut into panels of consecutive rows, and every panel
//! into tiles of at most `mr` by `nr` entries. The tiles are numbered panel after panel; inside a
//! panel, column after column.

use crate::share::div_ceil;
use crate::share::share;
use vstd::prelude::*;

verus! {

/// One tile of the destination block.
#[derive(Clone, Copy, Debug)]
pub struct Tile {
    /// First row of the panel.
    pub row_outer: usize,
    /// Number of rows of the panel.
    pub m_chunk: usize,
    /// First row of the tile, counted from the start of the panel.
    pub row_inner: usize,
    /// First column of the tile, counted from the start of the block.
    pub col_inner: usize,
    /// Number of rows of the tile.
    pub m: usize,
    /// Number of columns of the tile.
    pub n: usize,
}

/// The mathematical content of a [`Tile`].
pub struct Span {
    pub row_outer: int,
    pub m_chunk: int,
    pub row_inner: int,
    pub col_inner: int,
    pub m: int,
    pub n: int,
}

impl View for Tile {
    type V = Span;

    open spec fn view(&self) -> Span {
        Span {
            row_outer: self.row_outer as int,
            m_chunk: self.m_chunk as int,
            row_inner: self.row_inner as int,
            col_inner: self.col_inner as int,
            m: self.m as int,
            n: self.n as int,
        }
    }
}

impl Span {
    /// Entry `(r, c)` of the block lies in the tile.
    pub open spec fn covers(self, r: int, c: int) -> bool {
        &&& self.row_outer + self.row_inner <= r < self.row_outer + self.row_inner + self.m
        &&& self.col_inner <= c < self.col_inner + self.n
    }
}

/// How a block of the destination is cut into tiles.
#[derive(Clone, Copy, Debug)]
pub struct Grid {
    /// Rows of the block.
    pub m: usize,
    /// Columns of the block.
    pub n: usize,
    /// Largest number of rows of a panel.
    pub mc: usize,
    /// Number of rows that one vector register holds.
    pub lanes: usize,
    /// Largest number of rows of a tile.
    pub mr: usize,
    /// Largest number of columns of a tile.
    pub nr: usize,
}

impl Grid {
    /// The sizes are usable: nothing that is stepped by is zero, and the entries can be counted.
    pub open spec fn wf(self) -> bool {
        &&& self.mc > 0
        &&& self.lanes > 0
        &&& self.mr > 0
        &&& self.nr > 0
        &&& self.m * self.n <= usize::MAX
    }

    /// Number of rows of the panel that starts at `row`: as many as fit, rounded down to whole
    /// vectors where there is more than one.
    pub open spec fn chunk_at(self, row: int) -> int {
        let c = if self.mc < self.m - row {
            self.mc as int
        } else {
            self.m - row
        };
        if c > self.lanes {
            c / (self.lanes as int) * self.lanes
        } else {
            c
        }
    }

    /// Number of tiles side by side in a panel.
    pub open spec fn tiles_across(self) -> int {
        crate::share::ceil_quotient(self.n as int, self.nr as int)
    }

    /// Number of tiles on top of one another in a panel of `chunk` rows.
    pub open spec fn tiles_down(self, chunk: int) -> int {
        crate::share::ceil_quotient(chunk, self.mr as int)
    }

    /// Number of tiles of the panel that starts at `row`.
    pub open spec fn panel_jobs(self, row: int) -> int {
        self.tiles_across() * self.tiles_down(self.chunk_at(row))
    }

    /// A panel can start at `row`: it is not empty and stays inside the block.
    pub open spec fn starts_panel(self, row: int) -> bool {
        0 <= row < self.m && 0 < self.chunk_at(row) <= self.m - row
    }

    /// Number of tiles of all panels from `row` on.
    pub open spec fn jobs_from(self, row: int) -> int
        decreases self.m - row,
    {
        if !self.starts_panel(row) {
            0
        } else {
            self.panel_jobs(row) + self.jobs_from(row + self.chunk_at(row))
        }
    }

    /// The tile `i` down and `j` across in the panel of `chunk` rows that starts at `row`.
    pub open spec fn tile(self, row: int, chunk: int, i: int, j: int) -> Span {
        Span {
            row_outer: row,
            m_chunk: chunk,
            row_inner: self.mr * i,
            col_inner: self.nr * j,
            m: if self.mr < chunk - self.mr * i {
                self.mr as int
            } else {
                chunk - self.mr * i
            },
            n: if self.nr < self.n - self.nr * j {
                self.nr as int
            } else {
                self.n - self.nr * j
            },
        }
    }

    /// The tile with number `job`, where the count starts with the panel at `row`.
    pub open spec fn tile_at(self, row: int, job: int) -> Span
        decreases self.m - row,
    {
        let chunk = self.chunk_at(row);
        let down = self.tiles_down(chunk);
        if !self.starts_panel(row) || job < self.panel_jobs(row) {
            self.tile(row, chunk, job % down, job / down)
        } else {
            self.tile_at(row + chunk, job - self.panel_jobs(row))
        }
    }

    /// A tile of the block: not empty, inside its panel, and aligned to the tile sizes.
    pub open spec fn has_tile(self, s: Span) -> bool {
        &&& 0 <= s.row_outer < self.m
        &&& s.m_chunk == self.chunk_at(s.row_outer)
        &&& s.row_outer + s.m_chunk <= self.m
        &&& 0 <= s.row_inner < s.row_inner + s.m <= s.m_chunk
        &&& 0 <= s.col_inner < s.col_inner + s.n <= self.n
        &&& s.m <= self.mr
        &&& s.n <= self.nr
        &&& s.row_inner % (self.mr as int) == 0
        &&& s.col_inner % (self.nr as int) == 0
        &&& (s.m == self.mr || s.row_inner + s.m == s.m_chunk)
        &&& (s.n == self.nr || s.col_inner + s.n == self.n)
    }

    /// Number of the tile that holds entry `(r, c)`, where the count starts with the panel at
    /// `row`.
    pub open spec fn job_of(self, row: int, r: int, c: int) -> int
        decreases self.m - row,
    {
        let chunk = self.chunk_at(row);
        if !self.starts_panel(row) || r < row + chunk {
            c / (self.nr as int) * self.tiles_down(chunk) + (r - row) / (self.mr as int)
        } else {
            self.panel_jobs(row) + self.job_of(row + chunk, r, c)
        }
    }

    /// Number of rows of the panel that starts at `row`.
    pub fn row_chunk(&self, row: usize) -> (chunk: usize)
        requires
            self.wf(),
            row < self.m,
        ensures
            chunk == self.chunk_at(row as int),
            0 < chunk <= self.mc,
            row + chunk <= self.m,
    {
        proof {
            self.lemma_chunk(row as int);
        }
        let left: usize = self.m - row;
        let c: usize = if self.mc < left {
            self.mc
        } else {
            left
        };
        if c > self.lanes {
            proof {
                assert(c / self.lanes * self.lanes <= c) by (nonlinear_arith)
                    requires
                        self.lanes > 0,
                ;
            }
            c / self.lanes * self.lanes
        } else {
            c
        }
    }

    /// Number of tiles of the whole block.
    pub fn count_jobs(&self) -> (n_jobs: usize)
        requires
            self.wf(),
        ensures
            n_jobs == self.jobs_from(0),
    {
        let across: usize = div_ceil(self.n, self.nr);
        let mut n_jobs: usize = 0;
        let mut row_outer: usize = 0;
        while row_outer != self.m
            invariant
                self.wf(),
                across == self.tiles_across(),
                row_outer <= self.m,
                n_jobs + self.jobs_from(row_outer as int) == self.jobs_from(0),
            decreases self.m - row_outer,
        {
            let m_chunk = self.row_chunk(row_outer);
            let down: usize = div_ceil(m_chunk, self.mr);
            proof {
                self.lemma_jobs_bound(0);
                self.lemma_jobs_bound(row_outer + m_chunk);
                self.lemma_counts(row_outer as int);
                assert(0 * self.n == 0);
            }
            n_jobs = n_jobs + across * down;
            row_outer = row_outer + m_chunk;
        }
        n_jobs
    }

    /// The tiles of thread `tid` out of `n_threads`, in order.
    pub fn thread_tiles(&self, n_jobs: usize, n_threads: usize, tid: usize) -> (tiles: Vec<Tile>)
        requires
            self.wf(),
            n_jobs == self.jobs_from(0),
            tid < n_threads,
        ensures
            tiles@.len() == crate::share::share_start(n_jobs as int, n_threads as int, tid + 1)
                - crate::share::share_start(n_jobs as int, n_threads as int, tid as int),
            forall|t: int|
                0 <= t < tiles@.len() ==> (#[trigger] tiles@[t])@ == self.tile_at(
                    0,
                    crate::share::share_start(n_jobs as int, n_threads as int, tid as int) + t,
                ),
    {
        let (job_start, job_end) = share(n_jobs, n_threads, tid);
        let across: usize = div_ceil(self.n, self.nr);
        let mut tiles: Vec<Tile> = Vec::new();
        let mut row_outer: usize = 0;
        let mut job_id: usize = 0;
        while row_outer != self.m
            invariant
                self.wf(),
                n_jobs == self.jobs_from(0),
                across == self.tiles_across(),
                job_start <= job_end <= n_jobs,
                job_start == crate::share::share_start(n_jobs as int, n_threads as int, tid as int),
                job_end == crate::share::share_start(n_jobs as int, n_threads as int, tid + 1),
                row_outer <= self.m,
                job_id + self.jobs_from(row_outer as int) == n_jobs,
                forall|job: int|
                    job_id <= job < n_jobs ==> #[trigger] self.tile_at(0, job) == self.tile_at(
                        row_outer as int,
                        job - job_id,
                    ),
                tiles@.len() == taken(job_start as int, job_end as int, job_id as int),
                forall|t: int|
                    0 <= t < tiles@.len() ==> (#[trigger] tiles@[t])@ == self.tile_at(
                        0,
                        job_start + t,
                    ),
            decreases self.m - row_outer,
        {
            let m_chunk = self.row_chunk(row_outer);
            let down: usize = div_ceil(m_chunk, self.mr);
            proof {
                self.lemma_jobs_bound(row_outer + m_chunk);
                self.lemma_counts(row_outer as int);
            }
            let n_mini_jobs: usize = across * down;
            let ghost first = job_id;
            if job_id >= job_end {
                return tiles;
            }
            if job_id + n_mini_jobs < job_start {
                job_id = job_id + n_mini_jobs;
            } else {
                let mut j: usize = 0;
                while j < across
                    invariant
                        self.wf(),
                        n_jobs == self.jobs_from(0),
                        across == self.tiles_across(),
                        job_start <= job_end <= n_jobs,
                        row_outer < self.m,
                        m_chunk == self.chunk_at(row_outer as int),
                        down == self.tiles_down(m_chunk as int),
                        0 < down,
                        n_mini_jobs == across * down,
                        n_mini_jobs == self.panel_jobs(row_outer as int),
                        0 < m_chunk,
                        first + n_mini_jobs <= n_jobs,
                        j <= across,
                        job_id == first + j * down,
                        forall|job: int|
                            first <= job < n_jobs ==> #[trigger] self.tile_at(0, job)
                                == self.tile_at(row_outer as int, job - first),
                        tiles@.len() == taken(job_start as int, job_end as int, job_id as int),
                        forall|t: int|
                            0 <= t < tiles@.len() ==> (#[trigger] tiles@[t])@ == self.tile_at(
                                0,
                                job_start + t,
                            ),
                    decreases across - j,
                {
                    let mut i: usize = 0;
                    proof {
                        assert((j + 1) * down == j * down + down) by (nonlinear_arith);
                        assert((j + 1) * down <= across * down) by (nonlinear_arith)
                            requires
                                j < across,
                        ;
                        crate::share::lemma_ceil_quotient(self.n as int, self.nr as int);
                        assert(self.nr * j <= self.nr * (across - 1)) by (nonlinear_arith)
                            requires
                                j < across,
                        ;
                        assert(0 <= self.nr * j) by (nonlinear_arith);
                    }
                    let col_inner: usize = self.nr * j;
                    let cols_left: usize = self.n - col_inner;
                    let n: usize = if self.nr < cols_left {
                        self.nr
                    } else {
                        cols_left
                    };
                    while i < down
                        invariant
                            self.wf(),
                            n_jobs == self.jobs_from(0),
                            job_start <= job_end <= n_jobs,
                            row_outer < self.m,
                            m_chunk == self.chunk_at(row_outer as int),
                            down == self.tiles_down(m_chunk as int),
                            n_mini_jobs == self.panel_jobs(row_outer as int),
                            0 < m_chunk,
                            first + n_mini_jobs <= n_jobs,
                            j * down + down <= n_mini_jobs,
                            i <= down,
                            job_id == first + j * down + i,
                            col_inner == self.nr * j,
                            n == self.tile(row_outer as int, m_chunk as int, 0, j as int).n,
                            forall|job: int|
                                first <= job < n_jobs ==> #[trigger] self.tile_at(0, job)
                                    == self.tile_at(row_outer as int, job - first),
                            tiles@.len() == taken(job_start as int, job_end as int, job_id as int),
                            forall|t: int|
                                0 <= t < tiles@.len() ==> (#[trigger] tiles@[t])@ == self.tile_at(
                                    0,
                                    job_start + t,
                                ),
                        decreases down - i,
                    {
                        if job_start <= job_id && job_id < job_end {
                            proof {
                                crate::share::lemma_ceil_quotient(m_chunk as int, self.mr as int);
                                assert(0 <= self.mr * i <= self.mr * (down - 1)) by (nonlinear_arith)
                                    requires
                                        i < down,
                                ;
                            }
                            let row_inner: usize = self.mr * i;
                            let rows_left: usize = m_chunk - row_inner;
                            let m: usize = if self.mr < rows_left {
                                self.mr
                            } else {
                                rows_left
                            };
                            let tile = Tile { row_outer, m_chunk, row_inner, col_inner, m, n };
                            proof {
                                let local = j * down + i;
                                vstd::arithmetic::div_mod::lemma_fundamental_div_mod_converse(
                                    local,
                                    down as int,
                                    j as int,
                                    i as int,
                                );
                                assert(tile@ == self.tile(
                                    row_outer as int,
                                    m_chunk as int,
                                    i as int,
                                    j as int,
                                ));
                                assert(self.tile_at(row_outer as int, local) == tile@);
                                assert(self.tile_at(0, job_id as int) == tile@);
                            }
                            tiles.push(tile);
                        }
                        job_id = job_id + 1;
                        i = i + 1;
                    }
                    j = j + 1;
                }
            }
            proof {
                assert(job_id == first + n_mini_jobs);
                assert forall|job: int| job_id <= job < n_jobs implies #[trigger] self.tile_at(
                    0,
                    job,
                ) == self.tile_at(row_outer + m_chunk, job - job_id) by {
                    assert(self.tile_at(0, job) == self.tile_at(row_outer as int, job - first));
                }
            }
            row_outer = row_outer + m_chunk;
        }
        tiles
    }

    /// Every number below the count belongs to a tile of the block.
    pub proof fn lemma_tile_valid(self, row: int, job: int)
        requires
            self.wf(),
            0 <= row <= self.m,
            0 <= job < self.jobs_from(row),
        ensures
            self.has_tile(self.tile_at(row, job)),
            row <= self.tile_at(row, job).row_outer,
        decreases self.m - row,
    {
        let chunk = self.chunk_at(row);
        self.lemma_chunk(row);
        self.lemma_counts(row);
        if job < self.panel_jobs(row) {
            let (i, j) = self.lemma_split(row, job);
            self.lemma_tile_shape(row, i, j);
        } else {
            self.lemma_tile_valid(row + chunk, job - self.panel_jobs(row));
        }
    }

    /// Every entry of the block lies in a tile, and in one only: `job_of` gives its number.
    pub proof fn lemma_tile_covers(self, row: int, r: int, c: int)
        requires
            self.wf(),
            0 <= row <= r < self.m,
            0 <= c < self.n,
        ensures
            0 <= self.job_of(row, r, c) < self.jobs_from(row),
            self.tile_at(row, self.job_of(row, r, c)).covers(r, c),
            forall|job: int|
                0 <= job < self.jobs_from(row) && (#[trigger] self.tile_at(row, job)).covers(r, c)
                    ==> job == self.job_of(row, r, c),
        decreases self.m - row,
    {
        let chunk = self.chunk_at(row);
        let down = self.tiles_down(chunk);
        let across = self.tiles_across();
        self.lemma_chunk(row);
        self.lemma_counts(row);
        if r < row + chunk {
            let mr = self.mr as int;
            let nr = self.nr as int;
            let i = (r - row) / mr;
            let j = c / nr;
            lemma_cell(r - row, chunk, mr);
            lemma_cell(c, self.n as int, nr);
            let job = j * down + i;
            vstd::arithmetic::div_mod::lemma_fundamental_div_mod_converse(job, down, j, i);
            assert(0 <= job < across * down) by (nonlinear_arith)
                requires
                    0 <= j < across,
                    0 <= i < down,
                    job == j * down + i,
            ;
            self.lemma_jobs_bound(row + chunk);
            assert(self.tile_at(row, job) == self.tile(row, chunk, i, j));
            assert forall|other: int|
                0 <= other < self.jobs_from(row) && (#[trigger] self.tile_at(row, other)).covers(
                    r,
                    c,
                ) implies other == job by {
                if other < self.panel_jobs(row) {
                    let (i2, j2) = self.lemma_split(row, other);
                    lemma_cell_unique(r - row, mr, i2);
                    lemma_cell_unique(c, nr, j2);
                } else {
                    self.lemma_tile_valid(row + chunk, other - self.panel_jobs(row));
                }
            }
        } else {
            self.lemma_tile_covers(row + chunk, r, c);
            assert forall|other: int|
                0 <= other < self.jobs_from(row) && (#[trigger] self.tile_at(row, other)).covers(
                    r,
                    c,
                ) implies other == self.job_of(row, r, c) by {
                if other < self.panel_jobs(row) {
                    let (i, j) = self.lemma_split(row, other);
                    self.lemma_tile_shape(row, i, j);
                } else {
                    assert(self.tile_at(row, other) == self.tile_at(
                        row + chunk,
                        other - self.panel_jobs(row),
                    ));
                }
            }
        }
    }

    proof fn lemma_split(self, row: int, job: int) -> (r: (int, int))
        requires
            self.wf(),
            0 <= row < self.m,
            0 <= job < self.panel_jobs(row),
        ensures
            0 <= r.0 < self.tiles_down(self.chunk_at(row)),
            0 <= r.1 < self.tiles_across(),
            job == r.1 * self.tiles_down(self.chunk_at(row)) + r.0,
            self.tile_at(row, job) == self.tile(row, self.chunk_at(row), r.0, r.1),
    {
        self.lemma_counts(row);
        let down = self.tiles_down(self.chunk_at(row));
        let across = self.tiles_across();
        vstd::arithmetic::div_mod::lemma_fundamental_div_mod(job, down);
        let i = job % down;
        let j = job / down;
        assert(job == j * down + i) by (nonlinear_arith)
            requires
                job == down * j + i,
        ;
        assert(0 <= j < across) by (nonlinear_arith)
            requires
                job == j * down + i,
                0 <= i < down,
                0 <= job < across * down,
        ;
        (i, j)
    }

    proof fn lemma_tile_shape(self, row: int, i: int, j: int)
        requires
            self.wf(),
            0 <= row < self.m,
            0 <= i < self.tiles_down(self.chunk_at(row)),
            0 <= j < self.tiles_across(),
        ensures
            self.has_tile(self.tile(row, self.chunk_at(row), i, j)),
    {
        let chunk = self.chunk_at(row);
        self.lemma_chunk(row);
        lemma_cell_start(chunk, self.mr as int, i);
        lemma_cell_start(self.n as int, self.nr as int, j);
    }

    /// A panel that starts inside the block is not empty and stays inside.
    pub proof fn lemma_chunk(self, row: int)
        requires
            self.wf(),
            0 <= row < self.m,
        ensures
            0 < self.chunk_at(row) <= self.mc,
            row + self.chunk_at(row) <= self.m,
    {
        let c = if self.mc < self.m - row {
            self.mc as int
        } else {
            self.m - row
        };
        let l = self.lanes as int;
        if c > l {
            assert(0 < c / l * l <= c) by (nonlinear_arith)
                requires
                    c > l,
                    l > 0,
            ;
        }
    }

    proof fn lemma_counts(self, row: int)
        requires
            self.wf(),
            0 <= row < self.m,
        ensures
            0 <= self.tiles_across() <= self.n,
            0 < self.tiles_down(self.chunk_at(row)) <= self.chunk_at(row),
            0 <= self.panel_jobs(row) <= self.chunk_at(row) * self.n,
            self.jobs_from(row) == self.panel_jobs(row) + self.jobs_from(row + self.chunk_at(row)),
    {
        self.lemma_chunk(row);
        crate::share::lemma_ceil_quotient(self.n as int, self.nr as int);
        let chunk = self.chunk_at(row);
        crate::share::lemma_ceil_quotient(chunk, self.mr as int);
        let a = self.tiles_across();
        let d = self.tiles_down(chunk);
        if self.n == 0 {
            vstd::arithmetic::div_mod::lemma_small_mod(0, self.nr as nat);
            vstd::arithmetic::div_mod::lemma_basic_div(0, self.nr as int);
        }
        assert(0 <= a * d <= chunk * self.n) by (nonlinear_arith)
            requires
                0 <= a <= self.n,
                0 < d <= chunk,
        ;
    }

    proof fn lemma_jobs_bound(self, row: int)
        requires
            self.wf(),
            0 <= row <= self.m,
        ensures
            0 <= self.jobs_from(row) <= (self.m - row) * self.n,
        decreases self.m - row,
    {
        if row < self.m {
            let chunk = self.chunk_at(row);
            self.lemma_chunk(row);
            self.lemma_counts(row);
            self.lemma_jobs_bound(row + chunk);
            assert((self.m - row - chunk) * self.n + chunk * self.n == (self.m - row) * self.n)
                by (nonlinear_arith);
        } else {
            assert((self.m - row) * self.n == 0) by (nonlinear_arith)
                requires
                    self.m - row == 0,
            ;
        }
    }
}

proof fn lemma_cell_start(len: int, size: int, i: int)
    requires
        0 < size,
        0 <= i < crate::share::ceil_quotient(len, size),
    ensures
        0 <= size * i < len,
        (size * i) % size == 0,
{
    crate::share::lemma_ceil_quotient(len, size);
    let q = crate::share::ceil_quotient(len, size);
    assert(0 <= size * i <= size * (q - 1)) by (nonlinear_arith)
        requires
            0 <= i <= q - 1,
            0 < size,
    ;
    vstd::arithmetic::div_mod::lemma_mod_multiples_basic(i, size);
    assert(size * i == i * size) by (nonlinear_arith);
}

proof fn lemma_cell(x: int, len: int, size: int)
    requires
        0 < size,
        0 <= x < len,
    ensures
        0 <= x / size < crate::share::ceil_quotient(len, size),
        size * (x / size) <= x < size * (x / size) + size,
{
    crate::share::lemma_ceil_quotient(len, size);
    vstd::arithmetic::div_mod::lemma_fundamental_div_mod(x, size);
    let q = crate::share::ceil_quotient(len, size);
    let i = x / size;
    assert(0 <= i < q) by (nonlinear_arith)
        requires
            0 <= x < len,
            len <= size * q,
            size * i <= x < size * i + size,
            0 < size,
    ;
}

proof fn lemma_cell_unique(x: int, size: int, i: int)
    requires
        0 < size,
        size * i <= x < size * i + size,
    ensures
        i == x / size,
{
    assert(size * i == i * size) by (nonlinear_arith);
    vstd::arithmetic::div_mod::lemma_fundamental_div_mod_converse(x, size, i, x - size * i);
}

/// Number of the jobs in `start..end` that come before `job`.
pub open spec fn taken(start: int, end: int, job: int) -> int {
    if job <= start {
        0
    } else if job <= end {
        job - start
    } else {
        end - start
    }
}

/// A panel has as many rows as fit: all that are left and at most `mc`, rounded down to whole vectors
/// where that is more than one.
pub proof fn law_row_chunk(g: Grid, row: usize, chunk: usize)
    requires
        g.wf(),
        row < g.m,
        call_ensures(Grid::row_chunk, (&g, row), chunk),
    ensures
        0 < chunk <= g.mc,
        row + chunk <= g.m,
        chunk > g.lanes ==> chunk as int % g.lanes as int == 0,
        chunk < g.mc && row + chunk < g.m ==> {
            &&& chunk as int % g.lanes as int == 0
            &&& chunk + g.lanes > g.mc || row + chunk + g.lanes > g.m
        },
{
    g.lemma_chunk(row as int);
    let c = if g.mc < g.m - row {
        g.mc as int
    } else {
        g.m - row
    };
    let l = g.lanes as int;
    vstd::arithmetic::div_mod::lemma_fundamental_div_mod(c, l);
    vstd::arithmetic::div_mod::lemma_mod_multiples_basic(c / l, l);
    assert(c / l * l == l * (c / l)) by (nonlinear_arith);
}

/// The tiles of all threads cover the destination block once: every entry lies in a tile of some thread,
/// and in no other one. A tile is no larger than `mr` by `nr`, and smaller only at the end of a panel or
/// of the block. `tiles` holds the tiles of every thread.
pub proof fn law_tiles_of_threads(
    g: Grid,
    n_jobs: usize,
    n_threads: usize,
    tiles: Seq<Vec<Tile>>,
)
    requires
        g.wf(),
        0 < n_threads,
        call_ensures(Grid::count_jobs, (&g,), n_jobs),
        tiles.len() == n_threads,
        forall|tid: int|
            0 <= tid < n_threads ==> call_ensures(
                Grid::thread_tiles,
                (&g, n_jobs, n_threads, tid as usize),
                #[trigger] tiles[tid],
            ),
    ensures
        forall|tid: int, t: int|
            0 <= tid < n_threads && 0 <= t < tiles[tid]@.len() ==> {
                let tile = #[trigger] tiles[tid]@[t];
                &&& 0 < tile.m <= g.mr
                &&& 0 < tile.n <= g.nr
                &&& tile.row_inner + tile.m <= tile.m_chunk
                &&& tile.row_outer + tile.m_chunk <= g.m
                &&& tile.col_inner + tile.n <= g.n
                &&& tile.row_inner as int % g.mr as int == 0
                &&& tile.col_inner as int % g.nr as int == 0
                &&& tile.m == g.mr || tile.row_inner + tile.m == tile.m_chunk
                &&& tile.n == g.nr || tile.col_inner + tile.n == g.n
            },
        forall|r: int, c: int|
            0 <= r < g.m && 0 <= c < g.n ==> #[trigger] some_tile_has(tiles, r, c),
        forall|r: int, c: int, tid: int, t: int, tid2: int, t2: int|
            0 <= r < g.m && 0 <= c < g.n && 0 <= tid < n_threads && 0 <= t < tiles[tid]@.len() && 0
                <= tid2 < n_threads && 0 <= t2 < tiles[tid2]@.len() && #[trigger] has_entry(
                tiles[tid]@[t],
                r,
                c,
            ) && #[trigger] has_entry(tiles[tid2]@[t2], r, c) ==> tid == tid2 && t == t2,
{
    let jobs = n_jobs as int;
    let parts = n_threads as int;
    assert forall|tid: int, t: int|
        0 <= tid < n_threads && 0 <= t < tiles[tid]@.len() implies {
        let job = crate::share::share_start(jobs, parts, tid) + t;
        &&& 0 <= job < jobs
        &&& (#[trigger] tiles[tid]@[t])@ == g.tile_at(0, job)
        &&& g.has_tile(tiles[tid]@[t]@)
    } by {
        assert(call_ensures(Grid::thread_tiles, (&g, n_jobs, n_threads, tid as usize), tiles[tid]));
        crate::share::lemma_share_bounds(jobs, parts, tid);
        crate::share::lemma_share_bounds(jobs, parts, tid + 1);
        g.lemma_tile_valid(0, crate::share::share_start(jobs, parts, tid) + t);
    }
    assert forall|r: int, c: int| 0 <= r < g.m && 0 <= c < g.n implies #[trigger] some_tile_has(
        tiles,
        r,
        c,
    ) by {
        g.lemma_tile_covers(0, r, c);
        let job = g.job_of(0, r, c);
        let tid = crate::share::lemma_share_covers(jobs, parts, job);
        assert(call_ensures(Grid::thread_tiles, (&g, n_jobs, n_threads, tid as usize), tiles[tid]));
        let t = job - crate::share::share_start(jobs, parts, tid);
        assert(tiles[tid]@[t]@ == g.tile_at(0, job));
        assert(has_entry(tiles[tid]@[t], r, c));
    }
    assert forall|r: int, c: int, tid: int, t: int, tid2: int, t2: int|
        0 <= r < g.m && 0 <= c < g.n && 0 <= tid < n_threads && 0 <= t < tiles[tid]@.len() && 0
            <= tid2 < n_threads && 0 <= t2 < tiles[tid2]@.len() && #[trigger] has_entry(
            tiles[tid]@[t],
            r,
            c,
        ) && #[trigger] has_entry(tiles[tid2]@[t2], r, c) implies tid == tid2 && t == t2 by {
        g.lemma_tile_covers(0, r, c);
        let start = crate::share::share_start(jobs, parts, tid);
        let start2 = crate::share::share_start(jobs, parts, tid2);
        assert(g.tile_at(0, start + t).covers(r, c));
        assert(g.tile_at(0, start2 + t2).covers(r, c));
        assert(call_ensures(Grid::thread_tiles, (&g, n_jobs, n_threads, tid as usize), tiles[tid]));
        assert(call_ensures(
            Grid::thread_tiles,
            (&g, n_jobs, n_threads, tid2 as usize),
            tiles[tid2],
        ));
        crate::share::law_one_share_per_item(jobs, parts, start + t, tid, tid2);
    }
}

/// Entry `(r, c)` of the block lies in a tile of some thread.
pub open spec fn some_tile_has(tiles: Seq<Vec<Tile>>, r: int, c: int) -> bool {
    exists|tid: int, t: int|
        0 <= tid < tiles.len() && 0 <= t < tiles[tid]@.len() && #[trigger] has_entry(
            tiles[tid]@[t],
            r,
            c,
        )
}

/// Entry `(r, c)` of the block lies in the tile.
pub open spec fn has_entry(tile: Tile, r: int, c: int) -> bool {
    &&& tile.row_outer + tile.row_inner <= r < tile.row_outer + tile.row_inner + tile.m
    &&& tile.col_inner <= c < tile.col_inner + tile.n
}

} // verus!
