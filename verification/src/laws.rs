//! What the products amount to, entry by entry.
//!
//! The contracts of the products speak of the kernels that are called. The laws of this module say
//! what follows for an entry of the destination when the kernels treat the entries of a tile
//! independently, and when they compute exactly.

use crate::convert::Convert;
use crate::kernel::TileCall;
use crate::kernel::TileStep;
use crate::scheme::Scheme;
use crate::sweep::Problem;
use vstd::prelude::*;

verus! {

/// Addition, and what adding changes nothing.
#[verifier::reject_recursive_types(R)]
pub struct Sum<R> {
    pub zero: R,
    pub plus: spec_fn(R, R) -> R,
}

impl<R> Sum<R> {
    /// Addition is associative and has `zero` as its neutral element.
    pub open spec fn lawful(self) -> bool {
        &&& forall|x: R, y: R, z: R| #[trigger]
            (self.plus)((self.plus)(x, y), z) == (self.plus)(x, (self.plus)(y, z))
        &&& forall|x: R| #[trigger] (self.plus)(x, self.zero) == x
        &&& forall|x: R| #[trigger] (self.plus)(self.zero, x) == x
    }

    /// The sum of `g(d)` over all `d` in `lo..hi`, in order.
    pub open spec fn total(self, g: spec_fn(int) -> R, lo: int, hi: int) -> R
        decreases hi - lo,
    {
        if hi <= lo {
            self.zero
        } else {
            (self.plus)(self.total(g, lo, hi - 1), g(hi - 1))
        }
    }

    /// A sum can be split.
    pub proof fn lemma_split(self, g: spec_fn(int) -> R, lo: int, mid: int, hi: int)
        requires
            self.lawful(),
            lo <= mid <= hi,
        ensures
            self.total(g, lo, hi) == (self.plus)(self.total(g, lo, mid), self.total(g, mid, hi)),
        decreases hi - mid,
    {
        if mid < hi {
            self.lemma_split(g, lo, mid, hi - 1);
            let x = self.total(g, lo, mid);
            let y = self.total(g, mid, hi - 1);
            let z = g(hi - 1);
            assert((self.plus)((self.plus)(x, y), z) == (self.plus)(x, (self.plus)(y, z)));
        }
    }

    /// A sum depends only on what is added.
    pub proof fn lemma_shift(
        self,
        g: spec_fn(int) -> R,
        h: spec_fn(int) -> R,
        lo: int,
        hi: int,
        by: int,
    )
        requires
            forall|d: int| lo <= d < hi ==> #[trigger] g(d) == h(d + by),
        ensures
            self.total(g, lo, hi) == self.total(h, lo + by, hi + by),
        decreases hi - lo,
    {
        if lo < hi {
            self.lemma_shift(g, h, lo, hi - 1, by);
            assert(g(hi - 1) == h(hi - 1 + by));
        }
    }
}

/// Row `r` of the left operand of a tile.
pub open spec fn tile_row<T, C>(call: TileCall<T, C>, r: int) -> Seq<C> {
    Seq::new(call.k as nat, |d: int| call.lhs@[call.lhs_layout.index(r, d)])
}

/// Column `c` of the right operand of a tile.
pub open spec fn tile_col<T, C>(call: TileCall<T, C>, c: int) -> Seq<C> {
    Seq::new(call.k as nat, |d: int| call.rhs@[call.rhs_layout.index(d, c)])
}

/// Every entry of `out` is what `f` makes of the entry before, a row and a column.
pub open spec fn tile_pointwise<T, C>(
    call: TileCall<T, C>,
    out: Seq<T>,
    f: spec_fn(bool, T, Seq<C>, Seq<C>) -> T,
) -> bool {
    forall|r: int, c: int|
        0 <= r < call.m && 0 <= c < call.n ==> out[#[trigger] crate::block::cell(
            call.m as int,
            r,
            c,
        )] == f(
            call.first,
            call.dst@[crate::block::cell(call.m as int, r, c)],
            tile_row(call, r),
            tile_col(call, c),
        )
}

/// The step treats the entries of a tile independently.
pub open spec fn steps_pointwise<T, C, S: TileStep<T, C>>(
    step: S,
    f: spec_fn(bool, T, Seq<C>, Seq<C>) -> T,
) -> bool {
    forall|call: TileCall<T, C>, out: Seq<T>| #[trigger]
        step.yields(call, out) && step.accepts(call) ==> tile_pointwise(call, out, f)
}

/// The conversion is a function.
pub open spec fn converts_by<T, C, V: Convert<T, C>>(conv: V, g: spec_fn(T) -> C) -> bool {
    forall|x: T, y: C| #[trigger] conv.converts(x, y) ==> y == g(x)
}

/// Converted part of row `i` of the left operand.
pub open spec fn row_part<T, C>(
    p: Problem<T>,
    g: spec_fn(T) -> C,
    i: int,
    depth: int,
    len: int,
) -> Seq<C> {
    Seq::new(len as nat, |d: int| g(p.lhs@[p.lhs_layout.index(i, depth + d)]))
}

/// Converted part of column `j` of the right operand.
pub open spec fn col_part<T, C>(
    p: Problem<T>,
    g: spec_fn(T) -> C,
    j: int,
    depth: int,
    len: int,
) -> Seq<C> {
    Seq::new(len as nat, |d: int| g(p.rhs@[p.rhs_layout.index(depth + d, j)]))
}

/// What becomes of an entry `old` in row `i` and column `j` in the first `t` blocks along the
/// depth.
pub open spec fn entry_after<T, C>(
    p: Problem<T>,
    f: spec_fn(bool, T, Seq<C>, Seq<C>) -> T,
    g: spec_fn(T) -> C,
    kc: int,
    i: int,
    j: int,
    old: T,
    t: int,
) -> T
    decreases t,
{
    if t <= 0 {
        old
    } else {
        let depth = (t - 1) * kc;
        let len = crate::blocked::depth_of(p.k as int, kc, t - 1);
        f(
            t == 1,
            entry_after(p, f, g, kc, i, j, old, t - 1),
            row_part(p, g, i, depth, len),
            col_part(p, g, j, depth, len),
        )
    }
}

/// What a pointwise step makes of an entry.
proof fn lemma_stepped_pointwise<T, C, V: Convert<T, C>, S: TileStep<T, C>>(
    p: Problem<T>,
    conv: V,
    step: S,
    scheme: Scheme<C>,
    f: spec_fn(bool, T, Seq<C>, Seq<C>) -> T,
    g: spec_fn(T) -> C,
    a: Seq<T>,
    depth: int,
    k: int,
    lo: int,
    hi: int,
    r: int,
    c: int,
    v: T,
)
    requires
        steps_pointwise(step, f),
        converts_by(conv, g),
        0 <= k,
        crate::sweep::stepped_to(p, conv, step, scheme, a, depth, k, lo, hi, r, c, v),
    ensures
        v == f(
            depth == 0,
            a[p.dst_layout.index(r, c)],
            row_part(p, g, r, depth, k),
            col_part(p, g, c, depth, k),
        ),
{
    let (call, out, row, col) = choose|call: TileCall<T, C>, out: Seq<T>, row: int, col: int|
        #![trigger
            crate::sweep::tile_matches(p, conv, a, depth, k, row, col, call),
            step.yields(call, out)
        ]
        {
            &&& crate::sweep::tile_matches(p, conv, a, depth, k, row, col, call)
            &&& step.accepts(call)
            &&& step.yields(call, out)
            &&& row == scheme.tile_of(p, r, c).row_outer + scheme.tile_of(p, r, c).row_inner
            &&& col == scheme.block_start(c) + scheme.tile_of(p, r, c).col_inner
            &&& scheme.placed(
                p,
                depth,
                k,
                scheme.block_start(c),
                scheme.tile_of(p, r, c),
                call,
            )
            &&& lo <= col
            &&& col + call.n <= hi
            &&& row <= r < row + call.m
            &&& col <= c < col + call.n
            &&& out.len() == call.m * call.n
            &&& v == out[crate::block::cell(call.m as int, r - row, c - col)]
        };
    assert(tile_pointwise(call, out, f));
    let q = crate::block::cell(call.m as int, r - row, c - col);
    assert(call.dst@[q] == a[p.dst_layout.index(row + (r - row), col + (c - col))]);
    assert(tile_row(call, r - row) =~= row_part(p, g, r, depth, k)) by {
        assert forall|d: int| 0 <= d < k implies tile_row(call, r - row)[d] == row_part(
            p,
            g,
            r,
            depth,
            k,
        )[d] by {
            assert(conv.converts(
                p.lhs@[p.lhs_layout.index(row + (r - row), depth + d)],
                call.lhs@[call.lhs_layout.index(r - row, d)],
            ));
        }
    }
    assert(tile_col(call, c - col) =~= col_part(p, g, c, depth, k)) by {
        assert forall|d: int| 0 <= d < k implies tile_col(call, c - col)[d] == col_part(
            p,
            g,
            c,
            depth,
            k,
        )[d] by {
            assert(conv.converts(
                p.rhs@[p.rhs_layout.index(depth + d, col + (c - col))],
                call.rhs@[call.rhs_layout.index(d, c - col)],
            ));
        }
    }
}

proof fn lemma_entry_states<T, C, V: Convert<T, C>, S: TileStep<T, C>>(
    p: Problem<T>,
    conv: V,
    step: S,
    f: spec_fn(bool, T, Seq<C>, Seq<C>) -> T,
    g: spec_fn(T) -> C,
    scheme: Scheme<C>,
    states: Seq<Seq<T>>,
    pre: Seq<T>,
    post: Seq<T>,
    i: int,
    j: int,
    t: int,
)
    requires
        steps_pointwise(step, f),
        converts_by(conv, g),
        0 < scheme.blocking.kc,
        0 < p.k,
        0 <= i < p.m,
        0 <= j < p.n,
        crate::blocked::passes_through(p, conv, step, scheme, states, pre, post, 0, p.n as int),
        0 <= t <= crate::share::ceil_quotient(p.k as int, scheme.blocking.kc),
    ensures
        states[t][p.dst_layout.index(i, j)] == entry_after(
            p,
            f,
            g,
            scheme.blocking.kc,
            i,
            j,
            pre[p.dst_layout.index(i, j)],
            t,
        ),
    decreases t,
{
    let kc = scheme.blocking.kc;
    if t > 0 {
        lemma_entry_states(p, conv, step, f, g, scheme, states, pre, post, i, j, t - 1);
        assert(crate::blocked::advances(p, conv, step, scheme, states, 0, p.n as int, t - 1));
        crate::share::lemma_ceil_quotient(p.k as int, kc);
        let blocks = crate::share::ceil_quotient(p.k as int, kc);
        assert((t - 1) * kc < p.k) by (nonlinear_arith)
            requires
                t <= blocks,
                kc * (blocks - 1) < p.k,
                0 < kc,
        ;
        assert((t - 1) * kc == 0 <==> t == 1) by (nonlinear_arith)
            requires
                0 < kc,
        ;
        lemma_stepped_pointwise(
            p,
            conv,
            step,
            scheme,
            f,
            g,
            states[t - 1],
            (t - 1) * kc,
            crate::blocked::depth_of(p.k as int, kc, t - 1),
            0,
            p.n as int,
            i,
            j,
            states[t - 1 + 1][p.dst_layout.index(i, j)],
        );
    }
}

/// With steps that treat the entries of a tile independently, what becomes of an entry depends only
/// on the entry, its row of the left operand, its column of the right operand, and the size of the
/// blocks along the depth.
pub proof fn law_entry_alone<T, C, V: Convert<T, C>, S: TileStep<T, C>>(
    p: Problem<T>,
    conv: V,
    step: S,
    f: spec_fn(bool, T, Seq<C>, Seq<C>) -> T,
    g: spec_fn(T) -> C,
    scheme: Scheme<C>,
    pre: Seq<T>,
    post: Seq<T>,
    i: int,
    j: int,
)
    requires
        0 < scheme.blocking.kc,
        0 < p.k,
        0 <= i < p.m,
        0 <= j < p.n,
        steps_pointwise(step, f),
        converts_by(conv, g),
        crate::blocked::accumulated(p, conv, step, scheme, pre, post),
    ensures
        post[p.dst_layout.index(i, j)] == entry_after(
            p,
            f,
            g,
            scheme.blocking.kc,
            i,
            j,
            pre[p.dst_layout.index(i, j)],
            crate::share::ceil_quotient(p.k as int, scheme.blocking.kc),
        ),
{
    let kc = scheme.blocking.kc;
    let states = choose|states: Seq<Seq<T>>| #[trigger]
        crate::blocked::passes_through(p, conv, step, scheme, states, pre, post, 0, p.n as int);
    let blocks = crate::share::ceil_quotient(p.k as int, kc);
    crate::share::lemma_ceil_quotient(p.k as int, kc);
    lemma_entry_states(p, conv, step, f, g, scheme, states, pre, post, i, j, blocks);
}

/// With steps that treat the entries of a tile independently, the result does not depend on how the
/// destination is cut into tiles, on which threads compute them, or on what is packed.
pub proof fn law_tiling_does_not_matter<
    T,
    C,
    V: Convert<T, C>,
    S: TileStep<T, C>,
    U: TileStep<T, C>,
>(
    p: Problem<T>,
    conv: V,
    step: S,
    other: U,
    f: spec_fn(bool, T, Seq<C>, Seq<C>) -> T,
    g: spec_fn(T) -> C,
    scheme: Scheme<C>,
    other_scheme: Scheme<C>,
    pre: Seq<T>,
    post: Seq<T>,
    other_post: Seq<T>,
)
    requires
        0 < scheme.blocking.kc,
        scheme.blocking.kc == other_scheme.blocking.kc,
        0 < p.k,
        steps_pointwise(step, f),
        steps_pointwise(other, f),
        converts_by(conv, g),
        crate::blocked::accumulated(p, conv, step, scheme, pre, post),
        crate::blocked::accumulated(p, conv, other, other_scheme, pre, other_post),
    ensures
        post == other_post,
{
    let l = p.dst_layout;
    assert forall|q: int| 0 <= q < pre.len() implies post[q] == other_post[q] by {
        if l.holds(p.m as int, 0, p.n as int, q) {
            let (i, j) = choose|i: int, j: int|
                0 <= i < p.m && 0 <= j < p.n && #[trigger] l.index(i, j) == q;
            law_entry_alone(p, conv, step, f, g, scheme, pre, post, i, j);
            law_entry_alone(p, conv, other, f, g, other_scheme, pre, other_post, i, j);
        }
    }
    assert(post =~= other_post);
}

/// An entry that the first update does not depend on is forgotten.
proof fn lemma_entry_forgotten<T, C>(
    p: Problem<T>,
    f: spec_fn(bool, T, Seq<C>, Seq<C>) -> T,
    g: spec_fn(T) -> C,
    kc: int,
    i: int,
    j: int,
    old: T,
    other: T,
    t: int,
)
    requires
        forall|x: T, y: T, row: Seq<C>, col: Seq<C>| #[trigger]
            f(true, x, row, col) == #[trigger] f(true, y, row, col),
        0 < t,
    ensures
        entry_after(p, f, g, kc, i, j, old, t) == entry_after(p, f, g, kc, i, j, other, t),
    decreases t,
{
    if t > 1 {
        lemma_entry_forgotten(p, f, g, kc, i, j, old, other, t - 1);
    }
}

/// With steps that treat the entries of a tile independently and whose first update does not read
/// the destination, the result does not depend on what the destination held.
pub proof fn law_unread_destination<T, C, V: Convert<T, C>, S: TileStep<T, C>>(
    p: Problem<T>,
    conv: V,
    step: S,
    f: spec_fn(bool, T, Seq<C>, Seq<C>) -> T,
    g: spec_fn(T) -> C,
    scheme: Scheme<C>,
    pre: Seq<T>,
    post: Seq<T>,
    other_pre: Seq<T>,
    other_post: Seq<T>,
    i: int,
    j: int,
)
    requires
        0 < scheme.blocking.kc,
        0 < p.k,
        0 <= i < p.m,
        0 <= j < p.n,
        steps_pointwise(step, f),
        converts_by(conv, g),
        forall|x: T, y: T, row: Seq<C>, col: Seq<C>| #[trigger]
            f(true, x, row, col) == #[trigger] f(true, y, row, col),
        crate::blocked::accumulated(p, conv, step, scheme, pre, post),
        crate::blocked::accumulated(p, conv, step, scheme, other_pre, other_post),
    ensures
        post[p.dst_layout.index(i, j)] == other_post[p.dst_layout.index(i, j)],
{
    let kc = scheme.blocking.kc;
    let q = p.dst_layout.index(i, j);
    let blocks = crate::share::ceil_quotient(p.k as int, kc);
    crate::share::lemma_ceil_quotient(p.k as int, kc);
    law_entry_alone(p, conv, step, f, g, scheme, pre, post, i, j);
    law_entry_alone(p, conv, step, f, g, scheme, other_pre, other_post, i, j);
    lemma_entry_forgotten(p, f, g, kc, i, j, pre[q], other_pre[q], blocks);
}

/// The products whose sum entry `(i, j)` is updated with.
pub open spec fn entry_terms<T, R>(
    p: Problem<T>,
    pair: spec_fn(T, T) -> R,
    i: int,
    j: int,
) -> spec_fn(int) -> R {
    |d: int| pair(p.lhs@[p.lhs_layout.index(i, d)], p.rhs@[p.rhs_layout.index(d, j)])
}

/// What the numbers of a product stand for, and how exact arithmetic goes on from there.
#[verifier::reject_recursive_types(T)]
#[verifier::reject_recursive_types(C)]
#[verifier::reject_recursive_types(R)]
pub struct Course<T, C, R> {
    pub sum: Sum<R>,
    /// What an entry of the destination stands for.
    pub value: spec_fn(T) -> R,
    /// What the first update makes of an entry before it adds to it.
    pub start: spec_fn(T) -> R,
    /// The product of two numbers in the computing precision.
    pub term: spec_fn(C, C) -> R,
    /// The product of two entries of the operands.
    pub pair: spec_fn(T, T) -> R,
}

impl<T, C, R> Course<T, C, R> {
    /// Every entry of `out` has the value that exact arithmetic gives: that of the entry before, as
    /// `start` has it in the first update, plus the sum of the products of a row and a column.
    pub open spec fn tile_exact(self, call: TileCall<T, C>, out: Seq<T>) -> bool {
        forall|r: int, c: int|
            0 <= r < call.m && 0 <= c < call.n ==> {
                let q = #[trigger] crate::block::cell(call.m as int, r, c);
                (self.value)(out[q]) == (self.sum.plus)(
                    if call.first {
                        (self.start)(call.dst@[q])
                    } else {
                        (self.value)(call.dst@[q])
                    },
                    self.sum.total(
                        |d: int|
                            (self.term)(
                                call.lhs@[call.lhs_layout.index(r, d)],
                                call.rhs@[call.rhs_layout.index(d, c)],
                            ),
                        0,
                        call.k as int,
                    ),
                )
            }
    }

    /// What entry `(i, j)` stands for after `t > 0` exact updates, each with `kc` products or with
    /// what is left of `p.k` of them.
    pub open spec fn reached(
        self,
        p: Problem<T>,
        kc: int,
        pre: Seq<T>,
        i: int,
        j: int,
        t: int,
    ) -> R {
        (self.sum.plus)(
            (self.start)(pre[p.dst_layout.index(i, j)]),
            self.sum.total(
                entry_terms(p, self.pair, i, j),
                0,
                if t * kc < p.k {
                    t * kc
                } else {
                    p.k as int
                },
            ),
        )
    }

    /// The destination is `pre`, or its entries stand for what `t` exact updates make of `pre`.
    pub open spec fn on_course(
        self,
        p: Problem<T>,
        kc: int,
        pre: Seq<T>,
        state: Seq<T>,
        t: int,
    ) -> bool {
        if t == 0 {
            state == pre
        } else {
            forall|i: int, j: int|
                0 <= i < p.m && 0 <= j < p.n ==> (self.value)(
                    state[#[trigger] p.dst_layout.index(i, j)],
                ) == self.reached(p, kc, pre, i, j, t)
        }
    }

    /// The step belongs to the product: it is the one that update `t` makes for the tile with entry
    /// `(r, c)`, on a destination that is on course.
    pub open spec fn step_due<V: Convert<T, C>>(
        self,
        p: Problem<T>,
        conv: V,
        scheme: Scheme<C>,
        pre: Seq<T>,
        state: Seq<T>,
        t: int,
        r: int,
        c: int,
        call: TileCall<T, C>,
    ) -> bool {
        let kc = scheme.blocking.kc;
        let depth = t * kc;
        let k = crate::blocked::depth_of(p.k as int, kc, t);
        let tile = scheme.tile_of(p, r, c);
        &&& 0 <= t < crate::share::ceil_quotient(p.k as int, kc)
        &&& self.on_course(p, kc, pre, state, t)
        &&& 0 <= r < p.m
        &&& 0 <= c < p.n
        &&& crate::sweep::tile_matches(
            p,
            conv,
            state,
            depth,
            k,
            tile.row_outer + tile.row_inner,
            scheme.block_start(c) + tile.col_inner,
            call,
        )
        &&& scheme.placed(p, depth, k, scheme.block_start(c), tile, call)
    }

    /// The steps that belong to the product are exact.
    pub open spec fn steps_exactly<V: Convert<T, C>, S: TileStep<T, C>>(
        self,
        p: Problem<T>,
        conv: V,
        step: S,
        scheme: Scheme<C>,
        pre: Seq<T>,
    ) -> bool {
        forall|state: Seq<T>, t: int, r: int, c: int, call: TileCall<T, C>, out: Seq<T>| #[trigger]
            self.step_due(p, conv, scheme, pre, state, t, r, c, call) && step.accepts(call)
                && #[trigger] step.yields(call, out) ==> self.tile_exact(call, out)
    }

    /// The product of two converted numbers is that of the numbers.
    pub open spec fn converts_exactly<V: Convert<T, C>>(self, conv: V) -> bool {
        forall|x: T, y: T, u: C, v: C| #[trigger]
            conv.converts(x, u) && #[trigger] conv.converts(y, v) ==> (self.term)(u, v)
                == (self.pair)(x, y)
    }
}

/// What an exact step makes of an entry.
proof fn lemma_stepped_exactly<T, C, V: Convert<T, C>, S: TileStep<T, C>, R>(
    course: Course<T, C, R>,
    p: Problem<T>,
    conv: V,
    step: S,
    scheme: Scheme<C>,
    pre: Seq<T>,
    a: Seq<T>,
    t: int,
    r: int,
    c: int,
    v: T,
)
    requires
        course.steps_exactly(p, conv, step, scheme, pre),
        course.converts_exactly(conv),
        0 <= t < crate::share::ceil_quotient(p.k as int, scheme.blocking.kc),
        course.on_course(p, scheme.blocking.kc, pre, a, t),
        0 <= r < p.m,
        0 <= c < p.n,
        crate::sweep::stepped_to(
            p,
            conv,
            step,
            scheme,
            a,
            t * scheme.blocking.kc,
            crate::blocked::depth_of(p.k as int, scheme.blocking.kc, t),
            0,
            p.n as int,
            r,
            c,
            v,
        ),
    ensures
        (course.value)(v) == (course.sum.plus)(
            if t * scheme.blocking.kc == 0 {
                (course.start)(a[p.dst_layout.index(r, c)])
            } else {
                (course.value)(a[p.dst_layout.index(r, c)])
            },
            course.sum.total(
                entry_terms(p, course.pair, r, c),
                t * scheme.blocking.kc,
                t * scheme.blocking.kc + crate::blocked::depth_of(
                    p.k as int,
                    scheme.blocking.kc,
                    t,
                ),
            ),
        ),
{
    let depth = t * scheme.blocking.kc;
    let k = crate::blocked::depth_of(p.k as int, scheme.blocking.kc, t);
    let lo: int = 0;
    let hi = p.n as int;
    let (call, out, row, col) = choose|call: TileCall<T, C>, out: Seq<T>, row: int, col: int|
        #![trigger
            crate::sweep::tile_matches(p, conv, a, depth, k, row, col, call),
            step.yields(call, out)
        ]
        {
            &&& crate::sweep::tile_matches(p, conv, a, depth, k, row, col, call)
            &&& step.accepts(call)
            &&& step.yields(call, out)
            &&& row == scheme.tile_of(p, r, c).row_outer + scheme.tile_of(p, r, c).row_inner
            &&& col == scheme.block_start(c) + scheme.tile_of(p, r, c).col_inner
            &&& scheme.placed(
                p,
                depth,
                k,
                scheme.block_start(c),
                scheme.tile_of(p, r, c),
                call,
            )
            &&& lo <= col
            &&& col + call.n <= hi
            &&& row <= r < row + call.m
            &&& col <= c < col + call.n
            &&& out.len() == call.m * call.n
            &&& v == out[crate::block::cell(call.m as int, r - row, c - col)]
        };
    assert(course.step_due(p, conv, scheme, pre, a, t, r, c, call));
    assert(course.tile_exact(call, out));
    let q = crate::block::cell(call.m as int, r - row, c - col);
    assert(call.dst@[q] == a[p.dst_layout.index(row + (r - row), col + (c - col))]);
    let local = |d: int|
        (course.term)(
            call.lhs@[call.lhs_layout.index(r - row, d)],
            call.rhs@[call.rhs_layout.index(d, c - col)],
        );
    let whole = entry_terms(p, course.pair, r, c);
    assert forall|d: int| 0 <= d < k implies #[trigger] local(d) == whole(d + depth) by {
        assert(conv.converts(
            p.lhs@[p.lhs_layout.index(row + (r - row), depth + d)],
            call.lhs@[call.lhs_layout.index(r - row, d)],
        ));
        assert(conv.converts(
            p.rhs@[p.rhs_layout.index(depth + d, col + (c - col))],
            call.rhs@[call.rhs_layout.index(d, c - col)],
        ));
    }
    course.sum.lemma_shift(local, whole, 0, k, depth);
}

/// Every state that the destination passes through is on course.
proof fn lemma_exact_states<T, C, V: Convert<T, C>, S: TileStep<T, C>, R>(
    course: Course<T, C, R>,
    p: Problem<T>,
    conv: V,
    step: S,
    scheme: Scheme<C>,
    states: Seq<Seq<T>>,
    pre: Seq<T>,
    post: Seq<T>,
    t: int,
)
    requires
        course.sum.lawful(),
        course.steps_exactly(p, conv, step, scheme, pre),
        course.converts_exactly(conv),
        0 < scheme.blocking.kc,
        0 < p.k,
        crate::blocked::passes_through(p, conv, step, scheme, states, pre, post, 0, p.n as int),
        0 <= t <= crate::share::ceil_quotient(p.k as int, scheme.blocking.kc),
    ensures
        course.on_course(p, scheme.blocking.kc, pre, states[t], t),
    decreases t,
{
    if t > 0 {
        let kc = scheme.blocking.kc;
        let depth = (t - 1) * kc;
        let len = crate::blocked::depth_of(p.k as int, kc, t - 1);
        crate::share::lemma_ceil_quotient(p.k as int, kc);
        let blocks = crate::share::ceil_quotient(p.k as int, kc);
        assert(depth < p.k) by (nonlinear_arith)
            requires
                t <= blocks,
                kc * (blocks - 1) < p.k,
                0 < kc,
                depth == (t - 1) * kc,
        ;
        assert((t - 1) * kc == 0 <==> t == 1) by (nonlinear_arith)
            requires
                0 < kc,
        ;
        assert(t * kc == depth + kc) by (nonlinear_arith)
            requires
                depth == (t - 1) * kc,
        ;
        assert(0 <= depth) by (nonlinear_arith)
            requires
                depth == (t - 1) * kc,
                t >= 1,
                0 < kc,
        ;
        lemma_exact_states(course, p, conv, step, scheme, states, pre, post, t - 1);
        assert(crate::blocked::advances(p, conv, step, scheme, states, 0, p.n as int, t - 1));
        assert forall|i: int, j: int| 0 <= i < p.m && 0 <= j < p.n implies (course.value)(
            states[t][#[trigger] p.dst_layout.index(i, j)],
        ) == course.reached(p, kc, pre, i, j, t) by {
            let q = p.dst_layout.index(i, j);
            let whole = entry_terms(p, course.pair, i, j);
            lemma_stepped_exactly(
                course,
                p,
                conv,
                step,
                scheme,
                pre,
                states[t - 1],
                t - 1,
                i,
                j,
                states[t - 1 + 1][q],
            );
            if t > 1 {
                course.sum.lemma_split(whole, 0, depth, depth + len);
                let x = (course.start)(pre[q]);
                let y = course.sum.total(whole, 0, depth);
                let z = course.sum.total(whole, depth, depth + len);
                assert((course.sum.plus)((course.sum.plus)(x, y), z) == (course.sum.plus)(
                    x,
                    (course.sum.plus)(y, z),
                ));
            }
        }
    }
}

/// Where the steps that belong to a product are exact, every entry of the destination is what
/// `start` makes of the entry before, plus the sum of the products of its row of the left and its
/// column of the right operand.
pub proof fn law_accumulated_exactly<T, C, V: Convert<T, C>, S: TileStep<T, C>, R>(
    course: Course<T, C, R>,
    p: Problem<T>,
    conv: V,
    step: S,
    scheme: Scheme<C>,
    pre: Seq<T>,
    post: Seq<T>,
    i: int,
    j: int,
)
    requires
        course.sum.lawful(),
        course.steps_exactly(p, conv, step, scheme, pre),
        course.converts_exactly(conv),
        0 < scheme.blocking.kc,
        0 < p.k,
        0 <= i < p.m,
        0 <= j < p.n,
        crate::blocked::accumulated(p, conv, step, scheme, pre, post),
    ensures
        (course.value)(post[p.dst_layout.index(i, j)]) == (course.sum.plus)(
            (course.start)(pre[p.dst_layout.index(i, j)]),
            course.sum.total(entry_terms(p, course.pair, i, j), 0, p.k as int),
        ),
{
    let kc = scheme.blocking.kc;
    let states = choose|states: Seq<Seq<T>>| #[trigger]
        crate::blocked::passes_through(p, conv, step, scheme, states, pre, post, 0, p.n as int);
    let blocks = crate::share::ceil_quotient(p.k as int, kc);
    crate::share::lemma_ceil_quotient(p.k as int, kc);
    assert(blocks * kc >= p.k) by (nonlinear_arith)
        requires
            kc * blocks >= p.k,
    ;
    assert(0 < blocks) by (nonlinear_arith)
        requires
            kc * blocks >= p.k,
            0 < p.k,
            0 < kc,
    ;
    lemma_exact_states(course, p, conv, step, scheme, states, pre, post, blocks);
    assert((course.value)(states[blocks][p.dst_layout.index(i, j)]) == course.reached(
        p,
        kc,
        pre,
        i,
        j,
        blocks,
    ));
}

} // verus!
