//! Steps that compute the update of a tile apart from the tile, and then merge the two.

use crate::kernel::AlphaStatus;
use crate::kernel::KernelCall;
use crate::kernel::TileCall;
use crate::kernel::TileStep;
use crate::share::div_ceil;
use crate::sweep::filled;
use vstd::prelude::*;

verus! {

/// A way to merge an update in the computing precision into an entry in the stored precision.
pub trait Merge<T, C> {
    /// `new` may come of merging `update` into `old`. `first` says whether it is the first update
    /// of the entry.
    spec fn merges(&self, first: bool, old: T, update: C, new: T) -> bool;

    /// All entries and updates can be merged.
    spec fn ready(&self) -> bool;

    /// Merges `update` into `old`.
    fn merge(&self, first: bool, old: T, update: C) -> (new: T)
        requires
            self.ready(),
        ensures
            self.merges(first, old, update, new),
    ;
}

/// What the kernels are asked for: a product that is not added to anything.
pub open spec fn asked_alone<C>(zero: C) -> spec_fn(
    C,
    C,
    AlphaStatus,
    bool,
    bool,
    bool,
) -> bool {
    |alpha: C, beta: C, status: AlphaStatus, conj_dst: bool, conj_lhs: bool, conj_rhs: bool|
        {
            &&& alpha == zero
            &&& status is Zero
            &&& !conj_dst
            &&& !conj_lhs
            &&& !conj_rhs
        }
}

/// Computes the update of a tile with a kernel of the table, from a tile of zeros that is not
/// read, and merges it into the tile.
pub struct MergeStep<'b, C, G, F, const NR: usize, const MR_DIV_N: usize> {
    pub dispatcher: &'b [[F; NR]; MR_DIV_N],
    pub lanes: usize,
    pub mr: usize,
    pub merge: &'b G,
    pub zero: C,
    pub beta: C,
}

impl<
    'b,
    C,
    G,
    F: for <'a>Fn(KernelCall<'a, C>) -> Vec<C>,
    const NR: usize,
    const MR_DIV_N: usize,
> MergeStep<'b, C, G, F, NR, MR_DIV_N> {
    /// What the kernel is given.
    pub open spec fn kernel_call<'a, T>(
        self,
        call: TileCall<'a, T, C>,
        blank: Vec<C>,
    ) -> KernelCall<'a, C> {
        KernelCall {
            m: call.m,
            n: call.n,
            k: call.k,
            dst: blank,
            lhs: call.lhs,
            lhs_layout: call.lhs_layout,
            next_lhs: call.next_lhs,
            rhs: call.rhs,
            rhs_layout: call.rhs_layout,
            alpha: self.zero,
            beta: self.beta,
            alpha_status: AlphaStatus::Zero,
            conj_dst: false,
            conj_lhs: false,
            conj_rhs: false,
        }
    }

    /// The kernel may give `update`.
    pub open spec fn updates_by<T>(self, call: TileCall<T, C>, update: Seq<C>) -> bool {
        exists|blank: Vec<C>, res: Vec<C>|
            {
                &&& #[trigger] call_ensures(
                    self.dispatcher@[crate::share::ceil_quotient(
                        call.m as int,
                        self.lanes as int,
                    ) - 1]@[call.n - 1],
                    (self.kernel_call(call, blank),),
                    res,
                )
                &&& blank@ == Seq::new((call.m * call.n) as nat, |i: int| self.zero)
                &&& res@ == update
            }
    }
}

/// The kernels can compute the update of the tile, and it can be merged.
pub open spec fn merge_takes<
    T,
    C,
    G: Merge<T, C>,
    F: for <'a>Fn(KernelCall<'a, C>) -> Vec<C>,
    const NR: usize,
    const MR_DIV_N: usize,
>(step: MergeStep<'_, C, G, F, NR, MR_DIV_N>, call: TileCall<T, C>) -> bool {
    &&& 0 < step.lanes
    &&& step.mr == MR_DIV_N * step.lanes
    &&& call.wf(step.lanes as int, step.mr as int, NR as int)
    &&& crate::kernel::kernels_ready(
        *step.dispatcher,
        step.lanes as int,
        step.mr as int,
        asked_alone(step.zero),
    )
    &&& step.merge.ready()
}

/// `out` may come of merging an update that the kernel for the shape of the tile gives.
pub open spec fn merge_gives<
    T,
    C,
    G: Merge<T, C>,
    F: for <'a>Fn(KernelCall<'a, C>) -> Vec<C>,
    const NR: usize,
    const MR_DIV_N: usize,
>(step: MergeStep<'_, C, G, F, NR, MR_DIV_N>, call: TileCall<T, C>, out: Seq<T>) -> bool {
    exists|update: Seq<C>|
        {
            &&& #[trigger] step.updates_by(call, update)
            &&& out.len() == update.len()
            &&& forall|q: int|
                0 <= q < out.len() ==> step.merge.merges(
                    call.first,
                    call.dst@[q],
                    update[q],
                    #[trigger] out[q],
                )
        }
}

/// The steps that [`MergeStep`] makes.
pub proof fn lemma_merge_step<
    T: Copy,
    C: Copy,
    G: Merge<T, C>,
    F: for <'a>Fn(KernelCall<'a, C>) -> Vec<C>,
    const NR: usize,
    const MR_DIV_N: usize,
>(step: MergeStep<'_, C, G, F, NR, MR_DIV_N>)
    ensures
        forall|call: TileCall<T, C>| #[trigger]
            TileStep::<T, C>::accepts(&step, call) == merge_takes(step, call),
        forall|call: TileCall<T, C>, out: Seq<T>| #[trigger]
            TileStep::<T, C>::yields(&step, call, out) == merge_gives(step, call, out),
{
}

impl<
    'b,
    T: Copy,
    C: Copy,
    G: Merge<T, C>,
    F: for <'a>Fn(KernelCall<'a, C>) -> Vec<C>,
    const NR: usize,
    const MR_DIV_N: usize,
> TileStep<T, C> for MergeStep<'b, C, G, F, NR, MR_DIV_N> {
    open spec fn accepts(&self, call: TileCall<T, C>) -> bool {
        merge_takes(*self, call)
    }

    open spec fn yields(&self, call: TileCall<T, C>, out: Seq<T>) -> bool {
        merge_gives(*self, call, out)
    }

    fn step(&self, call: TileCall<'_, T, C>) -> (out: Vec<T>) {
        proof {
            crate::share::lemma_ceil_quotient(call.m as int, self.lanes as int);
            let q = crate::share::ceil_quotient(call.m as int, self.lanes as int);
            assert(q <= MR_DIV_N) by (nonlinear_arith)
                requires
                    self.lanes * (q - 1) < call.m,
                    call.m <= MR_DIV_N * self.lanes,
                    0 < self.lanes,
            ;
        }
        let a: usize = div_ceil(call.m, self.lanes) - 1;
        let b: usize = call.n - 1;
        let kernel = &self.dispatcher[a][b];
        let blank = filled(call.dst.len(), self.zero);
        let args = KernelCall {
            m: call.m,
            n: call.n,
            k: call.k,
            dst: blank,
            lhs: call.lhs,
            lhs_layout: call.lhs_layout,
            next_lhs: call.next_lhs,
            rhs: call.rhs,
            rhs_layout: call.rhs_layout,
            alpha: self.zero,
            beta: self.beta,
            alpha_status: AlphaStatus::Zero,
            conj_dst: false,
            conj_lhs: false,
            conj_rhs: false,
        };
        assert(args == self.kernel_call(call, args.dst));
        let update = kernel(args);
        assert(self.updates_by(call, update@));
        let mut out: Vec<T> = Vec::new();
        let mut q: usize = 0;
        while q < update.len()
            invariant
                self.merge.ready(),
                call.dst@.len() == update@.len(),
                q <= update@.len(),
                out@.len() == q,
                forall|i: int|
                    0 <= i < q ==> self.merge.merges(
                        call.first,
                        call.dst@[i],
                        update@[i],
                        #[trigger] out@[i],
                    ),
            decreases update@.len() - q,
        {
            out.push(self.merge.merge(call.first, call.dst[q], update[q]));
            q = q + 1;
        }
        out
    }
}

/// Every entry of the update that a kernel gives is what `entry` makes of the factor of the product,
/// a row and a column.
pub open spec fn update_pointwise<C>(
    call: KernelCall<C>,
    out: Seq<C>,
    entry: spec_fn(C, Seq<C>, Seq<C>) -> C,
) -> bool {
    forall|r: int, c: int|
        0 <= r < call.m && 0 <= c < call.n ==> out[#[trigger] crate::block::cell(
            call.m as int,
            r,
            c,
        )] == entry(
            call.beta,
            Seq::new(call.k as nat, |d: int| call.lhs@[call.lhs_layout.index(r, d)]),
            Seq::new(call.k as nat, |d: int| call.rhs@[call.rhs_layout.index(d, c)]),
        )
}

/// The kernels of the table treat the entries of a tile independently.
pub open spec fn updates_pointwise<
    C,
    F: for <'a>Fn(KernelCall<'a, C>) -> Vec<C>,
    const NR: usize,
    const MR_DIV_N: usize,
>(
    dispatcher: [[F; NR]; MR_DIV_N],
    lanes: int,
    mr: int,
    zero: C,
    entry: spec_fn(C, Seq<C>, Seq<C>) -> C,
) -> bool {
    forall|a: int, b: int, call: KernelCall<C>, out: Vec<C>|
        0 <= a < MR_DIV_N && 0 <= b < NR && call.wf(lanes, mr, NR as int)
            && crate::kernel::serves(lanes, a, b, call) && call.asked_by(asked_alone(zero))
            && #[trigger] call_ensures(dispatcher@[a]@[b], (call,), out) ==> update_pointwise(
            call,
            out@,
            entry,
        )
}

/// Merging is a function.
pub open spec fn merges_by<T, C, G: Merge<T, C>>(
    merge: G,
    made: spec_fn(bool, T, C) -> T,
) -> bool {
    forall|first: bool, old: T, update: C, new: T| #[trigger]
        merge.merges(first, old, update, new) ==> new == made(first, old, update)
}

/// Steps with such kernels and such merging treat the entries of a tile independently.
pub proof fn lemma_merge_step_pointwise<
    T: Copy,
    C: Copy,
    G: Merge<T, C>,
    F: for <'a>Fn(KernelCall<'a, C>) -> Vec<C>,
    const NR: usize,
    const MR_DIV_N: usize,
>(
    step: MergeStep<'_, C, G, F, NR, MR_DIV_N>,
    entry: spec_fn(C, Seq<C>, Seq<C>) -> C,
    made: spec_fn(bool, T, C) -> T,
)
    requires
        updates_pointwise(
            *step.dispatcher,
            step.lanes as int,
            step.mr as int,
            step.zero,
            entry,
        ),
        merges_by(*step.merge, made),
    ensures
        crate::laws::steps_pointwise(
            step,
            |first: bool, old: T, row: Seq<C>, col: Seq<C>|
                made(first, old, entry(step.beta, row, col)),
        ),
{
    let f = |first: bool, old: T, row: Seq<C>, col: Seq<C>|
        made(first, old, entry(step.beta, row, col));
    assert forall|call: TileCall<T, C>, out: Seq<T>| #[trigger]
        step.yields(call, out) && step.accepts(call) implies crate::laws::tile_pointwise(
        call,
        out,
        f,
    ) by {
        let lanes = step.lanes as int;
        let a = crate::share::ceil_quotient(call.m as int, lanes) - 1;
        let b = call.n - 1;
        crate::share::lemma_ceil_quotient(call.m as int, lanes);
        assert(a < MR_DIV_N) by (nonlinear_arith)
            requires
                lanes * a < call.m,
                call.m <= MR_DIV_N * lanes,
                0 < lanes,
        ;
        let update = choose|update: Seq<C>|
            {
                &&& #[trigger] step.updates_by(call, update)
                &&& out.len() == update.len()
                &&& forall|q: int|
                    0 <= q < out.len() ==> step.merge.merges(
                        call.first,
                        call.dst@[q],
                        update[q],
                        #[trigger] out[q],
                    )
            };
        let (blank, res) = choose|blank: Vec<C>, res: Vec<C>|
            {
                &&& #[trigger] call_ensures(
                    step.dispatcher@[crate::share::ceil_quotient(
                        call.m as int,
                        step.lanes as int,
                    ) - 1]@[call.n - 1],
                    (step.kernel_call(call, blank),),
                    res,
                )
                &&& blank@ == Seq::new((call.m * call.n) as nat, |i: int| step.zero)
                &&& res@ == update
            };
        let args = step.kernel_call(call, blank);
        assert(call_ensures(step.dispatcher@[a]@[b], (args,), res));
        assert(0 <= call.m * call.n) by (nonlinear_arith);
        assert(args.wf(lanes, step.mr as int, NR as int));
        assert(crate::kernel::serves(lanes, a, b, args));
        assert(update_pointwise(args, update, entry));
        assert(update.len() == call.m * call.n);
        assert forall|r: int, c: int| 0 <= r < call.m && 0 <= c < call.n implies out[
            #[trigger] crate::block::cell(call.m as int, r, c)
        ] == f(
            call.first,
            call.dst@[crate::block::cell(call.m as int, r, c)],
            crate::laws::tile_row(call, r),
            crate::laws::tile_col(call, c),
        ) by {
            let q = crate::block::cell(args.m as int, r, c);
            crate::block::lemma_cell(call.m as int, call.n as int, r, c);
            assert(step.merge.merges(call.first, call.dst@[q], update[q], out[q]));
            assert(crate::laws::tile_row(call, r) =~= Seq::new(
                args.k as nat,
                |d: int| args.lhs@[args.lhs_layout.index(r, d)],
            ));
            assert(crate::laws::tile_col(call, c) =~= Seq::new(
                args.k as nat,
                |d: int| args.rhs@[args.rhs_layout.index(d, c)],
            ));
        }
    }
}

} // verus!
