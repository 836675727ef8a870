//! The formula that the products of half precision numbers compute, for exact arithmetic.

use crate::convert::Convert;
use crate::convert::Keep;
use crate::convert::Through;
use crate::half_precision::HalfMath;
use crate::half_precision::Mixed;
use crate::half_precision::Pure;
use crate::half_precision::SingleMath;
use crate::kernel::AlphaStatus;
use crate::kernel::KernelCall;
use crate::kernel::TileCall;
use crate::kernel::TileStep;
use crate::laws::Course;
use crate::laws::Sum;
use crate::merge::Merge;
use crate::merge::MergeStep;
use crate::scalar::Half;
use crate::scalar::Number;
use crate::scalar::Single;
use crate::scheme::Scheme;
use crate::sweep::Problem;
use vstd::prelude::*;

verus! {

/// Addition and multiplication.
#[verifier::reject_recursive_types(R)]
pub struct Ring<R> {
    pub sum: Sum<R>,
    pub one: R,
    pub times: spec_fn(R, R) -> R,
}

impl<R> Ring<R> {
    /// Multiplying by one changes nothing, and multiplying by zero gives zero.
    pub open spec fn lawful(self) -> bool {
        &&& self.sum.lawful()
        &&& forall|x: R| #[trigger] (self.times)(self.one, x) == x
        &&& forall|x: R| #[trigger] (self.times)(self.sum.zero, x) == self.sum.zero
    }

    /// `beta * x * y`.
    pub open spec fn term(self, beta: R, x: R, y: R) -> R {
        (self.times)(beta, (self.times)(x, y))
    }

    /// `alpha * dst + beta * lhs * rhs` at one entry, where the entry of `dst` is `old`, and
    /// `lhs(d)` and `rhs(d)` are the entries of its row and its column.
    pub open spec fn formula(
        self,
        alpha: R,
        beta: R,
        old: R,
        lhs: spec_fn(int) -> R,
        rhs: spec_fn(int) -> R,
        k: int,
    ) -> R {
        (self.sum.plus)(
            (self.times)(alpha, old),
            self.sum.total(|d: int| self.term(beta, lhs(d), rhs(d)), 0, k),
        )
    }
}

/// What half precision numbers and the numbers that the kernels compute with stand for.
#[verifier::reject_recursive_types(C)]
#[verifier::reject_recursive_types(R)]
pub struct Meaning<C, R> {
    pub ring: Ring<R>,
    pub stored: spec_fn(Half) -> R,
    pub computed: spec_fn(C) -> R,
}

/// The kernel is asked for the update alone: the destination is not read, and nothing is conjugated.
pub open spec fn asks_for_update<C>(call: KernelCall<C>) -> bool {
    &&& call.alpha_status is Zero
    &&& !call.conj_dst
    &&& !call.conj_lhs
    &&& !call.conj_rhs
}

impl<C, R> Meaning<C, R> {
    /// Numbers that equal zero or one stand for zero and one.
    pub open spec fn lawful(self) -> bool {
        &&& self.ring.lawful()
        &&& forall|x: Half|
            x.equals(Half::zero_value()) ==> #[trigger] (self.stored)(x) == self.ring.sum.zero
        &&& forall|x: Half|
            x.equals(Half::one_value()) ==> #[trigger] (self.stored)(x) == self.ring.one
    }

    /// The update that a kernel gives is exact.
    pub open spec fn update_exact(self, call: KernelCall<C>, out: Seq<C>) -> bool {
        forall|r: int, c: int|
            0 <= r < call.m && 0 <= c < call.n ==> (self.computed)(
                out[#[trigger] crate::block::cell(call.m as int, r, c)],
            ) == self.ring.sum.total(
                |d: int|
                    self.ring.term(
                        (self.computed)(call.beta),
                        (self.computed)(call.lhs@[call.lhs_layout.index(r, d)]),
                        (self.computed)(call.rhs@[call.rhs_layout.index(d, c)]),
                    ),
                0,
                call.k as int,
            )
    }

    /// How exact arithmetic goes on from the destination, block by block along the depth.
    pub open spec fn course(self, alpha: Half, beta: Half) -> Course<Half, C, R> {
        Course {
            sum: self.ring.sum,
            value: self.stored,
            start: |x: Half| (self.ring.times)((self.stored)(alpha), (self.stored)(x)),
            term: |x: C, y: C|
                self.ring.term((self.stored)(beta), (self.computed)(x), (self.computed)(y)),
            pair: |x: Half, y: Half|
                self.ring.term((self.stored)(beta), (self.stored)(x), (self.stored)(y)),
        }
    }

    /// The updates that the kernels give are exact, in the calls that belong to the product.
    pub open spec fn kernels_exact<
        V: Convert<Half, C>,
        G: Merge<Half, C>,
        F: for <'a>Fn(KernelCall<'a, C>) -> Vec<C>,
        const NR: usize,
        const MR_DIV_N: usize,
    >(
        self,
        p: Problem<Half>,
        alpha: Half,
        beta: Half,
        conv: V,
        step: MergeStep<'_, C, G, F, NR, MR_DIV_N>,
        scheme: Scheme<C>,
        pre: Seq<Half>,
    ) -> bool {
        forall|
            state: Seq<Half>,
            t: int,
            r: int,
            c: int,
            call: TileCall<Half, C>,
            blank: Vec<C>,
            a: int,
            b: int,
            out: Vec<C>,
        |
            #[trigger] self.course(alpha, beta).step_due(
                p,
                conv,
                scheme,
                pre,
                state,
                t,
                r,
                c,
                call,
            ) && crate::merge::merge_takes(step, call) && blank@ == Seq::new(
                (call.m * call.n) as nat,
                |i: int| step.zero,
            ) && a * step.lanes < call.m <= (a + 1) * step.lanes && b + 1 == call.n
                && asks_for_update(step.kernel_call(call, blank)) && #[trigger] call_ensures(
                step.dispatcher@[a]@[b],
                (step.kernel_call(call, blank),),
                out,
            ) ==> self.update_exact(step.kernel_call(call, blank), out@)
    }

    /// Scaling the entries of the destination is exact, where they have to be multiplied.
    pub open spec fn scaling_exact<H: Fn(Half, Half) -> Half>(
        self,
        times: H,
        p: Problem<Half>,
        alpha: Half,
        pre: Seq<Half>,
    ) -> bool {
        crate::half_precision::half_status_of(alpha) is Other ==> forall|i: int, j: int, z: Half|
            0 <= i < p.m && 0 <= j < p.n && #[trigger] call_ensures(
                times,
                (alpha, pre[p.dst_layout.index(i, j)]),
                z,
            ) ==> (self.stored)(z) == (self.ring.times)(
                (self.stored)(alpha),
                (self.stored)(pre[p.dst_layout.index(i, j)]),
            )
    }

    /// The entry that the formula gives for row `i` and column `j`.
    pub open spec fn entry_formula(
        self,
        p: Problem<Half>,
        alpha: Half,
        beta: Half,
        pre: Seq<Half>,
        i: int,
        j: int,
    ) -> R {
        self.ring.formula(
            (self.stored)(alpha),
            (self.stored)(beta),
            (self.stored)(pre[p.dst_layout.index(i, j)]),
            |d: int| (self.stored)(p.lhs@[p.lhs_layout.index(i, d)]),
            |d: int| (self.stored)(p.rhs@[p.rhs_layout.index(d, j)]),
            p.k as int,
        )
    }
}

impl<C, R> Meaning<C, R> {
    /// What half precision numbers stand for, where the kernels compute with them.
    pub open spec fn in_half(self) -> Meaning<Half, R> {
        Meaning { ring: self.ring, stored: self.stored, computed: self.stored }
    }
}

/// Merging is exact in the steps that belong to the product: the first update is added to the scaled
/// entry, every other one to the entry.
spec fn merges_exactly<
    C,
    R,
    V: Convert<Half, C>,
    G: Merge<Half, C>,
    F: for <'a>Fn(KernelCall<'a, C>) -> Vec<C>,
    const NR: usize,
    const MR_DIV_N: usize,
>(
    m: Meaning<C, R>,
    p: Problem<Half>,
    alpha: Half,
    beta: Half,
    conv: V,
    step: MergeStep<'_, C, G, F, NR, MR_DIV_N>,
    scheme: Scheme<C>,
    pre: Seq<Half>,
) -> bool {
    forall|
        state: Seq<Half>,
        t: int,
        r: int,
        c: int,
        call: TileCall<Half, C>,
        update: Seq<C>,
        q: int,
        new: Half,
    |
        #[trigger] m.course(alpha, beta).step_due(p, conv, scheme, pre, state, t, r, c, call)
            && crate::merge::merge_takes(step, call) && #[trigger] step.updates_by(call, update)
                && 0 <= q < call.dst@.len()
            && #[trigger] step.merge.merges(call.first, call.dst@[q], update[q], new) ==> (
        m.stored)(new) == (m.ring.sum.plus)(
            if call.first {
                (m.ring.times)((m.stored)(alpha), (m.stored)(call.dst@[q]))
            } else {
                (m.stored)(call.dst@[q])
            },
            (m.computed)(update[q]),
        )
}

/// Steps with exact kernels and exact merging are exact.
proof fn lemma_merge_step_exact<
    C: Copy,
    R,
    V: Convert<Half, C>,
    G: Merge<Half, C>,
    F: for <'a>Fn(KernelCall<'a, C>) -> Vec<C>,
    const NR: usize,
    const MR_DIV_N: usize,
>(
    m: Meaning<C, R>,
    p: Problem<Half>,
    alpha: Half,
    beta: Half,
    conv: V,
    step: MergeStep<'_, C, G, F, NR, MR_DIV_N>,
    scheme: Scheme<C>,
    pre: Seq<Half>,
)
    requires
        m.ring.lawful(),
        (m.computed)(step.beta) == (m.stored)(beta),
        m.kernels_exact(p, alpha, beta, conv, step, scheme, pre),
        merges_exactly(m, p, alpha, beta, conv, step, scheme, pre),
    ensures
        m.course(alpha, beta).steps_exactly(p, conv, step, scheme, pre),
{
    let course = m.course(alpha, beta);
    let start = course.start;
    let term = course.term;
    assert forall|
        state: Seq<Half>,
        t: int,
        r0: int,
        c0: int,
        call: TileCall<Half, C>,
        out: Seq<Half>,
    |
        #[trigger] course.step_due(p, conv, scheme, pre, state, t, r0, c0, call) && step.accepts(
            call,
        ) && #[trigger] step.yields(call, out) implies course.tile_exact(call, out) by {
        let lanes = step.lanes as int;
        let a = crate::share::ceil_quotient(call.m as int, lanes) - 1;
        let b = call.n - 1;
        crate::share::lemma_ceil_quotient(call.m as int, lanes);
        assert(a < MR_DIV_N) by (nonlinear_arith)
            requires
                lanes * a < call.m,
                call.m <= MR_DIV_N * lanes,
                0 < lanes,
        ;
        let update = choose|update: Seq<C>|
            {
                &&& #[trigger] step.updates_by(call, update)
                &&& out.len() == update.len()
                &&& forall|q: int|
                    0 <= q < out.len() ==> step.merge.merges(
                        call.first,
                        call.dst@[q],
                        update[q],
                        #[trigger] out[q],
                    )
            };
        let (blank, res) = choose|blank: Vec<C>, res: Vec<C>|
            {
                &&& #[trigger] call_ensures(
                    step.dispatcher@[crate::share::ceil_quotient(
                        call.m as int,
                        step.lanes as int,
                    ) - 1]@[call.n - 1],
                    (step.kernel_call(call, blank),),
                    res,
                )
                &&& blank@ == Seq::new((call.m * call.n) as nat, |i: int| step.zero)
                &&& res@ == update
            };
        let args = step.kernel_call(call, blank);
        assert(call_ensures(step.dispatcher@[a]@[b], (args,), res));
        assert(0 <= call.m * call.n) by (nonlinear_arith);
        assert(args.wf(lanes, step.mr as int, NR as int));
        assert(a * lanes < call.m <= (a + 1) * lanes) by (nonlinear_arith)
            requires
                lanes * a < call.m,
                call.m <= lanes * (a + 1),
        ;
        assert(m.update_exact(args, update));
        assert(update.len() == call.m * call.n);
        assert forall|r: int, c: int| 0 <= r < call.m && 0 <= c < call.n implies {
            let q = #[trigger] crate::block::cell(call.m as int, r, c);
            (m.stored)(out[q]) == (m.ring.sum.plus)(
                if call.first {
                    start(call.dst@[q])
                } else {
                    (m.stored)(call.dst@[q])
                },
                m.ring.sum.total(
                    |d: int|
                        term(
                            call.lhs@[call.lhs_layout.index(r, d)],
                            call.rhs@[call.rhs_layout.index(d, c)],
                        ),
                    0,
                    call.k as int,
                ),
            )
        } by {
            let q = crate::block::cell(call.m as int, r, c);
            crate::block::lemma_cell(call.m as int, call.n as int, r, c);
            assert(step.merge.merges(call.first, call.dst@[q], update[q], out[q]));
            let g = |d: int|
                m.ring.term(
                    (m.computed)(args.beta),
                    (m.computed)(args.lhs@[args.lhs_layout.index(r, d)]),
                    (m.computed)(args.rhs@[args.rhs_layout.index(d, c)]),
                );
            let h = |d: int|
                term(
                    call.lhs@[call.lhs_layout.index(r, d)],
                    call.rhs@[call.rhs_layout.index(d, c)],
                );
            m.ring.sum.lemma_shift(g, h, 0, call.k as int, 0);
            assert((m.computed)(update[crate::block::cell(args.m as int, r, c)])
                == m.ring.sum.total(g, 0, call.k as int));
        }
    }
}

/// Scaling is exact.
proof fn lemma_scaled_exactly<C, R, H: Fn(Half, Half) -> Half>(
    m: Meaning<C, R>,
    times: H,
    p: Problem<Half>,
    alpha: Half,
    beta: Half,
    pre: Seq<Half>,
    post: Seq<Half>,
    i: int,
    j: int,
)
    requires
        m.lawful(),
        m.scaling_exact(times, p, alpha, pre),
        p.k == 0,
        0 <= i < p.m,
        0 <= j < p.n,
        crate::half_precision::half_scaled_all(times, p, alpha, pre, post),
    ensures
        (m.stored)(post[p.dst_layout.index(i, j)]) == m.entry_formula(p, alpha, beta, pre, i, j),
{
    let q = p.dst_layout.index(i, j);
    let x = (m.ring.times)((m.stored)(alpha), (m.stored)(pre[q]));
    assert((m.ring.sum.plus)(x, m.ring.sum.zero) == x);
    lemma_half_zero_and_one();
    match crate::half_precision::half_status_of(alpha) {
        AlphaStatus::Zero => {
            assert((m.stored)(alpha) == m.ring.sum.zero);
            assert((m.stored)(post[q]) == m.ring.sum.zero);
        },
        AlphaStatus::One => {
            assert((m.stored)(alpha) == m.ring.one);
        },
        AlphaStatus::Other => {
            assert(call_ensures(times, (alpha, pre[q]), post[q]));
        },
    }
}

/// Zero and one are told apart in half precision.
pub proof fn lemma_half_zero_and_one()
    ensures
        Half::zero_value().equals(Half::zero_value()),
        Half::one_value().equals(Half::one_value()),
        !Half::one_value().equals(Half::zero_value()),
        crate::half_precision::half_status_of(Half::one_value()) is One,
{
    assert(0u16 & 0x7fff == 0) by (bit_vector);
    assert(0x3c00u16 & 0x7fff == 0x3c00) by (bit_vector);
    assert((0x3c00u16 | 0u16) & 0x7fff == 0x3c00) by (bit_vector);
    assert(0u16 & 0x7fff <= 0x7c00) by (bit_vector);
    assert(0x3c00u16 & 0x7fff <= 0x7c00) by (bit_vector);
}

/// Adding `update` to `old` times `alpha` is exact in half precision: neither the product nor the sum
/// is rounded. What need not be computed does not matter.
pub open spec fn half_merge_exact<
    R,
    A: Fn(Half, Half) -> Half,
    M: Fn(Half, Half) -> Half,
>(m: Meaning<Half, R>, math: HalfMath<A, M>, alpha: Half, old: Half, update: Half) -> bool {
    let scaled = (m.ring.times)((m.stored)(alpha), (m.stored)(old));
    let status = crate::half_precision::half_status_of(alpha);
    &&& status is Other ==> forall|z: Half| #[trigger]
        call_ensures(math.times, (alpha, old), z) ==> (m.stored)(z) == scaled
    &&& !(status is Zero) ==> forall|x: Half, z: Half|
        (m.stored)(x) == scaled && #[trigger] call_ensures(math.plus, (x, update), z) ==> (
        m.stored)(z) == (m.ring.sum.plus)(scaled, (m.stored)(update))
}

/// The steps of a product that is computed in half precision.
pub open spec fn pure_step<
    'b,
    A: Fn(Half, Half) -> Half,
    M: Fn(Half, Half) -> Half,
    F: for <'a>Fn(KernelCall<'a, Half>) -> Vec<Half>,
    const NR: usize,
    const MR_DIV_N: usize,
>(
    alpha: Half,
    beta: Half,
    math: &'b HalfMath<A, M>,
    dispatcher: &'b [[F; NR]; MR_DIV_N],
    scheme: Scheme<Half>,
) -> MergeStep<'b, Half, Pure<'b, A, M>, F, NR, MR_DIV_N> {
    MergeStep {
        dispatcher,
        lanes: scheme.lanes,
        mr: scheme.mr,
        merge: &Pure { math, alpha },
        zero: Half::zero_value(),
        beta,
    }
}

/// What is computed for the product in half precision is exact.
pub open spec fn pure_computes_exactly<
    R,
    A: Fn(Half, Half) -> Half,
    M: Fn(Half, Half) -> Half,
    F: for <'a>Fn(KernelCall<'a, Half>) -> Vec<Half>,
    const NR: usize,
    const MR_DIV_N: usize,
>(
    m: Meaning<Half, R>,
    p: Problem<Half>,
    alpha: Half,
    beta: Half,
    math: HalfMath<A, M>,
    dispatcher: [[F; NR]; MR_DIV_N],
    scheme: Scheme<Half>,
    pre: Seq<Half>,
) -> bool {
    let step = pure_step(alpha, beta, &math, &dispatcher, scheme);
    if p.k == 0 {
        m.scaling_exact(math.times, p, alpha, pre)
    } else {
        &&& m.kernels_exact(p, alpha, beta, Keep, step, scheme, pre)
        &&& forall|
            state: Seq<Half>,
            t: int,
            r: int,
            c: int,
            call: TileCall<Half, Half>,
            update: Seq<Half>,
            q: int,
        |
            #[trigger] m.course(alpha, beta).step_due(p, Keep, scheme, pre, state, t, r, c, call)
                && crate::merge::merge_takes(step, call) && #[trigger] step.updates_by(call, update)
                && 0 <= q < call.dst@.len()
                ==> half_merge_exact(
                m,
                math,
                if call.first {
                    alpha
                } else {
                    Half::one_value()
                },
                #[trigger] call.dst@[q],
                update[q],
            )
    }
}

/// Where what is computed for the product is exact, every entry of a destination in half precision is
/// `alpha * dst + beta * lhs * rhs`, where the product is computed in half precision. Exactness is
/// asked only of the products and sums that occur.
pub proof fn law_pure_formula<
    R,
    A: Fn(Half, Half) -> Half,
    M: Fn(Half, Half) -> Half,
    F: for <'a>Fn(KernelCall<'a, Half>) -> Vec<Half>,
    const NR: usize,
    const MR_DIV_N: usize,
>(
    m: Meaning<Half, R>,
    p: Problem<Half>,
    alpha: Half,
    beta: Half,
    math: HalfMath<A, M>,
    dispatcher: [[F; NR]; MR_DIV_N],
    scheme: Scheme<Half>,
    pre: Seq<Half>,
    post: Seq<Half>,
    i: int,
    j: int,
)
    requires
        m.lawful(),
        m.computed == m.stored,
        pure_computes_exactly(m, p, alpha, beta, math, dispatcher, scheme, pre),
        p.k > 0 ==> 0 < scheme.blocking.kc,
        0 <= i < p.m,
        0 <= j < p.n,
        crate::half_precision::pure_multiplied(
            p,
            alpha,
            beta,
            math,
            dispatcher,
            scheme,
            pre,
            post,
        ),
    ensures
        (m.stored)(post[p.dst_layout.index(i, j)]) == m.entry_formula(p, alpha, beta, pre, i, j),
{
    if p.k == 0 {
        lemma_scaled_exactly(m, math.times, p, alpha, beta, pre, post, i, j);
    } else {
        let step = pure_step(alpha, beta, &math, &dispatcher, scheme);
        let merge = *step.merge;
        let course = m.course(alpha, beta);
        lemma_half_zero_and_one();
        assert forall|
            state: Seq<Half>,
            t: int,
            r: int,
            c: int,
            call: TileCall<Half, Half>,
            update: Seq<Half>,
            q: int,
            new: Half,
        |
            #[trigger] course.step_due(p, Keep, scheme, pre, state, t, r, c, call)
                && crate::merge::merge_takes(step, call) && #[trigger] step.updates_by(call, update)
                && 0 <= q < call.dst@.len()
                && #[trigger] step.merge.merges(
                call.first,
                call.dst@[q],
                update[q],
                new,
            ) implies (m.stored)(new) == (m.ring.sum.plus)(
            if call.first {
                (m.ring.times)((m.stored)(alpha), (m.stored)(call.dst@[q]))
            } else {
                (m.stored)(call.dst@[q])
            },
            (m.computed)(update[q]),
        ) by {
            let old = call.dst@[q];
            let a = if call.first {
                alpha
            } else {
                Half::one_value()
            };
            assert(half_merge_exact(m, math, a, old, update[q]));
            assert(merge.scales_and_adds(a, old, update[q], new));
            assert((m.stored)(Half::one_value()) == m.ring.one);
            match crate::half_precision::half_status_of(a) {
                AlphaStatus::Zero => {
                    assert((m.stored)(alpha) == m.ring.sum.zero);
                    assert((m.ring.times)((m.stored)(alpha), (m.stored)(old)) == m.ring.sum.zero);
                },
                AlphaStatus::One => {
                    assert((m.stored)(a) == m.ring.one);
                },
                AlphaStatus::Other => {
                    let product = choose|product: Half|
                        {
                            &&& #[trigger] call_ensures(math.times, (a, old), product)
                            &&& call_ensures(math.plus, (product, update[q]), new)
                        };
                    assert(call_ensures(math.times, (a, old), product));
                },
            }
        }
        lemma_merge_step_exact(m, p, alpha, beta, Keep, step, scheme, pre);
        assert(course.converts_exactly(Keep));
        crate::laws::law_accumulated_exactly(course, p, Keep, step, scheme, pre, post, i, j);
        lemma_course_formula(m, p, alpha, beta, pre, i, j);
    }
}

/// What the course reaches in the end is what the formula gives.
proof fn lemma_course_formula<C, R>(
    m: Meaning<C, R>,
    p: Problem<Half>,
    alpha: Half,
    beta: Half,
    pre: Seq<Half>,
    i: int,
    j: int,
)
    ensures
        (m.ring.sum.plus)(
            (m.course(alpha, beta).start)(pre[p.dst_layout.index(i, j)]),
            m.ring.sum.total(
                crate::laws::entry_terms(p, m.course(alpha, beta).pair, i, j),
                0,
                p.k as int,
            ),
        ) == m.entry_formula(p, alpha, beta, pre, i, j),
{
    let g = crate::laws::entry_terms(p, m.course(alpha, beta).pair, i, j);
    let h = |d: int|
        m.ring.term(
            (m.stored)(beta),
            (|d: int| (m.stored)(p.lhs@[p.lhs_layout.index(i, d)]))(d),
            (|d: int| (m.stored)(p.rhs@[p.rhs_layout.index(d, j)]))(d),
        );
    m.ring.sum.lemma_shift(g, h, 0, p.k as int, 0);
}

/// Single precision numbers that equal zero or one stand for zero and one, and widening keeps what a
/// number stands for.
pub open spec fn widens_exactly<
    R,
    W: Fn(Half) -> Single,
    U: for <'a>Fn(&'a [Half]) -> Vec<Single>,
>(m: Meaning<Single, R>, widen: Through<W, U>) -> bool {
    &&& forall|x: Single|
        x.zero_valued() ==> #[trigger] (m.computed)(x) == m.ring.sum.zero
    &&& forall|x: Single| x.one_valued() ==> #[trigger] (m.computed)(x) == m.ring.one
    &&& forall|x: Half, y: Single| #[trigger]
        crate::convert::through_converts(widen, x, y) ==> (m.computed)(y) == (m.stored)(x)
}

/// Adding `update` to `old` times `alpha` is exact in single precision, and the sum is a half
/// precision number: the product, the sum and its narrowing are not rounded. What need not be
/// computed does not matter.
pub open spec fn single_merge_exact<
    R,
    P: Fn(Single) -> Half,
    A: Fn(Single, Single) -> Single,
    M: Fn(Single, Single) -> Single,
>(
    m: Meaning<Single, R>,
    math: SingleMath<P, A, M>,
    alpha: Single,
    old: Half,
    update: Single,
) -> bool {
    let scaled = (m.ring.times)((m.computed)(alpha), (m.stored)(old));
    let status = crate::gemm::status_of(alpha);
    let merged = if status is Zero {
        (m.computed)(update)
    } else {
        (m.ring.sum.plus)(scaled, (m.computed)(update))
    };
    &&& status is Other ==> forall|x: Single, z: Single|
        (m.computed)(x) == (m.stored)(old) && #[trigger] call_ensures(math.times, (alpha, x), z)
            ==> (m.computed)(z) == scaled
    &&& !(status is Zero) ==> forall|x: Single, z: Single|
        (m.computed)(x) == scaled && #[trigger] call_ensures(math.plus, (x, update), z) ==> (
        m.computed)(z) == merged
    &&& forall|x: Single, z: Half|
        (m.computed)(x) == merged && #[trigger] call_ensures(math.narrow, (x,), z) ==> (m.stored)(
            z,
        ) == merged
}

/// The steps of a product that is computed in single precision, with factors in single precision.
pub open spec fn mixed_step<
    'b,
    W: Fn(Half) -> Single,
    U: for <'a>Fn(&'a [Half]) -> Vec<Single>,
    P: Fn(Single) -> Half,
    A: Fn(Single, Single) -> Single,
    M: Fn(Single, Single) -> Single,
    F: for <'a>Fn(KernelCall<'a, Single>) -> Vec<Single>,
    const NR: usize,
    const MR_DIV_N: usize,
>(
    alpha: Single,
    beta: Single,
    widen: &'b Through<W, U>,
    math: &'b SingleMath<P, A, M>,
    dispatcher: &'b [[F; NR]; MR_DIV_N],
    scheme: Scheme<Single>,
) -> MergeStep<'b, Single, Mixed<'b, W, U, P, A, M>, F, NR, MR_DIV_N> {
    MergeStep {
        dispatcher,
        lanes: scheme.lanes,
        mr: scheme.mr,
        merge: &Mixed { widen, math, alpha },
        zero: Single::zero_value(),
        beta,
    }
}

/// What is computed for the product in single precision is exact.
pub open spec fn mixed_computes_exactly<
    R,
    W: Fn(Half) -> Single,
    U: for <'a>Fn(&'a [Half]) -> Vec<Single>,
    P: Fn(Single) -> Half,
    A: Fn(Single, Single) -> Single,
    M: Fn(Single, Single) -> Single,
    H: Fn(Half, Half) -> Half,
    F: for <'a>Fn(KernelCall<'a, Single>) -> Vec<Single>,
    const NR: usize,
    const MR_DIV_N: usize,
>(
    m: Meaning<Single, R>,
    p: Problem<Half>,
    alpha: Half,
    beta: Half,
    widen: Through<W, U>,
    math: SingleMath<P, A, M>,
    half_times: H,
    dispatcher: [[F; NR]; MR_DIV_N],
    scheme: Scheme<Single>,
    pre: Seq<Half>,
) -> bool {
    if p.k == 0 {
        m.scaling_exact(half_times, p, alpha, pre)
    } else {
        forall|wide_alpha: Single, wide_beta: Single| #[trigger]
            call_ensures(widen.one, (alpha,), wide_alpha) && #[trigger] call_ensures(
                widen.one,
                (beta,),
                wide_beta,
            ) ==> {
                let step = mixed_step(wide_alpha, wide_beta, &widen, &math, &dispatcher, scheme);
                &&& m.kernels_exact(p, alpha, beta, widen, step, scheme, pre)
                &&& mixed_merges_exact(m, p, alpha, beta, step, scheme, pre)
            }
    }
}

/// What the steps of a product in single precision merge, they merge exactly.
pub open spec fn mixed_merges_exact<
    R,
    W: Fn(Half) -> Single,
    U: for <'a>Fn(&'a [Half]) -> Vec<Single>,
    P: Fn(Single) -> Half,
    A: Fn(Single, Single) -> Single,
    M: Fn(Single, Single) -> Single,
    F: for <'a>Fn(KernelCall<'a, Single>) -> Vec<Single>,
    const NR: usize,
    const MR_DIV_N: usize,
>(
    m: Meaning<Single, R>,
    p: Problem<Half>,
    alpha: Half,
    beta: Half,
    step: MergeStep<'_, Single, Mixed<'_, W, U, P, A, M>, F, NR, MR_DIV_N>,
    scheme: Scheme<Single>,
    pre: Seq<Half>,
) -> bool {
    forall|
        state: Seq<Half>,
        t: int,
        r: int,
        c: int,
        call: TileCall<Half, Single>,
        update: Seq<Single>,
        q: int,
    |
        #[trigger] m.course(alpha, beta).step_due(
            p,
            *step.merge.widen,
            scheme,
            pre,
            state,
            t,
            r,
            c,
            call,
        ) && crate::merge::merge_takes(step, call) && #[trigger] step.updates_by(call, update)
                && 0 <= q < call.dst@.len()
            ==> single_merge_exact(
            m,
            *step.merge.math,
            if call.first {
                step.merge.alpha
            } else {
                Single::one_value()
            },
            #[trigger] call.dst@[q],
            update[q],
        )
}

/// Merging with exact arithmetic is exact.
proof fn lemma_mixed_merge_exact<
    R,
    W: Fn(Half) -> Single,
    U: for <'a>Fn(&'a [Half]) -> Vec<Single>,
    P: Fn(Single) -> Half,
    A: Fn(Single, Single) -> Single,
    M: Fn(Single, Single) -> Single,
    F: for <'a>Fn(KernelCall<'a, Single>) -> Vec<Single>,
    const NR: usize,
    const MR_DIV_N: usize,
>(
    m: Meaning<Single, R>,
    p: Problem<Half>,
    alpha: Half,
    beta: Half,
    step: MergeStep<'_, Single, Mixed<'_, W, U, P, A, M>, F, NR, MR_DIV_N>,
    scheme: Scheme<Single>,
    pre: Seq<Half>,
)
    requires
        m.lawful(),
        widens_exactly(m, *step.merge.widen),
        (m.computed)(step.merge.alpha) == (m.stored)(alpha),
        mixed_merges_exact(m, p, alpha, beta, step, scheme, pre),
    ensures
        merges_exactly(m, p, alpha, beta, *step.merge.widen, step, scheme, pre),
{
    let merge = *step.merge;
    let math = *merge.math;
    let widen = *merge.widen;
    let course = m.course(alpha, beta);
    crate::scalar::law_zero_and_one();
    assert forall|
        state: Seq<Half>,
        t: int,
        r: int,
        c: int,
        call: TileCall<Half, Single>,
        update: Seq<Single>,
        q: int,
        new: Half,
    |
        #[trigger] course.step_due(p, widen, scheme, pre, state, t, r, c, call)
            && crate::merge::merge_takes(step, call) && #[trigger] step.updates_by(call, update)
                && 0 <= q < call.dst@.len()
            && #[trigger] step.merge.merges(
            call.first,
            call.dst@[q],
            update[q],
            new,
        ) implies (m.stored)(new) == (m.ring.sum.plus)(
        if call.first {
            (m.ring.times)((m.stored)(alpha), (m.stored)(call.dst@[q]))
        } else {
            (m.stored)(call.dst@[q])
        },
        (m.computed)(update[q]),
    ) by {
        let old = call.dst@[q];
        let a = if call.first {
            merge.alpha
        } else {
            Single::one_value()
        };
        assert(single_merge_exact(m, math, a, old, update[q]));
        assert(merge.scales_and_adds(a, old, update[q], new));
        assert((m.computed)(Single::one_value()) == m.ring.one);
        match crate::gemm::status_of(a) {
            AlphaStatus::Zero => {
                assert((m.computed)(a) == m.ring.sum.zero);
                assert((m.ring.times)((m.stored)(alpha), (m.stored)(old)) == m.ring.sum.zero);
            },
            AlphaStatus::One => {
                assert((m.computed)(a) == m.ring.one);
                let (wide, sum) = choose|wide: Single, sum: Single|
                    {
                        &&& #[trigger] call_ensures(widen.one, (old,), wide)
                        &&& #[trigger] call_ensures(math.plus, (wide, update[q]), sum)
                        &&& call_ensures(math.narrow, (sum,), new)
                    };
                assert(crate::convert::through_converts(widen, old, wide));
            },
            AlphaStatus::Other => {
                let (wide, product, sum) = choose|wide: Single, product: Single, sum: Single|
                    {
                        &&& #[trigger] call_ensures(widen.one, (old,), wide)
                        &&& #[trigger] call_ensures(math.times, (a, wide), product)
                        &&& #[trigger] call_ensures(math.plus, (product, update[q]), sum)
                        &&& call_ensures(math.narrow, (sum,), new)
                    };
                assert(crate::convert::through_converts(widen, old, wide));
            },
        }
    }
}

/// Where what is computed for the product is exact, every entry of a destination in half precision is
/// `alpha * dst + beta * lhs * rhs`, where the product is computed in single precision. Exactness is
/// asked only of the products and sums that occur; widening is exact for every number.
pub proof fn law_mixed_formula<
    R,
    W: Fn(Half) -> Single,
    U: for <'a>Fn(&'a [Half]) -> Vec<Single>,
    P: Fn(Single) -> Half,
    A: Fn(Single, Single) -> Single,
    M: Fn(Single, Single) -> Single,
    H: Fn(Half, Half) -> Half,
    F: for <'a>Fn(KernelCall<'a, Single>) -> Vec<Single>,
    const NR: usize,
    const MR_DIV_N: usize,
>(
    m: Meaning<Single, R>,
    p: Problem<Half>,
    alpha: Half,
    beta: Half,
    widen: Through<W, U>,
    math: SingleMath<P, A, M>,
    half_times: H,
    dispatcher: [[F; NR]; MR_DIV_N],
    scheme: Scheme<Single>,
    pre: Seq<Half>,
    post: Seq<Half>,
    i: int,
    j: int,
)
    requires
        m.lawful(),
        widens_exactly(m, widen),
        mixed_computes_exactly(
            m,
            p,
            alpha,
            beta,
            widen,
            math,
            half_times,
            dispatcher,
            scheme,
            pre,
        ),
        p.k > 0 ==> 0 < scheme.blocking.kc,
        0 <= i < p.m,
        0 <= j < p.n,
        crate::half_precision::mixed_multiplied(
            p,
            alpha,
            beta,
            widen,
            math,
            half_times,
            dispatcher,
            scheme,
            pre,
            post,
        ),
    ensures
        (m.stored)(post[p.dst_layout.index(i, j)]) == m.entry_formula(p, alpha, beta, pre, i, j),
{
    if p.k == 0 {
        lemma_scaled_exactly(m, half_times, p, alpha, beta, pre, post, i, j);
    } else {
        let (wide_alpha, wide_beta) = choose|wide_alpha: Single, wide_beta: Single|
            {
                &&& #[trigger] call_ensures(widen.one, (alpha,), wide_alpha)
                &&& #[trigger] call_ensures(widen.one, (beta,), wide_beta)
                &&& crate::blocked::accumulated(
                    p,
                    widen,
                    MergeStep {
                        dispatcher: &dispatcher,
                        lanes: scheme.lanes,
                        mr: scheme.mr,
                        merge: &Mixed { widen: &widen, math: &math, alpha: wide_alpha },
                        zero: Single::zero_value(),
                        beta: wide_beta,
                    },
                    scheme,
                    pre,
                    post,
                )
            };
        assert(crate::convert::through_converts(widen, alpha, wide_alpha));
        assert(crate::convert::through_converts(widen, beta, wide_beta));
        let step = mixed_step(wide_alpha, wide_beta, &widen, &math, &dispatcher, scheme);
        let course = m.course(alpha, beta);
        lemma_mixed_merge_exact(m, p, alpha, beta, step, scheme, pre);
        lemma_merge_step_exact(m, p, alpha, beta, widen, step, scheme, pre);
        assert(course.converts_exactly(widen));
        crate::laws::law_accumulated_exactly(course, p, widen, step, scheme, pre, post, i, j);
        lemma_course_formula(m, p, alpha, beta, pre, i, j);
    }
}

/// A product in half precision and one in single precision agree where what is computed for either is
/// exact: their entries stand for the same numbers, and beside them nothing differs.
pub proof fn law_half_products_agree<
    R,
    W: Fn(Half) -> Single,
    U: for <'a>Fn(&'a [Half]) -> Vec<Single>,
    P: Fn(Single) -> Half,
    A: Fn(Single, Single) -> Single,
    M: Fn(Single, Single) -> Single,
    B: Fn(Half, Half) -> Half,
    H: Fn(Half, Half) -> Half,
    T: Fn(Half, Half) -> Half,
    F: for <'a>Fn(KernelCall<'a, Single>) -> Vec<Single>,
    K: for <'a>Fn(KernelCall<'a, Half>) -> Vec<Half>,
    const NR: usize,
    const MR_DIV_N: usize,
    const HALF_NR: usize,
    const HALF_MR_DIV_N: usize,
>(
    m: Meaning<Single, R>,
    p: Problem<Half>,
    alpha: Half,
    beta: Half,
    widen: Through<W, U>,
    math: SingleMath<P, A, M>,
    half_times: T,
    half_math: HalfMath<B, H>,
    dispatcher: [[F; NR]; MR_DIV_N],
    half_dispatcher: [[K; HALF_NR]; HALF_MR_DIV_N],
    scheme: Scheme<Single>,
    half_scheme: Scheme<Half>,
    pre: Seq<Half>,
    mixed_post: Seq<Half>,
    pure_post: Seq<Half>,
)
    requires
        m.lawful(),
        widens_exactly(m, widen),
        mixed_computes_exactly(
            m,
            p,
            alpha,
            beta,
            widen,
            math,
            half_times,
            dispatcher,
            scheme,
            pre,
        ),
        pure_computes_exactly(
            m.in_half(),
            p,
            alpha,
            beta,
            half_math,
            half_dispatcher,
            half_scheme,
            pre,
        ),
        p.k > 0 ==> 0 < scheme.blocking.kc && 0 < half_scheme.blocking.kc,
        crate::half_precision::mixed_multiplied(
            p,
            alpha,
            beta,
            widen,
            math,
            half_times,
            dispatcher,
            scheme,
            pre,
            mixed_post,
        ),
        crate::half_precision::pure_multiplied(
            p,
            alpha,
            beta,
            half_math,
            half_dispatcher,
            half_scheme,
            pre,
            pure_post,
        ),
    ensures
        forall|i: int, j: int|
            0 <= i < p.m && 0 <= j < p.n ==> (m.stored)(
                mixed_post[#[trigger] p.dst_layout.index(i, j)],
            ) == (m.stored)(pure_post[p.dst_layout.index(i, j)]),
        p.dst_layout.same_beside(mixed_post, pure_post, p.m as int, 0, p.n as int),
{
    let h = m.in_half();
    assert forall|i: int, j: int| 0 <= i < p.m && 0 <= j < p.n implies (m.stored)(
        mixed_post[#[trigger] p.dst_layout.index(i, j)],
    ) == (m.stored)(pure_post[p.dst_layout.index(i, j)]) by {
        law_mixed_formula(
            m,
            p,
            alpha,
            beta,
            widen,
            math,
            half_times,
            dispatcher,
            scheme,
            pre,
            mixed_post,
            i,
            j,
        );
        law_pure_formula(
            h,
            p,
            alpha,
            beta,
            half_math,
            half_dispatcher,
            half_scheme,
            pre,
            pure_post,
            i,
            j,
        );
        assert(h.entry_formula(p, alpha, beta, pre, i, j) == m.entry_formula(
            p,
            alpha,
            beta,
            pre,
            i,
            j,
        ));
    }
}

} // verus!
