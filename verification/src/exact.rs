//! The formula that the products compute, for exact arithmetic.

use crate::convert::Keep;
use crate::gemm::Factors;
use crate::gemm::KernelStep;
use crate::gemm::ProductCall;
use crate::gemm::Route;
use crate::kernel::KernelCall;
use crate::kernel::TileCall;
use crate::kernel::TileStep;
use crate::laws::Course;
use crate::laws::Sum;
use crate::scalar::Number;
use crate::scheme::Scheme;
use crate::sweep::Problem;
use vstd::prelude::*;

verus! {

/// What numbers stand for, and the operations on that.
#[verifier::reject_recursive_types(T)]
#[verifier::reject_recursive_types(R)]
pub struct Algebra<T, R> {
    pub sum: Sum<R>,
    /// What a number stands for.
    pub value: spec_fn(T) -> R,
    /// `scale(alpha, conj, x)` is `alpha` times `x` or its conjugate.
    pub scale: spec_fn(T, bool, T) -> R,
    /// `term(beta, conj_lhs, conj_rhs, x, y)` is `beta` times `x` or its conjugate times `y` or its
    /// conjugate.
    pub term: spec_fn(T, bool, bool, T, T) -> R,
}

impl<T: Number, R> Algebra<T, R> {
    /// What holds of addition and multiplication: scaling by one changes nothing, scaling by zero
    /// gives zero, and without conjugation the factors of a product can be exchanged.
    pub open spec fn lawful(self) -> bool {
        &&& self.sum.lawful()
        &&& forall|x: T| #[trigger] (self.scale)(T::one_value(), false, x) == (self.value)(x)
        &&& forall|a: T, x: T|
            a.one_valued() ==> #[trigger] (self.scale)(a, false, x) == (self.value)(x)
        &&& forall|a: T, conj: bool, x: T|
            a.zero_valued() ==> #[trigger] (self.scale)(a, conj, x) == (self.value)(
                T::zero_value(),
            )
        &&& forall|b: T, x: T, y: T| #[trigger]
            (self.term)(b, false, false, x, y) == (self.term)(b, false, false, y, x)
    }

    /// `alpha * conj?(dst) + beta * conj?(lhs) * conj?(rhs)` at one entry, where the entry of `dst`
    /// is `old`, and `lhs(d)` and `rhs(d)` are the entries of its row and its column.
    pub open spec fn formula(
        self,
        f: Factors<T>,
        old: T,
        lhs: spec_fn(int) -> T,
        rhs: spec_fn(int) -> T,
        k: int,
    ) -> R {
        (self.sum.plus)(
            (self.scale)(f.alpha, f.conj_dst, old),
            self.sum.total(
                |d: int| (self.term)(f.beta, f.conj_lhs, f.conj_rhs, lhs(d), rhs(d)),
                0,
                k,
            ),
        )
    }

    /// How exact arithmetic goes on from the destination, block by block along the depth.
    pub open spec fn course(self, f: Factors<T>) -> Course<T, T, R> {
        Course {
            sum: self.sum,
            value: self.value,
            start: |x: T| (self.scale)(f.alpha, f.conj_dst, x),
            term: |x: T, y: T| (self.term)(f.beta, f.conj_lhs, f.conj_rhs, x, y),
            pair: |x: T, y: T| (self.term)(f.beta, f.conj_lhs, f.conj_rhs, x, y),
        }
    }

    /// Scaling the entries of the destination is exact, where they have to be multiplied.
    pub open spec fn scaling_exact<M: Fn(T, T) -> T>(
        self,
        times: M,
        p: Problem<T>,
        f: Factors<T>,
        pre: Seq<T>,
    ) -> bool {
        ||| f.alpha.zero_valued()
        ||| f.alpha.one_valued() && !f.conj_dst
        ||| forall|i: int, j: int, y: T|
            0 <= i < p.m && 0 <= j < p.n && #[trigger] call_ensures(
                times,
                (
                    f.alpha,
                    conjugated(f.conj_dst, pre[p.dst_layout.index(i, j)]),
                ),
                y,
            ) ==> (self.value)(y) == (self.scale)(
                f.alpha,
                f.conj_dst,
                pre[p.dst_layout.index(i, j)],
            )
    }

    /// The product that is computed in one go is exact.
    pub open spec fn product_exact(self, call: ProductCall<T>, out: Seq<T>) -> bool {
        forall|r: int, c: int|
            0 <= r < call.m && 0 <= c < call.n ==> {
                let q = #[trigger] crate::block::cell(call.m as int, r, c);
                (self.value)(out[q]) == self.formula(
                    Factors {
                        alpha: call.alpha,
                        beta: call.beta,
                        conj_dst: false,
                        conj_lhs: false,
                        conj_rhs: false,
                    },
                    call.dst@[q],
                    |d: int| call.lhs@[call.lhs_layout.index(r, d)],
                    |d: int| call.rhs@[call.rhs_layout.index(d, c)],
                    call.k as int,
                )
            }
    }

    /// The product of the problem is exact, where `by` computes it in one go.
    pub open spec fn one_go_exact<F: for <'a>Fn(ProductCall<'a, T>) -> Vec<T>>(
        self,
        by: F,
        p: Problem<T>,
        f: Factors<T>,
        pre: Seq<T>,
    ) -> bool {
        forall|call: ProductCall<T>, out: Vec<T>|
            call.wf() && call.matches_problem(p, f.alpha, f.beta, pre) && #[trigger] call_ensures(
                by,
                (call,),
                out,
            ) ==> self.product_exact(call, out@)
    }

    /// The tile that a kernel gives is exact.
    pub open spec fn kernel_exact(self, call: KernelCall<T>, out: Seq<T>) -> bool {
        forall|r: int, c: int|
            0 <= r < call.m && 0 <= c < call.n ==> {
                let q = #[trigger] crate::block::cell(call.m as int, r, c);
                (self.value)(out[q]) == self.formula(
                    Factors {
                        alpha: call.alpha,
                        beta: call.beta,
                        conj_dst: call.conj_dst,
                        conj_lhs: call.conj_lhs,
                        conj_rhs: call.conj_rhs,
                    },
                    call.dst@[q],
                    |d: int| call.lhs@[call.lhs_layout.index(r, d)],
                    |d: int| call.rhs@[call.rhs_layout.index(d, c)],
                    call.k as int,
                )
            }
    }

    /// The tiles that the kernels of the table give are exact, in the calls that belong to the
    /// product.
    pub open spec fn kernels_exact<
        F: for <'a>Fn(KernelCall<'a, T>) -> Vec<T>,
        const NR: usize,
        const MR_DIV_N: usize,
    >(
        self,
        p: Problem<T>,
        f: Factors<T>,
        dispatcher: [[F; NR]; MR_DIV_N],
        scheme: Scheme<T>,
        pre: Seq<T>,
    ) -> bool {
        let step = KernelStep {
            dispatcher: &dispatcher,
            lanes: scheme.lanes,
            mr: scheme.mr,
            factors: &f,
        };
        forall|
            state: Seq<T>,
            t: int,
            r: int,
            c: int,
            call: TileCall<T, T>,
            a: int,
            b: int,
            out: Vec<T>,
        |
            #[trigger] self.course(f).step_due(p, Keep, scheme, pre, state, t, r, c, call)
                && step.takes(call) && a * scheme.lanes < call.m <= (a + 1) * scheme.lanes && b + 1
                == call.n && status_fits(step.kernel_call(call)) && #[trigger] call_ensures(
                dispatcher@[a]@[b],
                (step.kernel_call(call),),
                out,
            ) ==> self.kernel_exact(step.kernel_call(call), out@)
    }

    /// What is computed for the product is exact, whichever way is taken.
    pub open spec fn computes_exactly<
        M: Fn(T, T) -> T,
        O: for <'a>Fn(ProductCall<'a, T>) -> Vec<T>,
        V: for <'a>Fn(ProductCall<'a, T>) -> Vec<T>,
        F: for <'a>Fn(KernelCall<'a, T>) -> Vec<T>,
        const NR: usize,
        const MR_DIV_N: usize,
    >(
        self,
        p: Problem<T>,
        f: Factors<T>,
        times: M,
        outer: O,
        vector: V,
        dispatcher: [[F; NR]; MR_DIV_N],
        scheme: Scheme<T>,
        pre: Seq<T>,
    ) -> bool {
        match crate::gemm::route_of(p, f) {
            Route::Nothing => true,
            Route::Scale => self.scaling_exact(times, p, f, pre),
            Route::Outer => self.one_go_exact(outer, p, f, pre),
            Route::TransposedVector => self.one_go_exact(
                vector,
                crate::gemm::transposed_problem(p),
                f,
                pre,
            ),
            Route::Vector => self.one_go_exact(vector, p, f, pre),
            Route::Blocked => self.kernels_exact(p, f, dispatcher, scheme, pre),
        }
    }
}

/// `x` or its conjugate.
pub open spec fn conjugated<T: Number>(conj: bool, x: T) -> T {
    if conj {
        x.conjugate()
    } else {
        x
    }
}

/// The kernel is told that the destination is scaled by zero or by one only where it is.
pub open spec fn status_fits<T: Number>(call: KernelCall<T>) -> bool {
    &&& call.alpha_status is Zero ==> call.alpha.zero_valued()
    &&& call.alpha_status is One ==> call.alpha.one_valued()
}

/// The entry that the formula gives for row `i` and column `j`.
pub open spec fn entry_formula<T: Number, R>(
    alg: Algebra<T, R>,
    p: Problem<T>,
    f: Factors<T>,
    pre: Seq<T>,
    i: int,
    j: int,
) -> R {
    alg.formula(
        f,
        pre[p.dst_layout.index(i, j)],
        |d: int| p.lhs@[p.lhs_layout.index(i, d)],
        |d: int| p.rhs@[p.rhs_layout.index(d, j)],
        p.k as int,
    )
}

/// Steps with exact kernels are exact.
proof fn lemma_kernel_step_exact<
    T: Number,
    R,
    F: for <'a>Fn(KernelCall<'a, T>) -> Vec<T>,
    const NR: usize,
    const MR_DIV_N: usize,
>(
    alg: Algebra<T, R>,
    p: Problem<T>,
    step: KernelStep<'_, T, F, NR, MR_DIV_N>,
    scheme: Scheme<T>,
    pre: Seq<T>,
)
    requires
        alg.lawful(),
        step.lanes == scheme.lanes,
        step.mr == scheme.mr,
        alg.kernels_exact(p, *step.factors, *step.dispatcher, scheme, pre),
    ensures
        alg.course(*step.factors).steps_exactly(p, Keep, step, scheme, pre),
{
    let f = *step.factors;
    let course = alg.course(f);
    let start = course.start;
    let term = course.term;
    assert forall|state: Seq<T>, t: int, r0: int, c0: int, call: TileCall<T, T>, out: Seq<T>|
        #[trigger] course.step_due(p, Keep, scheme, pre, state, t, r0, c0, call) && step.accepts(
            call,
        ) && #[trigger] step.yields(call, out) implies course.tile_exact(call, out) by {
        let lanes = step.lanes as int;
        let a = crate::share::ceil_quotient(call.m as int, lanes) - 1;
        let b = call.n - 1;
        crate::share::lemma_ceil_quotient(call.m as int, lanes);
        assert(a < MR_DIV_N) by (nonlinear_arith)
            requires
                lanes * a < call.m,
                call.m <= MR_DIV_N * lanes,
                0 < lanes,
        ;
        let args = step.kernel_call(call);
        let res = choose|res: Vec<T>|
            {
                &&& #[trigger] call_ensures(
                    step.dispatcher@[crate::share::ceil_quotient(
                        call.m as int,
                        step.lanes as int,
                    ) - 1]@[call.n - 1],
                    (step.kernel_call(call),),
                    res,
                )
                &&& res@ == out
            };
        assert(call_ensures(step.dispatcher@[a]@[b], (args,), res));
        assert(args.wf(lanes, step.mr as int, NR as int));
        assert(a * lanes < call.m <= (a + 1) * lanes) by (nonlinear_arith)
            requires
                lanes * a < call.m,
                call.m <= lanes * (a + 1),
        ;
        assert(alg.kernel_exact(args, out));
        assert forall|r: int, c: int| 0 <= r < call.m && 0 <= c < call.n implies {
            let q = #[trigger] crate::block::cell(call.m as int, r, c);
            (alg.value)(out[q]) == (alg.sum.plus)(
                if call.first {
                    start(call.dst@[q])
                } else {
                    (alg.value)(call.dst@[q])
                },
                alg.sum.total(
                    |d: int|
                        term(
                            call.lhs@[call.lhs_layout.index(r, d)],
                            call.rhs@[call.rhs_layout.index(d, c)],
                        ),
                    0,
                    call.k as int,
                ),
            )
        } by {
            let q = crate::block::cell(call.m as int, r, c);
            let lhs = |d: int| call.lhs@[call.lhs_layout.index(r, d)];
            let rhs = |d: int| call.rhs@[call.rhs_layout.index(d, c)];
            let g = |d: int| (alg.term)(f.beta, f.conj_lhs, f.conj_rhs, lhs(d), rhs(d));
            let h = |d: int|
                term(
                    call.lhs@[call.lhs_layout.index(r, d)],
                    call.rhs@[call.rhs_layout.index(d, c)],
                );
            alg.sum.lemma_shift(g, h, 0, call.k as int, 0);
            let given = Factors {
                alpha: args.alpha,
                beta: args.beta,
                conj_dst: args.conj_dst,
                conj_lhs: args.conj_lhs,
                conj_rhs: args.conj_rhs,
            };
            assert((alg.value)(out[crate::block::cell(args.m as int, r, c)]) == alg.formula(
                given,
                args.dst@[q],
                |d: int| args.lhs@[args.lhs_layout.index(r, d)],
                |d: int| args.rhs@[args.rhs_layout.index(d, c)],
                args.k as int,
            ));
            let g2 = |d: int|
                (alg.term)(
                    given.beta,
                    given.conj_lhs,
                    given.conj_rhs,
                    (|d: int| args.lhs@[args.lhs_layout.index(r, d)])(d),
                    (|d: int| args.rhs@[args.rhs_layout.index(d, c)])(d),
                );
            alg.sum.lemma_shift(g2, h, 0, call.k as int, 0);
        }
    }
}

/// What exact products in one go make of an entry.
proof fn lemma_computed_exactly<
    T: Number,
    R,
    F: for <'a>Fn(ProductCall<'a, T>) -> Vec<T>,
>(
    alg: Algebra<T, R>,
    by: F,
    p: Problem<T>,
    f: Factors<T>,
    pre: Seq<T>,
    post: Seq<T>,
    i: int,
    j: int,
)
    requires
        alg.one_go_exact(by, p, f, pre),
        !f.conj_dst,
        !f.conj_lhs,
        !f.conj_rhs,
        0 <= i < p.m,
        0 <= j < p.n,
        crate::gemm::computed_by(by, p, f.alpha, f.beta, pre, post),
    ensures
        (alg.value)(post[p.dst_layout.index(i, j)]) == entry_formula(alg, p, f, pre, i, j),
{
    let (call, out) = choose|call: ProductCall<T>, out: Vec<T>|
        {
            &&& #[trigger] call_ensures(by, (call,), out)
            &&& call.wf()
            &&& call.matches_problem(p, f.alpha, f.beta, pre)
            &&& crate::block::is_block(out@, post, p.dst_layout, 0, 0, p.m as int, p.n as int)
        };
    assert(alg.product_exact(call, out@));
    let q = crate::block::cell(p.m as int, i, j);
    assert(out@[q] == post[p.dst_layout.index(0 + i, 0 + j)]);
    assert(call.dst@[q] == pre[p.dst_layout.index(0 + i, 0 + j)]);
    let lhs = |d: int| call.lhs@[call.lhs_layout.index(i, d)];
    let rhs = |d: int| call.rhs@[call.rhs_layout.index(d, j)];
    let lhs2 = |d: int| p.lhs@[p.lhs_layout.index(i, d)];
    let rhs2 = |d: int| p.rhs@[p.rhs_layout.index(d, j)];
    let g = |d: int| (alg.term)(f.beta, false, false, lhs(d), rhs(d));
    let h = |d: int| (alg.term)(f.beta, f.conj_lhs, f.conj_rhs, lhs2(d), rhs2(d));
    alg.sum.lemma_shift(g, h, 0, p.k as int, 0);
}

/// Where what is computed for the product is exact, every entry of the destination is `alpha *
/// conj?(dst) + beta * conj?(lhs) * conj?(rhs)`, whichever way the product is computed. Exactness is
/// asked only of the products and sums that occur.
pub proof fn law_gemm_formula<
    T: Number,
    R,
    M: Fn(T, T) -> T,
    O: for <'a>Fn(ProductCall<'a, T>) -> Vec<T>,
    V: for <'a>Fn(ProductCall<'a, T>) -> Vec<T>,
    F: for <'a>Fn(KernelCall<'a, T>) -> Vec<T>,
    const NR: usize,
    const MR_DIV_N: usize,
>(
    alg: Algebra<T, R>,
    p: Problem<T>,
    f: Factors<T>,
    times: M,
    outer: O,
    vector: V,
    dispatcher: [[F; NR]; MR_DIV_N],
    scheme: Scheme<T>,
    pre: Seq<T>,
    post: Seq<T>,
    i: int,
    j: int,
)
    requires
        alg.lawful(),
        alg.computes_exactly(p, f, times, outer, vector, dispatcher, scheme, pre),
        crate::gemm::route_of(p, f) is Blocked ==> 0 < scheme.blocking.kc,
        0 <= i < p.m,
        0 <= j < p.n,
        crate::gemm::multiplied(
            p,
            f,
            times,
            outer,
            vector,
            dispatcher,
            scheme,
            pre,
            post,
        ),
    ensures
        (alg.value)(post[p.dst_layout.index(i, j)]) == entry_formula(alg, p, f, pre, i, j),
{
    let q = p.dst_layout.index(i, j);
    match crate::gemm::route_of(p, f) {
        Route::Nothing => {},
        Route::Scale => {
            let x = (alg.scale)(f.alpha, f.conj_dst, pre[q]);
            assert((alg.sum.plus)(x, alg.sum.zero) == x);
            if f.alpha.zero_valued() {
            } else if f.alpha.one_valued() && !f.conj_dst {
                assert((alg.scale)(f.alpha, false, pre[q]) == (alg.value)(pre[q]));
            } else {
                assert(crate::gemm::scaled(&times, f.alpha, f.conj_dst, pre[q], post[q]));
                assert(call_ensures(
                    times,
                    (f.alpha, conjugated(f.conj_dst, pre[q])),
                    post[q],
                ));
            }
        },
        Route::Outer => {
            lemma_computed_exactly(alg, outer, p, f, pre, post, i, j);
        },
        Route::TransposedVector => {
            let t = crate::gemm::transposed_problem(p);
            lemma_computed_exactly(alg, vector, t, f, pre, post, j, i);
            crate::gemm::lemma_transposed_layout(p.dst_layout);
            crate::gemm::lemma_transposed_layout(p.lhs_layout);
            crate::gemm::lemma_transposed_layout(p.rhs_layout);
            let g = |d: int|
                (alg.term)(
                    f.beta,
                    f.conj_lhs,
                    f.conj_rhs,
                    (|d: int| t.lhs@[t.lhs_layout.index(j, d)])(d),
                    (|d: int| t.rhs@[t.rhs_layout.index(d, i)])(d),
                );
            let h = |d: int|
                (alg.term)(
                    f.beta,
                    f.conj_lhs,
                    f.conj_rhs,
                    (|d: int| p.lhs@[p.lhs_layout.index(i, d)])(d),
                    (|d: int| p.rhs@[p.rhs_layout.index(d, j)])(d),
                );
            assert forall|d: int| 0 <= d < p.k implies #[trigger] g(d) == h(d + 0) by {
                assert(t.lhs_layout.index(j, d) == p.rhs_layout.index(d, j));
                assert(t.rhs_layout.index(d, i) == p.lhs_layout.index(i, d));
                let x = p.lhs@[p.lhs_layout.index(i, d)];
                let y = p.rhs@[p.rhs_layout.index(d, j)];
                assert((alg.term)(f.beta, false, false, x, y) == (alg.term)(
                    f.beta,
                    false,
                    false,
                    y,
                    x,
                ));
            }
            alg.sum.lemma_shift(g, h, 0, p.k as int, 0);
        },
        Route::Vector => {
            lemma_computed_exactly(alg, vector, p, f, pre, post, i, j);
        },
        Route::Blocked => {
            let step = KernelStep {
                dispatcher: &dispatcher,
                lanes: scheme.lanes,
                mr: scheme.mr,
                factors: &f,
            };
            lemma_kernel_step_exact(alg, p, step, scheme, pre);
            let course = alg.course(f);
            assert(course.converts_exactly(Keep));
            crate::laws::law_accumulated_exactly(
                course,
                p,
                Keep,
                step,
                scheme,
                pre,
                post,
                i,
                j,
            );
            let g = crate::laws::entry_terms(p, course.pair, i, j);
            let h = |d: int|
                (alg.term)(
                    f.beta,
                    f.conj_lhs,
                    f.conj_rhs,
                    (|d: int| p.lhs@[p.lhs_layout.index(i, d)])(d),
                    (|d: int| p.rhs@[p.rhs_layout.index(d, j)])(d),
                );
            alg.sum.lemma_shift(g, h, 0, p.k as int, 0);
        },
    }
}

} // verus!
