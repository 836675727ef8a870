//! Products in parts: along the rows, the columns and the depth, and transposed.

use crate::convert::Through;
use crate::exact::Algebra;
use crate::gemm::Factors;
use crate::gemm::ProductCall;
use crate::half_exact::Meaning;
use crate::half_precision::HalfMath;
use crate::half_precision::SingleMath;
use crate::kernel::KernelCall;
use crate::layout::Layout;
use crate::scalar::Half;
use crate::scalar::Number;
use crate::scalar::Single;
use crate::scheme::Scheme;
use crate::sweep::Problem;
use vstd::prelude::*;

verus! {

/// `part` is what `whole` is from entry `(row, col)` on.
pub open spec fn starts_at(part: Layout, whole: Layout, row: int, col: int) -> bool {
    &&& part.at == whole.index(row, col)
    &&& part.rs == whole.rs
    &&& part.cs == whole.cs
}

/// Where an entry of the part is.
proof fn lemma_starts_at(part: Layout, whole: Layout, row: int, col: int, i: int, j: int)
    requires
        starts_at(part, whole, row, col),
    ensures
        part.index(i - row, j - col) == whole.index(i, j),
{
    reveal(Layout::index);
    assert(i * whole.rs == row * whole.rs + (i - row) * whole.rs) by (nonlinear_arith);
    assert(j * whole.cs == col * whole.cs + (j - col) * whole.cs) by (nonlinear_arith);
}

/// `part` is the product for some rows of `p` from `row` on and for some columns from `col` on. Its
/// operands are the matching rows of the left and columns of the right operand.
pub open spec fn is_part<T>(p: Problem<T>, part: Problem<T>, row: int, col: int) -> bool {
    &&& 0 <= row
    &&& row + part.m <= p.m
    &&& 0 <= col
    &&& col + part.n <= p.n
    &&& part.k == p.k
    &&& part.lhs@ == p.lhs@
    &&& part.rhs@ == p.rhs@
    &&& 0 < part.m && 0 < part.n ==> {
        &&& starts_at(part.dst_layout, p.dst_layout, row, col)
        &&& 0 < p.k ==> starts_at(part.lhs_layout, p.lhs_layout, row, 0)
        &&& 0 < p.k ==> starts_at(part.rhs_layout, p.rhs_layout, 0, col)
    }
}

/// `first` and `second` are what becomes of `p` when it is cut in two: above row `row`, or left of
/// column `col`.
pub open spec fn cut_in_two<T>(
    p: Problem<T>,
    first: Problem<T>,
    second: Problem<T>,
    row: int,
    col: int,
) -> bool {
    &&& is_part(p, first, 0, 0)
    &&& is_part(p, second, row, col)
    &&& {
        ||| row == 0 && col == first.n && first.m == p.m && second.m == p.m && first.n + second.n
            == p.n
        ||| col == 0 && row == first.m && first.n == p.n && second.n == p.n && first.m + second.m
            == p.m
    }
}

/// Where the entries of the destination do not share elements, neither part of a product that is cut
/// in two touches the entries of the other, nor what lies beside the destination.
pub proof fn law_cut_apart<T>(
    p: Problem<T>,
    first: Problem<T>,
    second: Problem<T>,
    row: int,
    col: int,
    pre: Seq<T>,
    mid: Seq<T>,
    post: Seq<T>,
)
    requires
        cut_in_two(p, first, second, row, col),
        p.dst_layout.fits(pre.len() as int, p.m as int, p.n as int),
        p.dst_layout.distinct(p.m as int, p.n as int),
        first.dst_layout.same_beside(pre, mid, first.m as int, 0, first.n as int),
        second.dst_layout.same_beside(mid, post, second.m as int, 0, second.n as int),
    ensures
        forall|i: int, j: int|
            row <= i < p.m && col <= j < p.n ==> mid[#[trigger] p.dst_layout.index(i, j)]
                == pre[p.dst_layout.index(i, j)],
        forall|i: int, j: int|
            0 <= i < first.m && 0 <= j < first.n ==> post[#[trigger] p.dst_layout.index(i, j)]
                == mid[p.dst_layout.index(i, j)],
        p.dst_layout.same_beside(pre, post, p.m as int, 0, p.n as int),
{
    let l = p.dst_layout;
    assert forall|i: int, j: int| row <= i < p.m && col <= j < p.n implies mid[#[trigger] l.index(
        i,
        j,
    )] == pre[l.index(i, j)] by {
        let q = l.index(i, j);
        if first.dst_layout.holds(first.m as int, 0, first.n as int, q) {
            let (i2, j2) = choose|i2: int, j2: int|
                0 <= i2 < first.m && 0 <= j2 < first.n && #[trigger] first.dst_layout.index(i2, j2)
                    == q;
            lemma_starts_at(first.dst_layout, l, 0, 0, i2, j2);
            assert(l.index(i2, j2) == l.index(i, j));
        }
    }
    assert forall|i: int, j: int|
        0 <= i < first.m && 0 <= j < first.n implies post[#[trigger] l.index(i, j)]
        == mid[l.index(i, j)] by {
        let q = l.index(i, j);
        if second.dst_layout.holds(second.m as int, 0, second.n as int, q) {
            let (i2, j2) = choose|i2: int, j2: int|
                0 <= i2 < second.m && 0 <= j2 < second.n && #[trigger] second.dst_layout.index(
                    i2,
                    j2,
                ) == q;
            lemma_starts_at(second.dst_layout, l, row, col, row + i2, col + j2);
            assert(l.index(row + i2, col + j2) == l.index(i, j));
        }
    }
    assert forall|q: int|
        0 <= q < pre.len() && !l.holds(p.m as int, 0, p.n as int, q) implies #[trigger] post[q]
        == pre[q] by {
        if first.dst_layout.holds(first.m as int, 0, first.n as int, q) {
            let (i2, j2) = choose|i2: int, j2: int|
                0 <= i2 < first.m && 0 <= j2 < first.n && #[trigger] first.dst_layout.index(i2, j2)
                    == q;
            lemma_starts_at(first.dst_layout, l, 0, 0, i2, j2);
            assert(l.index(i2, j2) == q);
            assert(l.holds(p.m as int, 0, p.n as int, q));
        }
        if second.dst_layout.holds(second.m as int, 0, second.n as int, q) {
            let (i2, j2) = choose|i2: int, j2: int|
                0 <= i2 < second.m && 0 <= j2 < second.n && #[trigger] second.dst_layout.index(
                    i2,
                    j2,
                ) == q;
            lemma_starts_at(second.dst_layout, l, row, col, row + i2, col + j2);
            assert(l.index(row + i2, col + j2) == q);
            assert(l.holds(p.m as int, 0, p.n as int, q));
        }
        assert(mid[q] == pre[q]);
    }
}

/// The formula for an entry is the same in a part.
proof fn lemma_part_formula<T: Number, R>(
    alg: Algebra<T, R>,
    p: Problem<T>,
    part: Problem<T>,
    row: int,
    col: int,
    f: Factors<T>,
    pre: Seq<T>,
    part_pre: Seq<T>,
    i: int,
    j: int,
)
    requires
        is_part(p, part, row, col),
        0 <= i < part.m,
        0 <= j < part.n,
        part_pre[part.dst_layout.index(i, j)] == pre[p.dst_layout.index(row + i, col + j)],
    ensures
        crate::exact::entry_formula(alg, part, f, part_pre, i, j) == crate::exact::entry_formula(
            alg,
            p,
            f,
            pre,
            row + i,
            col + j,
        ),
{
    let g = |d: int|
        (alg.term)(
            f.beta,
            f.conj_lhs,
            f.conj_rhs,
            (|d: int| part.lhs@[part.lhs_layout.index(i, d)])(d),
            (|d: int| part.rhs@[part.rhs_layout.index(d, j)])(d),
        );
    let h = |d: int|
        (alg.term)(
            f.beta,
            f.conj_lhs,
            f.conj_rhs,
            (|d: int| p.lhs@[p.lhs_layout.index(row + i, d)])(d),
            (|d: int| p.rhs@[p.rhs_layout.index(d, col + j)])(d),
        );
    assert forall|d: int| 0 <= d < p.k implies #[trigger] g(d) == h(d + 0) by {
        lemma_starts_at(part.lhs_layout, p.lhs_layout, row, 0, row + i, d);
        lemma_starts_at(part.rhs_layout, p.rhs_layout, 0, col, d, col + j);
    }
    alg.sum.lemma_shift(g, h, 0, p.k as int, 0);
}

/// The formula for an entry is the same in a part, for half precision numbers.
proof fn lemma_half_part_formula<C, R>(
    m: Meaning<C, R>,
    p: Problem<Half>,
    part: Problem<Half>,
    row: int,
    col: int,
    alpha: Half,
    beta: Half,
    pre: Seq<Half>,
    part_pre: Seq<Half>,
    i: int,
    j: int,
)
    requires
        is_part(p, part, row, col),
        0 <= i < part.m,
        0 <= j < part.n,
        part_pre[part.dst_layout.index(i, j)] == pre[p.dst_layout.index(row + i, col + j)],
    ensures
        m.entry_formula(part, alpha, beta, part_pre, i, j) == m.entry_formula(
            p,
            alpha,
            beta,
            pre,
            row + i,
            col + j,
        ),
{
    let g = |d: int|
        m.ring.term(
            (m.stored)(beta),
            (|d: int| (m.stored)(part.lhs@[part.lhs_layout.index(i, d)]))(d),
            (|d: int| (m.stored)(part.rhs@[part.rhs_layout.index(d, j)]))(d),
        );
    let h = |d: int|
        m.ring.term(
            (m.stored)(beta),
            (|d: int| (m.stored)(p.lhs@[p.lhs_layout.index(row + i, d)]))(d),
            (|d: int| (m.stored)(p.rhs@[p.rhs_layout.index(d, col + j)]))(d),
        );
    assert forall|d: int| 0 <= d < p.k implies #[trigger] g(d) == h(d + 0) by {
        lemma_starts_at(part.lhs_layout, p.lhs_layout, row, 0, row + i, d);
        lemma_starts_at(part.rhs_layout, p.rhs_layout, 0, col, d, col + j);
    }
    m.ring.sum.lemma_shift(g, h, 0, p.k as int, 0);
}

/// An entry of a product depends on the entry before, its row of the left and its column of the right
/// operand alone: where what is computed is exact, a part of the product leaves in it what the whole
/// leaves. The two may be cut into blocks and tiles in different ways.
pub proof fn law_gemm_part<
    T: Number,
    R,
    M: Fn(T, T) -> T,
    O: for <'a>Fn(ProductCall<'a, T>) -> Vec<T>,
    V: for <'a>Fn(ProductCall<'a, T>) -> Vec<T>,
    F: for <'a>Fn(KernelCall<'a, T>) -> Vec<T>,
    const NR: usize,
    const MR_DIV_N: usize,
>(
    alg: Algebra<T, R>,
    p: Problem<T>,
    part: Problem<T>,
    row: int,
    col: int,
    f: Factors<T>,
    times: M,
    outer: O,
    vector: V,
    dispatcher: [[F; NR]; MR_DIV_N],
    scheme: Scheme<T>,
    part_scheme: Scheme<T>,
    pre: Seq<T>,
    whole: Seq<T>,
    part_pre: Seq<T>,
    part_post: Seq<T>,
    i: int,
    j: int,
)
    requires
        alg.lawful(),
        is_part(p, part, row, col),
        alg.computes_exactly(p, f, times, outer, vector, dispatcher, scheme, pre),
        alg.computes_exactly(part, f, times, outer, vector, dispatcher, part_scheme, part_pre),
        crate::gemm::route_of(p, f) is Blocked ==> 0 < scheme.blocking.kc,
        crate::gemm::route_of(part, f) is Blocked ==> 0 < part_scheme.blocking.kc,
        0 <= i < part.m,
        0 <= j < part.n,
        part_pre[part.dst_layout.index(i, j)] == pre[p.dst_layout.index(row + i, col + j)],
        crate::gemm::multiplied(p, f, times, outer, vector, dispatcher, scheme, pre, whole),
        crate::gemm::multiplied(
            part,
            f,
            times,
            outer,
            vector,
            dispatcher,
            part_scheme,
            part_pre,
            part_post,
        ),
    ensures
        (alg.value)(part_post[part.dst_layout.index(i, j)]) == (alg.value)(
            whole[p.dst_layout.index(row + i, col + j)],
        ),
{
    crate::exact::law_gemm_formula(
        alg,
        p,
        f,
        times,
        outer,
        vector,
        dispatcher,
        scheme,
        pre,
        whole,
        row + i,
        col + j,
    );
    crate::exact::law_gemm_formula(
        alg,
        part,
        f,
        times,
        outer,
        vector,
        dispatcher,
        part_scheme,
        part_pre,
        part_post,
        i,
        j,
    );
    lemma_part_formula(alg, p, part, row, col, f, pre, part_pre, i, j);
}

/// A part of a product in half precision leaves in an entry what the whole leaves, where what is
/// computed is exact.
pub proof fn law_pure_part<
    R,
    A: Fn(Half, Half) -> Half,
    M: Fn(Half, Half) -> Half,
    F: for <'a>Fn(KernelCall<'a, Half>) -> Vec<Half>,
    const NR: usize,
    const MR_DIV_N: usize,
>(
    m: Meaning<Half, R>,
    p: Problem<Half>,
    part: Problem<Half>,
    row: int,
    col: int,
    alpha: Half,
    beta: Half,
    math: HalfMath<A, M>,
    dispatcher: [[F; NR]; MR_DIV_N],
    scheme: Scheme<Half>,
    part_scheme: Scheme<Half>,
    pre: Seq<Half>,
    whole: Seq<Half>,
    part_pre: Seq<Half>,
    part_post: Seq<Half>,
    i: int,
    j: int,
)
    requires
        m.lawful(),
        m.computed == m.stored,
        is_part(p, part, row, col),
        crate::half_exact::pure_computes_exactly(m, p, alpha, beta, math, dispatcher, scheme, pre),
        crate::half_exact::pure_computes_exactly(
            m,
            part,
            alpha,
            beta,
            math,
            dispatcher,
            part_scheme,
            part_pre,
        ),
        p.k > 0 ==> 0 < scheme.blocking.kc,
        part.k > 0 ==> 0 < part_scheme.blocking.kc,
        0 <= i < part.m,
        0 <= j < part.n,
        part_pre[part.dst_layout.index(i, j)] == pre[p.dst_layout.index(row + i, col + j)],
        crate::half_precision::pure_multiplied(
            p,
            alpha,
            beta,
            math,
            dispatcher,
            scheme,
            pre,
            whole,
        ),
        crate::half_precision::pure_multiplied(
            part,
            alpha,
            beta,
            math,
            dispatcher,
            part_scheme,
            part_pre,
            part_post,
        ),
    ensures
        (m.stored)(part_post[part.dst_layout.index(i, j)]) == (m.stored)(
            whole[p.dst_layout.index(row + i, col + j)],
        ),
{
    crate::half_exact::law_pure_formula(
        m,
        p,
        alpha,
        beta,
        math,
        dispatcher,
        scheme,
        pre,
        whole,
        row + i,
        col + j,
    );
    crate::half_exact::law_pure_formula(
        m,
        part,
        alpha,
        beta,
        math,
        dispatcher,
        part_scheme,
        part_pre,
        part_post,
        i,
        j,
    );
    lemma_half_part_formula(m, p, part, row, col, alpha, beta, pre, part_pre, i, j);
}

/// A part of a product of half precision numbers that is computed in single precision leaves in an
/// entry what the whole leaves, where what is computed is exact.
pub proof fn law_mixed_part<
    R,
    W: Fn(Half) -> Single,
    U: for <'a>Fn(&'a [Half]) -> Vec<Single>,
    P: Fn(Single) -> Half,
    A: Fn(Single, Single) -> Single,
    M: Fn(Single, Single) -> Single,
    H: Fn(Half, Half) -> Half,
    F: for <'a>Fn(KernelCall<'a, Single>) -> Vec<Single>,
    const NR: usize,
    const MR_DIV_N: usize,
>(
    m: Meaning<Single, R>,
    p: Problem<Half>,
    part: Problem<Half>,
    row: int,
    col: int,
    alpha: Half,
    beta: Half,
    widen: Through<W, U>,
    math: SingleMath<P, A, M>,
    half_times: H,
    dispatcher: [[F; NR]; MR_DIV_N],
    scheme: Scheme<Single>,
    part_scheme: Scheme<Single>,
    pre: Seq<Half>,
    whole: Seq<Half>,
    part_pre: Seq<Half>,
    part_post: Seq<Half>,
    i: int,
    j: int,
)
    requires
        m.lawful(),
        crate::half_exact::widens_exactly(m, widen),
        is_part(p, part, row, col),
        crate::half_exact::mixed_computes_exactly(
            m,
            p,
            alpha,
            beta,
            widen,
            math,
            half_times,
            dispatcher,
            scheme,
            pre,
        ),
        crate::half_exact::mixed_computes_exactly(
            m,
            part,
            alpha,
            beta,
            widen,
            math,
            half_times,
            dispatcher,
            part_scheme,
            part_pre,
        ),
        p.k > 0 ==> 0 < scheme.blocking.kc,
        part.k > 0 ==> 0 < part_scheme.blocking.kc,
        0 <= i < part.m,
        0 <= j < part.n,
        part_pre[part.dst_layout.index(i, j)] == pre[p.dst_layout.index(row + i, col + j)],
        crate::half_precision::mixed_multiplied(
            p,
            alpha,
            beta,
            widen,
            math,
            half_times,
            dispatcher,
            scheme,
            pre,
            whole,
        ),
        crate::half_precision::mixed_multiplied(
            part,
            alpha,
            beta,
            widen,
            math,
            half_times,
            dispatcher,
            part_scheme,
            part_pre,
            part_post,
        ),
    ensures
        (m.stored)(part_post[part.dst_layout.index(i, j)]) == (m.stored)(
            whole[p.dst_layout.index(row + i, col + j)],
        ),
{
    crate::half_exact::law_mixed_formula(
        m,
        p,
        alpha,
        beta,
        widen,
        math,
        half_times,
        dispatcher,
        scheme,
        pre,
        whole,
        row + i,
        col + j,
    );
    crate::half_exact::law_mixed_formula(
        m,
        part,
        alpha,
        beta,
        widen,
        math,
        half_times,
        dispatcher,
        part_scheme,
        part_pre,
        part_post,
        i,
        j,
    );
    lemma_half_part_formula(m, p, part, row, col, alpha, beta, pre, part_pre, i, j);
}

/// A product is that of its first columns followed by that of the others, and that of its first rows
/// followed by that of the others, where what is computed for the three of them is exact: the entries
/// stand for the same numbers, and beside them nothing differs.
pub proof fn law_gemm_cut<
    T: Number,
    R,
    M: Fn(T, T) -> T,
    O: for <'a>Fn(ProductCall<'a, T>) -> Vec<T>,
    V: for <'a>Fn(ProductCall<'a, T>) -> Vec<T>,
    F: for <'a>Fn(KernelCall<'a, T>) -> Vec<T>,
    const NR: usize,
    const MR_DIV_N: usize,
>(
    alg: Algebra<T, R>,
    p: Problem<T>,
    first: Problem<T>,
    second: Problem<T>,
    row: int,
    col: int,
    f: Factors<T>,
    times: M,
    outer: O,
    vector: V,
    dispatcher: [[F; NR]; MR_DIV_N],
    scheme: Scheme<T>,
    first_scheme: Scheme<T>,
    second_scheme: Scheme<T>,
    pre: Seq<T>,
    mid: Seq<T>,
    post: Seq<T>,
    whole: Seq<T>,
)
    requires
        alg.lawful(),
        cut_in_two(p, first, second, row, col),
        p.wf(pre.len() as int),
        alg.computes_exactly(p, f, times, outer, vector, dispatcher, scheme, pre),
        alg.computes_exactly(first, f, times, outer, vector, dispatcher, first_scheme, pre),
        alg.computes_exactly(second, f, times, outer, vector, dispatcher, second_scheme, mid),
        crate::gemm::route_of(p, f) is Blocked ==> 0 < scheme.blocking.kc,
        crate::gemm::route_of(first, f) is Blocked ==> 0 < first_scheme.blocking.kc,
        crate::gemm::route_of(second, f) is Blocked ==> 0 < second_scheme.blocking.kc,
        crate::gemm::multiplied(p, f, times, outer, vector, dispatcher, scheme, pre, whole),
        crate::gemm::multiplied(first, f, times, outer, vector, dispatcher, first_scheme, pre, mid),
        crate::gemm::multiplied(
            second,
            f,
            times,
            outer,
            vector,
            dispatcher,
            second_scheme,
            mid,
            post,
        ),
    ensures
        forall|i: int, j: int|
            0 <= i < p.m && 0 <= j < p.n ==> (alg.value)(post[#[trigger] p.dst_layout.index(i, j)])
                == (alg.value)(whole[p.dst_layout.index(i, j)]),
        p.dst_layout.same_beside(whole, post, p.m as int, 0, p.n as int),
{
    law_cut_apart(p, first, second, row, col, pre, mid, post);
    assert forall|i: int, j: int| 0 <= i < p.m && 0 <= j < p.n implies (alg.value)(
        post[#[trigger] p.dst_layout.index(i, j)],
    ) == (alg.value)(whole[p.dst_layout.index(i, j)]) by {
        if i < first.m && j < first.n {
            lemma_starts_at(first.dst_layout, p.dst_layout, 0, 0, i, j);
            law_gemm_part(
                alg,
                p,
                first,
                0,
                0,
                f,
                times,
                outer,
                vector,
                dispatcher,
                scheme,
                first_scheme,
                pre,
                whole,
                pre,
                mid,
                i,
                j,
            );
        } else {
            lemma_starts_at(second.dst_layout, p.dst_layout, row, col, i, j);
            law_gemm_part(
                alg,
                p,
                second,
                row,
                col,
                f,
                times,
                outer,
                vector,
                dispatcher,
                scheme,
                second_scheme,
                pre,
                whole,
                mid,
                post,
                i - row,
                j - col,
            );
        }
    }
}

/// A product in half precision is that of its first columns followed by that of the others, and that
/// of its first rows followed by that of the others, where what is computed for the three of them is
/// exact.
pub proof fn law_pure_cut<
    R,
    A: Fn(Half, Half) -> Half,
    M: Fn(Half, Half) -> Half,
    F: for <'a>Fn(KernelCall<'a, Half>) -> Vec<Half>,
    const NR: usize,
    const MR_DIV_N: usize,
>(
    m: Meaning<Half, R>,
    p: Problem<Half>,
    first: Problem<Half>,
    second: Problem<Half>,
    row: int,
    col: int,
    alpha: Half,
    beta: Half,
    math: HalfMath<A, M>,
    dispatcher: [[F; NR]; MR_DIV_N],
    scheme: Scheme<Half>,
    first_scheme: Scheme<Half>,
    second_scheme: Scheme<Half>,
    pre: Seq<Half>,
    mid: Seq<Half>,
    post: Seq<Half>,
    whole: Seq<Half>,
)
    requires
        m.lawful(),
        m.computed == m.stored,
        cut_in_two(p, first, second, row, col),
        p.wf(pre.len() as int),
        crate::half_exact::pure_computes_exactly(m, p, alpha, beta, math, dispatcher, scheme, pre),
        crate::half_exact::pure_computes_exactly(
            m,
            first,
            alpha,
            beta,
            math,
            dispatcher,
            first_scheme,
            pre,
        ),
        crate::half_exact::pure_computes_exactly(
            m,
            second,
            alpha,
            beta,
            math,
            dispatcher,
            second_scheme,
            mid,
        ),
        p.k > 0 ==> 0 < scheme.blocking.kc,
        first.k > 0 ==> 0 < first_scheme.blocking.kc,
        second.k > 0 ==> 0 < second_scheme.blocking.kc,
        crate::half_precision::pure_multiplied(
            p,
            alpha,
            beta,
            math,
            dispatcher,
            scheme,
            pre,
            whole,
        ),
        crate::half_precision::pure_multiplied(
            first,
            alpha,
            beta,
            math,
            dispatcher,
            first_scheme,
            pre,
            mid,
        ),
        crate::half_precision::pure_multiplied(
            second,
            alpha,
            beta,
            math,
            dispatcher,
            second_scheme,
            mid,
            post,
        ),
    ensures
        forall|i: int, j: int|
            0 <= i < p.m && 0 <= j < p.n ==> (m.stored)(post[#[trigger] p.dst_layout.index(i, j)])
                == (m.stored)(whole[p.dst_layout.index(i, j)]),
        p.dst_layout.same_beside(whole, post, p.m as int, 0, p.n as int),
{
    law_cut_apart(p, first, second, row, col, pre, mid, post);
    assert forall|i: int, j: int| 0 <= i < p.m && 0 <= j < p.n implies (m.stored)(
        post[#[trigger] p.dst_layout.index(i, j)],
    ) == (m.stored)(whole[p.dst_layout.index(i, j)]) by {
        if i < first.m && j < first.n {
            lemma_starts_at(first.dst_layout, p.dst_layout, 0, 0, i, j);
            law_pure_part(
                m,
                p,
                first,
                0,
                0,
                alpha,
                beta,
                math,
                dispatcher,
                scheme,
                first_scheme,
                pre,
                whole,
                pre,
                mid,
                i,
                j,
            );
        } else {
            lemma_starts_at(second.dst_layout, p.dst_layout, row, col, i, j);
            law_pure_part(
                m,
                p,
                second,
                row,
                col,
                alpha,
                beta,
                math,
                dispatcher,
                scheme,
                second_scheme,
                pre,
                whole,
                mid,
                post,
                i - row,
                j - col,
            );
        }
    }
}

/// A product of half precision numbers that is computed in single precision is that of its first
/// columns followed by that of the others, and that of its first rows followed by that of the others,
/// where what is computed for the three of them is exact.
pub proof fn law_mixed_cut<
    R,
    W: Fn(Half) -> Single,
    U: for <'a>Fn(&'a [Half]) -> Vec<Single>,
    P: Fn(Single) -> Half,
    A: Fn(Single, Single) -> Single,
    M: Fn(Single, Single) -> Single,
    H: Fn(Half, Half) -> Half,
    F: for <'a>Fn(KernelCall<'a, Single>) -> Vec<Single>,
    const NR: usize,
    const MR_DIV_N: usize,
>(
    m: Meaning<Single, R>,
    p: Problem<Half>,
    first: Problem<Half>,
    second: Problem<Half>,
    row: int,
    col: int,
    alpha: Half,
    beta: Half,
    widen: Through<W, U>,
    math: SingleMath<P, A, M>,
    half_times: H,
    dispatcher: [[F; NR]; MR_DIV_N],
    scheme: Scheme<Single>,
    first_scheme: Scheme<Single>,
    second_scheme: Scheme<Single>,
    pre: Seq<Half>,
    mid: Seq<Half>,
    post: Seq<Half>,
    whole: Seq<Half>,
)
    requires
        m.lawful(),
        crate::half_exact::widens_exactly(m, widen),
        cut_in_two(p, first, second, row, col),
        p.wf(pre.len() as int),
        crate::half_exact::mixed_computes_exactly(
            m,
            p,
            alpha,
            beta,
            widen,
            math,
            half_times,
            dispatcher,
            scheme,
            pre,
        ),
        crate::half_exact::mixed_computes_exactly(
            m,
            first,
            alpha,
            beta,
            widen,
            math,
            half_times,
            dispatcher,
            first_scheme,
            pre,
        ),
        crate::half_exact::mixed_computes_exactly(
            m,
            second,
            alpha,
            beta,
            widen,
            math,
            half_times,
            dispatcher,
            second_scheme,
            mid,
        ),
        p.k > 0 ==> 0 < scheme.blocking.kc,
        first.k > 0 ==> 0 < first_scheme.blocking.kc,
        second.k > 0 ==> 0 < second_scheme.blocking.kc,
        crate::half_precision::mixed_multiplied(
            p,
            alpha,
            beta,
            widen,
            math,
            half_times,
            dispatcher,
            scheme,
            pre,
            whole,
        ),
        crate::half_precision::mixed_multiplied(
            first,
            alpha,
            beta,
            widen,
            math,
            half_times,
            dispatcher,
            first_scheme,
            pre,
            mid,
        ),
        crate::half_precision::mixed_multiplied(
            second,
            alpha,
            beta,
            widen,
            math,
            half_times,
            dispatcher,
            second_scheme,
            mid,
            post,
        ),
    ensures
        forall|i: int, j: int|
            0 <= i < p.m && 0 <= j < p.n ==> (m.stored)(post[#[trigger] p.dst_layout.index(i, j)])
                == (m.stored)(whole[p.dst_layout.index(i, j)]),
        p.dst_layout.same_beside(whole, post, p.m as int, 0, p.n as int),
{
    law_cut_apart(p, first, second, row, col, pre, mid, post);
    assert forall|i: int, j: int| 0 <= i < p.m && 0 <= j < p.n implies (m.stored)(
        post[#[trigger] p.dst_layout.index(i, j)],
    ) == (m.stored)(whole[p.dst_layout.index(i, j)]) by {
        if i < first.m && j < first.n {
            lemma_starts_at(first.dst_layout, p.dst_layout, 0, 0, i, j);
            law_mixed_part(
                m,
                p,
                first,
                0,
                0,
                alpha,
                beta,
                widen,
                math,
                half_times,
                dispatcher,
                scheme,
                first_scheme,
                pre,
                whole,
                pre,
                mid,
                i,
                j,
            );
        } else {
            lemma_starts_at(second.dst_layout, p.dst_layout, row, col, i, j);
            law_mixed_part(
                m,
                p,
                second,
                row,
                col,
                alpha,
                beta,
                widen,
                math,
                half_times,
                dispatcher,
                scheme,
                second_scheme,
                pre,
                whole,
                mid,
                post,
                i - row,
                j - col,
            );
        }
    }
}

/// `first` and `second` are what becomes of `p` when its depth is cut: the first has some columns of
/// the left and rows of the right operand, the second the others.
pub open spec fn cut_depth<T>(p: Problem<T>, first: Problem<T>, second: Problem<T>) -> bool {
    &&& first.k + second.k == p.k
    &&& first.m == p.m
    &&& first.n == p.n
    &&& first.lhs@ == p.lhs@
    &&& first.lhs_layout == p.lhs_layout
    &&& first.rhs@ == p.rhs@
    &&& first.rhs_layout == p.rhs_layout
    &&& first.dst_layout == p.dst_layout
    &&& second.m == p.m
    &&& second.n == p.n
    &&& second.lhs@ == p.lhs@
    &&& second.rhs@ == p.rhs@
    &&& second.dst_layout == p.dst_layout
    &&& 0 < p.m && 0 < p.n && 0 < second.k ==> {
        &&& starts_at(second.lhs_layout, p.lhs_layout, 0, first.k as int)
        &&& starts_at(second.rhs_layout, p.rhs_layout, first.k as int, 0)
    }
}

/// `g` adds to what `f` has left: the destination counts once and is not conjugated again.
pub open spec fn continues<T: Number>(f: Factors<T>, g: Factors<T>) -> bool {
    &&& g.alpha.one_valued()
    &&& g.beta == f.beta
    &&& !g.conj_dst
    &&& g.conj_lhs == f.conj_lhs
    &&& g.conj_rhs == f.conj_rhs
}

/// The formula for an entry, with the depth cut in two.
proof fn lemma_depth_formula<T: Number, R>(
    alg: Algebra<T, R>,
    p: Problem<T>,
    first: Problem<T>,
    second: Problem<T>,
    f: Factors<T>,
    g: Factors<T>,
    pre: Seq<T>,
    mid: Seq<T>,
    i: int,
    j: int,
)
    requires
        alg.lawful(),
        cut_depth(p, first, second),
        continues(f, g),
        0 <= i < p.m,
        0 <= j < p.n,
        (alg.value)(mid[p.dst_layout.index(i, j)]) == crate::exact::entry_formula(
            alg,
            first,
            f,
            pre,
            i,
            j,
        ),
    ensures
        crate::exact::entry_formula(alg, second, g, mid, i, j) == crate::exact::entry_formula(
            alg,
            p,
            f,
            pre,
            i,
            j,
        ),
{
    let k1 = first.k as int;
    let q = p.dst_layout.index(i, j);
    let whole = |d: int|
        (alg.term)(
            f.beta,
            f.conj_lhs,
            f.conj_rhs,
            (|d: int| p.lhs@[p.lhs_layout.index(i, d)])(d),
            (|d: int| p.rhs@[p.rhs_layout.index(d, j)])(d),
        );
    let upper = |d: int|
        (alg.term)(
            f.beta,
            f.conj_lhs,
            f.conj_rhs,
            (|d: int| first.lhs@[first.lhs_layout.index(i, d)])(d),
            (|d: int| first.rhs@[first.rhs_layout.index(d, j)])(d),
        );
    let lower = |d: int|
        (alg.term)(
            g.beta,
            g.conj_lhs,
            g.conj_rhs,
            (|d: int| second.lhs@[second.lhs_layout.index(i, d)])(d),
            (|d: int| second.rhs@[second.rhs_layout.index(d, j)])(d),
        );
    alg.sum.lemma_shift(upper, whole, 0, k1, 0);
    assert forall|d: int| 0 <= d < second.k implies #[trigger] lower(d) == whole(d + k1) by {
        lemma_starts_at(second.lhs_layout, p.lhs_layout, 0, k1, i, d + k1);
        lemma_starts_at(second.rhs_layout, p.rhs_layout, k1, 0, d + k1, j);
    }
    alg.sum.lemma_shift(lower, whole, 0, second.k as int, k1);
    alg.sum.lemma_split(whole, 0, k1, p.k as int);
    assert((alg.scale)(g.alpha, false, mid[q]) == (alg.value)(mid[q]));
    let x = (alg.scale)(f.alpha, f.conj_dst, pre[q]);
    let y = alg.sum.total(whole, 0, k1);
    let z = alg.sum.total(whole, k1, p.k as int);
    assert((alg.sum.plus)((alg.sum.plus)(x, y), z) == (alg.sum.plus)(x, (alg.sum.plus)(y, z)));
}

/// The formula for an entry, with the depth cut in two, for half precision numbers.
proof fn lemma_half_depth_formula<C, R>(
    m: Meaning<C, R>,
    p: Problem<Half>,
    first: Problem<Half>,
    second: Problem<Half>,
    alpha: Half,
    beta: Half,
    one: Half,
    pre: Seq<Half>,
    mid: Seq<Half>,
    i: int,
    j: int,
)
    requires
        m.lawful(),
        cut_depth(p, first, second),
        one.equals(Half::one_value()),
        0 <= i < p.m,
        0 <= j < p.n,
        (m.stored)(mid[p.dst_layout.index(i, j)]) == m.entry_formula(
            first,
            alpha,
            beta,
            pre,
            i,
            j,
        ),
    ensures
        m.entry_formula(second, one, beta, mid, i, j) == m.entry_formula(
            p,
            alpha,
            beta,
            pre,
            i,
            j,
        ),
{
    let k1 = first.k as int;
    let q = p.dst_layout.index(i, j);
    let whole = |d: int|
        m.ring.term(
            (m.stored)(beta),
            (|d: int| (m.stored)(p.lhs@[p.lhs_layout.index(i, d)]))(d),
            (|d: int| (m.stored)(p.rhs@[p.rhs_layout.index(d, j)]))(d),
        );
    let upper = |d: int|
        m.ring.term(
            (m.stored)(beta),
            (|d: int| (m.stored)(first.lhs@[first.lhs_layout.index(i, d)]))(d),
            (|d: int| (m.stored)(first.rhs@[first.rhs_layout.index(d, j)]))(d),
        );
    let lower = |d: int|
        m.ring.term(
            (m.stored)(beta),
            (|d: int| (m.stored)(second.lhs@[second.lhs_layout.index(i, d)]))(d),
            (|d: int| (m.stored)(second.rhs@[second.rhs_layout.index(d, j)]))(d),
        );
    m.ring.sum.lemma_shift(upper, whole, 0, k1, 0);
    assert forall|d: int| 0 <= d < second.k implies #[trigger] lower(d) == whole(d + k1) by {
        lemma_starts_at(second.lhs_layout, p.lhs_layout, 0, k1, i, d + k1);
        lemma_starts_at(second.rhs_layout, p.rhs_layout, k1, 0, d + k1, j);
    }
    m.ring.sum.lemma_shift(lower, whole, 0, second.k as int, k1);
    m.ring.sum.lemma_split(whole, 0, k1, p.k as int);
    assert((m.stored)(one) == m.ring.one);
    let x = (m.ring.times)((m.stored)(alpha), (m.stored)(pre[q]));
    let y = m.ring.sum.total(whole, 0, k1);
    let z = m.ring.sum.total(whole, k1, p.k as int);
    assert((m.ring.sum.plus)((m.ring.sum.plus)(x, y), z) == (m.ring.sum.plus)(
        x,
        (m.ring.sum.plus)(y, z),
    ));
}

/// A product is that of the first part of its depth followed by one that adds that of the rest, where
/// what is computed for the three of them is exact.
pub proof fn law_gemm_cut_depth<
    T: Number,
    R,
    M: Fn(T, T) -> T,
    O: for <'a>Fn(ProductCall<'a, T>) -> Vec<T>,
    V: for <'a>Fn(ProductCall<'a, T>) -> Vec<T>,
    F: for <'a>Fn(KernelCall<'a, T>) -> Vec<T>,
    const NR: usize,
    const MR_DIV_N: usize,
>(
    alg: Algebra<T, R>,
    p: Problem<T>,
    first: Problem<T>,
    second: Problem<T>,
    f: Factors<T>,
    g: Factors<T>,
    times: M,
    outer: O,
    vector: V,
    dispatcher: [[F; NR]; MR_DIV_N],
    scheme: Scheme<T>,
    first_scheme: Scheme<T>,
    second_scheme: Scheme<T>,
    pre: Seq<T>,
    mid: Seq<T>,
    post: Seq<T>,
    whole: Seq<T>,
)
    requires
        alg.lawful(),
        cut_depth(p, first, second),
        continues(f, g),
        alg.computes_exactly(p, f, times, outer, vector, dispatcher, scheme, pre),
        alg.computes_exactly(first, f, times, outer, vector, dispatcher, first_scheme, pre),
        alg.computes_exactly(second, g, times, outer, vector, dispatcher, second_scheme, mid),
        crate::gemm::route_of(p, f) is Blocked ==> 0 < scheme.blocking.kc,
        crate::gemm::route_of(first, f) is Blocked ==> 0 < first_scheme.blocking.kc,
        crate::gemm::route_of(second, g) is Blocked ==> 0 < second_scheme.blocking.kc,
        crate::gemm::multiplied(p, f, times, outer, vector, dispatcher, scheme, pre, whole),
        crate::gemm::multiplied(first, f, times, outer, vector, dispatcher, first_scheme, pre, mid),
        crate::gemm::multiplied(
            second,
            g,
            times,
            outer,
            vector,
            dispatcher,
            second_scheme,
            mid,
            post,
        ),
    ensures
        forall|i: int, j: int|
            0 <= i < p.m && 0 <= j < p.n ==> (alg.value)(post[#[trigger] p.dst_layout.index(i, j)])
                == (alg.value)(whole[p.dst_layout.index(i, j)]),
        p.dst_layout.same_beside(whole, post, p.m as int, 0, p.n as int),
{
    assert forall|i: int, j: int| 0 <= i < p.m && 0 <= j < p.n implies (alg.value)(
        post[#[trigger] p.dst_layout.index(i, j)],
    ) == (alg.value)(whole[p.dst_layout.index(i, j)]) by {
        crate::exact::law_gemm_formula(
            alg,
            p,
            f,
            times,
            outer,
            vector,
            dispatcher,
            scheme,
            pre,
            whole,
            i,
            j,
        );
        crate::exact::law_gemm_formula(
            alg,
            first,
            f,
            times,
            outer,
            vector,
            dispatcher,
            first_scheme,
            pre,
            mid,
            i,
            j,
        );
        crate::exact::law_gemm_formula(
            alg,
            second,
            g,
            times,
            outer,
            vector,
            dispatcher,
            second_scheme,
            mid,
            post,
            i,
            j,
        );
        lemma_depth_formula(alg, p, first, second, f, g, pre, mid, i, j);
    }
}

/// A product in half precision is that of the first part of its depth followed by one that adds that
/// of the rest, where what is computed for the three of them is exact.
pub proof fn law_pure_cut_depth<
    R,
    A: Fn(Half, Half) -> Half,
    M: Fn(Half, Half) -> Half,
    F: for <'a>Fn(KernelCall<'a, Half>) -> Vec<Half>,
    const NR: usize,
    const MR_DIV_N: usize,
>(
    m: Meaning<Half, R>,
    p: Problem<Half>,
    first: Problem<Half>,
    second: Problem<Half>,
    alpha: Half,
    beta: Half,
    one: Half,
    math: HalfMath<A, M>,
    dispatcher: [[F; NR]; MR_DIV_N],
    scheme: Scheme<Half>,
    first_scheme: Scheme<Half>,
    second_scheme: Scheme<Half>,
    pre: Seq<Half>,
    mid: Seq<Half>,
    post: Seq<Half>,
    whole: Seq<Half>,
)
    requires
        m.lawful(),
        m.computed == m.stored,
        cut_depth(p, first, second),
        one.equals(Half::one_value()),
        crate::half_exact::pure_computes_exactly(m, p, alpha, beta, math, dispatcher, scheme, pre),
        crate::half_exact::pure_computes_exactly(
            m,
            first,
            alpha,
            beta,
            math,
            dispatcher,
            first_scheme,
            pre,
        ),
        crate::half_exact::pure_computes_exactly(
            m,
            second,
            one,
            beta,
            math,
            dispatcher,
            second_scheme,
            mid,
        ),
        p.k > 0 ==> 0 < scheme.blocking.kc,
        first.k > 0 ==> 0 < first_scheme.blocking.kc,
        second.k > 0 ==> 0 < second_scheme.blocking.kc,
        crate::half_precision::pure_multiplied(
            p,
            alpha,
            beta,
            math,
            dispatcher,
            scheme,
            pre,
            whole,
        ),
        crate::half_precision::pure_multiplied(
            first,
            alpha,
            beta,
            math,
            dispatcher,
            first_scheme,
            pre,
            mid,
        ),
        crate::half_precision::pure_multiplied(
            second,
            one,
            beta,
            math,
            dispatcher,
            second_scheme,
            mid,
            post,
        ),
    ensures
        forall|i: int, j: int|
            0 <= i < p.m && 0 <= j < p.n ==> (m.stored)(post[#[trigger] p.dst_layout.index(i, j)])
                == (m.stored)(whole[p.dst_layout.index(i, j)]),
        p.dst_layout.same_beside(whole, post, p.m as int, 0, p.n as int),
{
    assert forall|i: int, j: int| 0 <= i < p.m && 0 <= j < p.n implies (m.stored)(
        post[#[trigger] p.dst_layout.index(i, j)],
    ) == (m.stored)(whole[p.dst_layout.index(i, j)]) by {
        crate::half_exact::law_pure_formula(
            m,
            p,
            alpha,
            beta,
            math,
            dispatcher,
            scheme,
            pre,
            whole,
            i,
            j,
        );
        crate::half_exact::law_pure_formula(
            m,
            first,
            alpha,
            beta,
            math,
            dispatcher,
            first_scheme,
            pre,
            mid,
            i,
            j,
        );
        crate::half_exact::law_pure_formula(
            m,
            second,
            one,
            beta,
            math,
            dispatcher,
            second_scheme,
            mid,
            post,
            i,
            j,
        );
        lemma_half_depth_formula(m, p, first, second, alpha, beta, one, pre, mid, i, j);
    }
}

/// A product of half precision numbers that is computed in single precision is that of the first part
/// of its depth followed by one that adds that of the rest, where what is computed for the three of
/// them is exact.
pub proof fn law_mixed_cut_depth<
    R,
    W: Fn(Half) -> Single,
    U: for <'a>Fn(&'a [Half]) -> Vec<Single>,
    P: Fn(Single) -> Half,
    A: Fn(Single, Single) -> Single,
    M: Fn(Single, Single) -> Single,
    H: Fn(Half, Half) -> Half,
    F: for <'a>Fn(KernelCall<'a, Single>) -> Vec<Single>,
    const NR: usize,
    const MR_DIV_N: usize,
>(
    m: Meaning<Single, R>,
    p: Problem<Half>,
    first: Problem<Half>,
    second: Problem<Half>,
    alpha: Half,
    beta: Half,
    one: Half,
    widen: Through<W, U>,
    math: SingleMath<P, A, M>,
    half_times: H,
    dispatcher: [[F; NR]; MR_DIV_N],
    scheme: Scheme<Single>,
    first_scheme: Scheme<Single>,
    second_scheme: Scheme<Single>,
    pre: Seq<Half>,
    mid: Seq<Half>,
    post: Seq<Half>,
    whole: Seq<Half>,
)
    requires
        m.lawful(),
        crate::half_exact::widens_exactly(m, widen),
        cut_depth(p, first, second),
        one.equals(Half::one_value()),
        crate::half_exact::mixed_computes_exactly(
            m,
            p,
            alpha,
            beta,
            widen,
            math,
            half_times,
            dispatcher,
            scheme,
            pre,
        ),
        crate::half_exact::mixed_computes_exactly(
            m,
            first,
            alpha,
            beta,
            widen,
            math,
            half_times,
            dispatcher,
            first_scheme,
            pre,
        ),
        crate::half_exact::mixed_computes_exactly(
            m,
            second,
            one,
            beta,
            widen,
            math,
            half_times,
            dispatcher,
            second_scheme,
            mid,
        ),
        p.k > 0 ==> 0 < scheme.blocking.kc,
        first.k > 0 ==> 0 < first_scheme.blocking.kc,
        second.k > 0 ==> 0 < second_scheme.blocking.kc,
        crate::half_precision::mixed_multiplied(
            p,
            alpha,
            beta,
            widen,
            math,
            half_times,
            dispatcher,
            scheme,
            pre,
            whole,
        ),
        crate::half_precision::mixed_multiplied(
            first,
            alpha,
            beta,
            widen,
            math,
            half_times,
            dispatcher,
            first_scheme,
            pre,
            mid,
        ),
        crate::half_precision::mixed_multiplied(
            second,
            one,
            beta,
            widen,
            math,
            half_times,
            dispatcher,
            second_scheme,
            mid,
            post,
        ),
    ensures
        forall|i: int, j: int|
            0 <= i < p.m && 0 <= j < p.n ==> (m.stored)(post[#[trigger] p.dst_layout.index(i, j)])
                == (m.stored)(whole[p.dst_layout.index(i, j)]),
        p.dst_layout.same_beside(whole, post, p.m as int, 0, p.n as int),
{
    assert forall|i: int, j: int| 0 <= i < p.m && 0 <= j < p.n implies (m.stored)(
        post[#[trigger] p.dst_layout.index(i, j)],
    ) == (m.stored)(whole[p.dst_layout.index(i, j)]) by {
        crate::half_exact::law_mixed_formula(
            m,
            p,
            alpha,
            beta,
            widen,
            math,
            half_times,
            dispatcher,
            scheme,
            pre,
            whole,
            i,
            j,
        );
        crate::half_exact::law_mixed_formula(
            m,
            first,
            alpha,
            beta,
            widen,
            math,
            half_times,
            dispatcher,
            first_scheme,
            pre,
            mid,
            i,
            j,
        );
        crate::half_exact::law_mixed_formula(
            m,
            second,
            one,
            beta,
            widen,
            math,
            half_times,
            dispatcher,
            second_scheme,
            mid,
            post,
            i,
            j,
        );
        lemma_half_depth_formula(m, p, first, second, alpha, beta, one, pre, mid, i, j);
    }
}

/// The factors of the transposed product: those of the operands change places.
pub open spec fn transposed_factors<T>(f: Factors<T>) -> Factors<T> {
    Factors {
        alpha: f.alpha,
        beta: f.beta,
        conj_dst: f.conj_dst,
        conj_lhs: f.conj_rhs,
        conj_rhs: f.conj_lhs,
    }
}

/// The formula for an entry is the same in the transposed product.
proof fn lemma_transposed_formula<T: Number, R>(
    alg: Algebra<T, R>,
    p: Problem<T>,
    f: Factors<T>,
    pre: Seq<T>,
    i: int,
    j: int,
)
    requires
        forall|b: T, conj_x: bool, conj_y: bool, x: T, y: T| #[trigger]
            (alg.term)(b, conj_x, conj_y, x, y) == (alg.term)(b, conj_y, conj_x, y, x),
    ensures
        crate::gemm::transposed_problem(p).dst_layout.index(j, i) == p.dst_layout.index(i, j),
        crate::exact::entry_formula(
            alg,
            crate::gemm::transposed_problem(p),
            transposed_factors(f),
            pre,
            j,
            i,
        ) == crate::exact::entry_formula(alg, p, f, pre, i, j),
{
    let t = crate::gemm::transposed_problem(p);
    let g = transposed_factors(f);
    assert(t.dst_layout.index(j, i) == p.dst_layout.index(i, j)) by {
        reveal(Layout::index);
    }
    let there = |d: int|
        (alg.term)(
            g.beta,
            g.conj_lhs,
            g.conj_rhs,
            (|d: int| t.lhs@[t.lhs_layout.index(j, d)])(d),
            (|d: int| t.rhs@[t.rhs_layout.index(d, i)])(d),
        );
    let here = |d: int|
        (alg.term)(
            f.beta,
            f.conj_lhs,
            f.conj_rhs,
            (|d: int| p.lhs@[p.lhs_layout.index(i, d)])(d),
            (|d: int| p.rhs@[p.rhs_layout.index(d, j)])(d),
        );
    assert forall|d: int| 0 <= d < p.k implies #[trigger] there(d) == here(d + 0) by {
        assert(t.lhs_layout.index(j, d) == p.rhs_layout.index(d, j)) by {
            reveal(Layout::index);
        }
        assert(t.rhs_layout.index(d, i) == p.lhs_layout.index(i, d)) by {
            reveal(Layout::index);
        }
    }
    alg.sum.lemma_shift(there, here, 0, p.k as int, 0);
}

/// The transposed product leaves what the product leaves, where what is computed for either is exact
/// and the factors of a product can be exchanged.
pub proof fn law_gemm_transposed<
    T: Number,
    R,
    M: Fn(T, T) -> T,
    O: for <'a>Fn(ProductCall<'a, T>) -> Vec<T>,
    V: for <'a>Fn(ProductCall<'a, T>) -> Vec<T>,
    F: for <'a>Fn(KernelCall<'a, T>) -> Vec<T>,
    const NR: usize,
    const MR_DIV_N: usize,
>(
    alg: Algebra<T, R>,
    p: Problem<T>,
    f: Factors<T>,
    times: M,
    outer: O,
    vector: V,
    dispatcher: [[F; NR]; MR_DIV_N],
    scheme: Scheme<T>,
    other_scheme: Scheme<T>,
    pre: Seq<T>,
    post: Seq<T>,
    other: Seq<T>,
)
    requires
        alg.lawful(),
        forall|b: T, conj_x: bool, conj_y: bool, x: T, y: T| #[trigger]
            (alg.term)(b, conj_x, conj_y, x, y) == (alg.term)(b, conj_y, conj_x, y, x),
        alg.computes_exactly(p, f, times, outer, vector, dispatcher, scheme, pre),
        alg.computes_exactly(
            crate::gemm::transposed_problem(p),
            transposed_factors(f),
            times,
            outer,
            vector,
            dispatcher,
            other_scheme,
            pre,
        ),
        crate::gemm::route_of(p, f) is Blocked ==> 0 < scheme.blocking.kc,
        crate::gemm::route_of(
            crate::gemm::transposed_problem(p),
            transposed_factors(f),
        ) is Blocked ==> 0 < other_scheme.blocking.kc,
        crate::gemm::multiplied(p, f, times, outer, vector, dispatcher, scheme, pre, post),
        crate::gemm::multiplied(
            crate::gemm::transposed_problem(p),
            transposed_factors(f),
            times,
            outer,
            vector,
            dispatcher,
            other_scheme,
            pre,
            other,
        ),
    ensures
        forall|i: int, j: int|
            0 <= i < p.m && 0 <= j < p.n ==> (alg.value)(
                other[#[trigger] p.dst_layout.index(i, j)],
            ) == (alg.value)(post[p.dst_layout.index(i, j)]),
{
    let t = crate::gemm::transposed_problem(p);
    let g = transposed_factors(f);
    assert forall|i: int, j: int| 0 <= i < p.m && 0 <= j < p.n implies (alg.value)(
        other[#[trigger] p.dst_layout.index(i, j)],
    ) == (alg.value)(post[p.dst_layout.index(i, j)]) by {
        crate::exact::law_gemm_formula(
            alg,
            p,
            f,
            times,
            outer,
            vector,
            dispatcher,
            scheme,
            pre,
            post,
            i,
            j,
        );
        crate::exact::law_gemm_formula(
            alg,
            t,
            g,
            times,
            outer,
            vector,
            dispatcher,
            other_scheme,
            pre,
            other,
            j,
            i,
        );
        lemma_transposed_formula(alg, p, f, pre, i, j);
    }
}

} // verus!
