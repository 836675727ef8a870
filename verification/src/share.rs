//! Even division of numbered work among threads.

use vstd::prelude::*;

verus! {

/// The quotient of `a` by `b`, rounded up.
pub open spec fn ceil_quotient(a: int, b: int) -> int {
    (a + b - 1) / b
}

/// First item of share `t` when `total` items are dealt out in order to `parts` shares, the
/// leading `total % parts` of which get one item more than the others.
pub open spec fn share_start(total: int, parts: int, t: int) -> int {
    t * (total / parts) + if t < total % parts {
        t
    } else {
        total % parts
    }
}

/// The quotient of `a` by `b`, rounded up.
pub fn div_ceil(a: usize, b: usize) -> (q: usize)
    requires
        b > 0,
    ensures
        q == ceil_quotient(a as int, b as int),
{
    let q: usize = a / b;
    proof {
        lemma_ceil_quotient(a as int, b as int);
    }
    if a % b == 0 {
        q
    } else {
        proof {
            assert(a / b < a || b == 1) by (nonlinear_arith)
                requires
                    b > 0,
                    a > 0,
            ;
        }
        q + 1
    }
}

/// The items of share `tid` out of `n_threads`, as a half-open range.
pub fn share(total: usize, n_threads: usize, tid: usize) -> (r: (usize, usize))
    requires
        tid < n_threads,
    ensures
        r.0 == share_start(total as int, n_threads as int, tid as int),
        r.1 == share_start(total as int, n_threads as int, tid + 1),
        r.0 <= r.1 <= total,
{
    let least: usize = total / n_threads;
    let rem: usize = total % n_threads;
    proof {
        lemma_share_bounds(total as int, n_threads as int, tid as int);
        lemma_share_bounds(total as int, n_threads as int, tid + 1);
        lemma_share_step(total as int, n_threads as int, tid as int);
        let q = least as int;
        assert(tid * (q + 1) == tid * q + tid) by (nonlinear_arith);
        assert(0 <= tid * q) by (nonlinear_arith)
            requires
                0 <= q,
                0 <= tid,
        ;
    }
    if tid < rem {
        let start: usize = tid * (least + 1);
        (start, start + least + 1)
    } else {
        let start: usize = tid * least + rem;
        (start, start + least)
    }
}

/// First column of share `t` when `n` columns are dealt out to `parts` shares in groups of `nr`.
/// Only the last group may be smaller.
pub open spec fn column_share(n: int, nr: int, parts: int, t: int) -> int {
    let start = nr * share_start(ceil_quotient(n, nr), parts, t);
    if start < n {
        start
    } else {
        n
    }
}

/// First column of share `tid`. See [`column_share`].
pub fn column_start(n: usize, nr: usize, n_threads: usize, tid: usize) -> (col: usize)
    requires
        0 < nr,
        tid <= n_threads,
        0 < n_threads,
        nr * ceil_quotient(n as int, nr as int) <= usize::MAX,
    ensures
        col == column_share(n as int, nr as int, n_threads as int, tid as int),
{
    let n_tasks: usize = div_ceil(n, nr);
    let least: usize = n_tasks / n_threads;
    let rem: usize = n_tasks % n_threads;
    let ghost start = share_start(n_tasks as int, n_threads as int, tid as int);
    proof {
        lemma_share_bounds(n_tasks as int, n_threads as int, tid as int);
        lemma_ceil_quotient(n as int, nr as int);
        if tid < n_threads {
            lemma_share_bounds(n_tasks as int, n_threads as int, tid + 1);
            lemma_share_step(n_tasks as int, n_threads as int, tid as int);
        }
        let q = least as int;
        assert(0 <= nr * start <= nr * n_tasks) by (nonlinear_arith)
            requires
                0 <= start <= n_tasks,
                0 < nr,
        ;
        assert(tid * (q + 1) == tid * q + tid) by (nonlinear_arith);
        assert(0 <= tid * q) by (nonlinear_arith)
            requires
                0 <= q,
                0 <= tid,
        ;
    }
    if tid == n_threads {
        return n;
    }
    let group: usize = if tid < rem {
        tid * (least + 1)
    } else {
        rem + tid * least
    };
    let col: usize = nr * group;
    if col < n {
        col
    } else {
        n
    }
}

pub proof fn lemma_ceil_quotient(a: int, b: int)
    requires
        b > 0,
    ensures
        ceil_quotient(a, b) == a / b + if a % b == 0 {
            0int
        } else {
            1
        },
        b * ceil_quotient(a, b) >= a,
        b * (ceil_quotient(a, b) - 1) < a,
        a >= 0 ==> ceil_quotient(a, b) >= 0,
        a > 0 ==> 1 <= ceil_quotient(a, b) <= a,
{
    let q = a / b;
    let r = a % b;
    vstd::arithmetic::div_mod::lemma_fundamental_div_mod(a, b);
    assert(a == b * q + r);
    if r == 0 {
        vstd::arithmetic::div_mod::lemma_fundamental_div_mod_converse(a + b - 1, b, q, b - 1);
    } else {
        assert(a + b - 1 == b * (q + 1) + (r - 1)) by (nonlinear_arith)
            requires
                a == b * q + r,
        ;
        vstd::arithmetic::div_mod::lemma_fundamental_div_mod_converse(a + b - 1, b, q + 1, r - 1);
    }
    let c = ceil_quotient(a, b);
    assert(b * (c - 1) == b * c - b) by (nonlinear_arith);
    assert(b * (q + 1) == b * q + b) by (nonlinear_arith);
    if a >= 0 {
        assert(q >= 0) by (nonlinear_arith)
            requires
                a == b * q + r,
                r < b,
                a >= 0,
                b > 0,
        ;
    }
    if a > 0 {
        assert(1 <= c <= a) by (nonlinear_arith)
            requires
                b * c >= a,
                b * (c - 1) < a,
                a > 0,
                b > 0,
        ;
    }
}

/// Shares follow one another without gap or overlap, and each holds `total / parts` items or one
/// more.
pub proof fn lemma_share_step(total: int, parts: int, t: int)
    requires
        0 <= t,
    ensures
        share_start(total, parts, t + 1) == share_start(total, parts, t) + total / parts + if t
            < total % parts {
            1int
        } else {
            0
        },
{
    let q = total / parts;
    assert((t + 1) * q == t * q + q) by (nonlinear_arith);
}

/// The first share starts at the first item and the last one ends with the last item; every start
/// lies between.
pub proof fn lemma_share_bounds(total: int, parts: int, t: int)
    requires
        0 <= total,
        0 < parts,
        0 <= t <= parts,
    ensures
        share_start(total, parts, 0) == 0,
        share_start(total, parts, parts) == total,
        0 <= share_start(total, parts, t) <= total,
{
    let q = total / parts;
    let r = total % parts;
    vstd::arithmetic::div_mod::lemma_fundamental_div_mod(total, parts);
    assert(0 <= q) by (nonlinear_arith)
        requires
            total == parts * q + r,
            0 <= total,
            r < parts,
            0 < parts,
    ;
    assert(parts * q + r == total);
    assert(0 <= t * q <= parts * q) by (nonlinear_arith)
        requires
            0 <= t <= parts,
            0 <= q,
    ;
    assert(0 * q == 0);
}

/// A later share never starts before an earlier one.
pub proof fn lemma_share_ordered(total: int, parts: int, s: int, t: int)
    requires
        0 <= total,
        0 < parts,
        0 <= s <= t,
    ensures
        share_start(total, parts, s) <= share_start(total, parts, t),
    decreases t - s,
{
    if s < t {
        lemma_share_ordered(total, parts, s, t - 1);
        lemma_share_step(total, parts, t - 1);
        assert(total / parts >= 0) by (nonlinear_arith)
            requires
                0 <= total,
                0 < parts,
        ;
    }
}

/// Every item belongs to some share.
pub proof fn lemma_share_covers(total: int, parts: int, item: int) -> (t: int)
    requires
        0 < parts,
        0 <= item < total,
    ensures
        0 <= t < parts,
        share_start(total, parts, t) <= item < share_start(total, parts, t + 1),
{
    lemma_share_bounds(total, parts, parts);
    lemma_share_search(total, parts, item, parts)
}

proof fn lemma_share_search(total: int, parts: int, item: int, hi: int) -> (t: int)
    requires
        0 < hi <= parts,
        0 <= item < total,
        item < share_start(total, parts, hi),
    ensures
        0 <= t < parts,
        share_start(total, parts, t) <= item < share_start(total, parts, t + 1),
    decreases hi,
{
    if share_start(total, parts, hi - 1) <= item {
        hi - 1
    } else {
        lemma_share_bounds(total, parts, 0);
        lemma_share_search(total, parts, item, hi - 1)
    }
}

/// Every item belongs to exactly one share: what is dealt out to threads is neither left out nor
/// done twice.
pub proof fn law_one_share_per_item(total: int, parts: int, item: int, s: int, t: int)
    requires
        0 < parts,
        0 <= item < total,
        0 <= s < parts,
        0 <= t < parts,
    ensures
        exists|u: int|
            0 <= u < parts && #[trigger] share_start(total, parts, u) <= item < share_start(
                total,
                parts,
                u + 1,
            ),
        share_start(total, parts, s) <= item < share_start(total, parts, s + 1) && share_start(
            total,
            parts,
            t,
        ) <= item < share_start(total, parts, t + 1) ==> s == t,
{
    let u = lemma_share_covers(total, parts, item);
    assert(share_start(total, parts, u) <= item);
    if s < t {
        lemma_share_ordered(total, parts, s + 1, t);
    }
    if t < s {
        lemma_share_ordered(total, parts, t + 1, s);
    }
}

/// The rounded quotient is the smallest number of groups of `b` that hold `a` items.
pub proof fn law_div_ceil(a: usize, b: usize, q: usize)
    requires
        0 < b,
        call_ensures(div_ceil, (a, b), q),
    ensures
        b * q >= a,
        q > 0 ==> b * (q - 1) < a,
{
    lemma_ceil_quotient(a as int, b as int);
}

/// Shares are even, in order and without a gap: an earlier share is as large as a later one or larger
/// by one item, every share starts where the one before it ends, the first starts with the first item,
/// and the last ends with the last one.
pub proof fn law_even_shares(
    total: usize,
    n_threads: usize,
    s: usize,
    t: usize,
    first: (usize, usize),
    second: (usize, usize),
)
    requires
        s <= t < n_threads,
        call_ensures(share, (total, n_threads, s), first),
        call_ensures(share, (total, n_threads, t), second),
    ensures
        first.0 <= first.1,
        second.1 - second.0 <= first.1 - first.0 <= second.1 - second.0 + 1,
        t == s + 1 ==> first.1 == second.0,
        s == 0 ==> first.0 == 0,
        t == n_threads - 1 ==> second.1 == total,
{
    lemma_share_step(total as int, n_threads as int, s as int);
    lemma_share_step(total as int, n_threads as int, t as int);
    lemma_share_bounds(total as int, n_threads as int, s as int);
    lemma_share_bounds(total as int, n_threads as int, n_threads as int);
}

/// Groups of `nr` columns are dealt out evenly: every share starts with a whole group or is empty at the
/// end, the first starts with the first column, the last ends with the last one, and an earlier share
/// has as many groups as a later one or one more. `starts` are the first columns of all shares, and the
/// end of the last one.
pub proof fn law_even_columns(n: usize, nr: usize, n_threads: usize, starts: Seq<usize>)
    requires
        0 < nr,
        0 < n_threads,
        starts.len() == n_threads + 1,
        forall|t: int|
            0 <= t <= n_threads ==> call_ensures(
                column_start,
                (n, nr, n_threads, t as usize),
                #[trigger] starts[t],
            ),
    ensures
        starts[0] == 0,
        starts[n_threads as int] == n,
        forall|t: int|
            0 <= t <= n_threads ==> #[trigger] starts[t] == n || starts[t] as int % nr as int == 0,
        forall|s: int, t: int|
            0 <= s <= t < n_threads ==> {
                let a = groups(#[trigger] starts[s], starts[s + 1], nr);
                let b = groups(#[trigger] starts[t], starts[t + 1], nr);
                0 <= b <= a <= b + 1
            },
{
    let total = ceil_quotient(n as int, nr as int);
    lemma_ceil_quotient(n as int, nr as int);
    assert forall|t: int| 0 <= t <= n_threads implies #[trigger] starts[t] == column_share(
        n as int,
        nr as int,
        n_threads as int,
        t,
    ) && (starts[t] == n || starts[t] as int % nr as int == 0) by {
        assert(call_ensures(column_start, (n, nr, n_threads, t as usize), starts[t]));
        let at = share_start(total, n_threads as int, t);
        vstd::arithmetic::div_mod::lemma_mod_multiples_basic(at, nr as int);
        assert(nr * at == at * nr) by (nonlinear_arith);
    }
    lemma_share_bounds(total, n_threads as int, 0);
    assert(nr * 0 == 0);
    assert(nr * total >= n);
    assert forall|s: int, t: int| 0 <= s <= t < n_threads implies {
        let a = groups(#[trigger] starts[s], starts[s + 1], nr);
        let b = groups(#[trigger] starts[t], starts[t + 1], nr);
        0 <= b <= a <= b + 1
    } by {
        assert(starts[s + 1] == column_share(n as int, nr as int, n_threads as int, s + 1));
        assert(starts[t + 1] == column_share(n as int, nr as int, n_threads as int, t + 1));
        lemma_group_count(n as int, nr as int, n_threads as int, s);
        lemma_group_count(n as int, nr as int, n_threads as int, t);
        lemma_share_step(total, n_threads as int, s);
        lemma_share_step(total, n_threads as int, t);
        assert(0 <= total / (n_threads as int)) by (nonlinear_arith)
            requires
                0 <= total,
                0 < n_threads,
        ;
    }
}

/// Number of groups of `nr` columns between two columns; the last one may be smaller.
pub open spec fn groups(from: usize, to: usize, nr: usize) -> int {
    ceil_quotient(to - from, nr as int)
}

/// A share of the columns has as many groups as it is dealt.
proof fn lemma_group_count(n: int, nr: int, parts: int, t: int)
    requires
        0 <= n,
        0 < nr,
        0 < parts,
        0 <= t < parts,
    ensures
        ceil_quotient(
            column_share(n, nr, parts, t + 1) - column_share(n, nr, parts, t),
            nr,
        ) == share_start(ceil_quotient(n, nr), parts, t + 1) - share_start(
            ceil_quotient(n, nr),
            parts,
            t,
        ),
{
    let total = ceil_quotient(n, nr);
    lemma_ceil_quotient(n, nr);
    lemma_share_bounds(total, parts, t);
    lemma_share_bounds(total, parts, t + 1);
    lemma_share_ordered(total, parts, t, t + 1);
    let a = share_start(total, parts, t);
    let b = share_start(total, parts, t + 1);
    lemma_group_end(n, nr, a);
    lemma_group_end(n, nr, b);
    let len = column_share(n, nr, parts, t + 1) - column_share(n, nr, parts, t);
    lemma_ceil_quotient(len, nr);
    let q = ceil_quotient(len, nr);
    assert(nr * (b - a) == nr * b - nr * a) by (nonlinear_arith);
    assert(nr * (b - a - 1) == nr * b - nr * a - nr) by (nonlinear_arith);
    assert(nr * (q - 1) == nr * q - nr) by (nonlinear_arith);
    if a == b {
        assert(nr * q >= 0 && nr * (q - 1) < 0);
        assert(q == 0) by (nonlinear_arith)
            requires
                nr * q >= 0,
                nr * (q - 1) < 0,
                0 < nr,
        ;
    } else {
        assert(nr * a < n);
        assert(nr * (b - 1) == nr * b - nr) by (nonlinear_arith);
        assert(q == b - a) by (nonlinear_arith)
            requires
                nr * q >= len,
                nr * (q - 1) < len,
                nr * (b - a - 1) < len,
                len <= nr * (b - a),
                0 < nr,
        ;
    }
}

/// Where the first `g` groups end.
proof fn lemma_group_end(n: int, nr: int, g: int)
    requires
        0 <= n,
        0 < nr,
        0 <= g <= ceil_quotient(n, nr),
    ensures
        g < ceil_quotient(n, nr) ==> nr * g < n,
        nr * (g - 1) < n || g == 0,
        g == ceil_quotient(n, nr) ==> nr * g >= n,
{
    lemma_ceil_quotient(n, nr);
    let total = ceil_quotient(n, nr);
    assert(g < total ==> nr * g <= nr * (total - 1)) by (nonlinear_arith)
        requires
            0 < nr,
    ;
    assert(nr * (g - 1) <= nr * (total - 1)) by (nonlinear_arith)
        requires
            0 < nr,
            g <= total,
    ;
}

} // verus!
