//! Copying operand panels into the order in which the kernels read them.
//!
//! A packed panel holds `W` rows of the source. Its column `d` fills `W` consecutive elements, so
//! that row `j` of column `d` sits at [`slot`]`(at, W, j, d)`.

use crate::convert::Convert;
use crate::layout::Layout;
use vstd::prelude::*;

verus! {

/// Buffer index of row `j`, column `d` of the packed panel that starts at `at` and is `w` rows
/// wide.
#[verifier::opaque]
pub open spec fn slot(at: int, w: int, j: int, d: int) -> int {
    at + d * w + j
}

/// The first `width` rows of the packed panel at `at` are conversions of the rows of the source
/// from `row` on.
pub open spec fn panel_packed<T, C, V: Convert<T, C>>(
    conv: V,
    src: Seq<T>,
    layout: Layout,
    row: int,
    width: int,
    k: int,
    buf: Seq<C>,
    at: int,
    w: int,
) -> bool {
    forall|j: int, d: int|
        0 <= j < width && 0 <= d < k ==> conv.converts(
            src[layout.index(row + j, d)],
            buf[#[trigger] slot(at, w, j, d)],
        )
}

/// What packing leaves in the rows of a panel that the source does not fill: they keep what they
/// held where the source is one or two vectors wide, and are zero otherwise.
pub open spec fn padding<C>(
    lanes: int,
    width: int,
    k: int,
    zero: C,
    pre: Seq<C>,
    post: Seq<C>,
    at: int,
    w: int,
) -> bool {
    forall|j: int, d: int|
        width <= j < w && 0 <= d < k ==> post[#[trigger] slot(at, w, j, d)] == if width == lanes
            || width == 2 * lanes {
            pre[slot(at, w, j, d)]
        } else {
            zero
        }
}

/// `post` differs from `pre` only inside `lo..hi`.
pub open spec fn same_outside<C>(pre: Seq<C>, post: Seq<C>, lo: int, hi: int) -> bool {
    &&& post.len() == pre.len()
    &&& forall|p: int| 0 <= p < pre.len() && !(lo <= p < hi) ==> #[trigger] post[p] == pre[p]
}

/// Where panel `g` starts.
pub open spec fn panel_start(at: int, stride: int, g: int) -> int {
    at + g * stride
}

/// Number of rows that panel `g` gets out of `m`.
pub open spec fn panel_rows(m: int, w: int, g: int) -> int {
    if w < m - g * w {
        w
    } else {
        m - g * w
    }
}

/// Panel `g` of the packed operand holds conversions of the rows of the source from `g * w` on.
pub open spec fn holds_panel<T, C, V: Convert<T, C>>(
    conv: V,
    src: Seq<T>,
    layout: Layout,
    m: int,
    k: int,
    buf: Seq<C>,
    at: int,
    w: int,
    stride: int,
    g: int,
) -> bool {
    panel_packed(
        conv,
        src,
        layout,
        g * w,
        panel_rows(m, w, g),
        k,
        buf,
        panel_start(at, stride, g),
        w,
    )
}

/// All `m` rows of the source are packed, in panels of `w` rows that start `stride` elements apart.
pub open spec fn operand_packed<T, C, V: Convert<T, C>>(
    conv: V,
    src: Seq<T>,
    layout: Layout,
    m: int,
    k: int,
    buf: Seq<C>,
    at: int,
    w: int,
    stride: int,
) -> bool {
    forall|g: int|
        0 <= g < crate::share::ceil_quotient(m, w) ==> #[trigger] holds_panel(
            conv,
            src,
            layout,
            m,
            k,
            buf,
            at,
            w,
            stride,
            g,
        )
}

/// `post` differs from `pre` only inside the first `panels` panels of `size` elements each.
pub open spec fn same_outside_panels<C>(
    pre: Seq<C>,
    post: Seq<C>,
    at: int,
    stride: int,
    panels: int,
    size: int,
) -> bool {
    &&& post.len() == pre.len()
    &&& forall|p: int|
        0 <= p < pre.len() && (forall|g: int|
            0 <= g < panels ==> !(#[trigger] panel_start(at, stride, g) <= p < panel_start(
                at,
                stride,
                g,
            ) + size)) ==> #[trigger] post[p] == pre[p]
}

/// Overwrites the elements from `at` on with `values`.
pub(crate) fn store_run<C: Copy>(dst: &mut [C], at: usize, values: &Vec<C>)
    requires
        at + values@.len() <= old(dst)@.len(),
    ensures
        final(dst)@.len() == old(dst)@.len(),
        same_outside(old(dst)@, final(dst)@, at as int, at + values@.len()),
        forall|i: int| 0 <= i < values@.len() ==> final(dst)@[at + i] == #[trigger] values@[i],
{
    let len: usize = dst.len();
    let mut i: usize = 0;
    while i < values.len()
        invariant
            i <= values@.len(),
            at + values@.len() <= dst@.len() == len,
            same_outside(old(dst)@, dst@, at as int, at + values@.len()),
            forall|t: int| 0 <= t < i ==> dst@[at + t] == #[trigger] values@[t],
        decreases values@.len() - i,
    {
        dst[at + i] = values[i];
        i = i + 1;
    }
}

/// Overwrites `len` elements from `at` on with `zero`.
pub(crate) fn quick_zero<C: Copy>(dst: &mut [C], at: usize, len: usize, zero: C)
    requires
        at + len <= old(dst)@.len(),
    ensures
        same_outside(old(dst)@, final(dst)@, at as int, at + len),
        forall|p: int| at <= p < at + len ==> #[trigger] final(dst)@[p] == zero,
{
    let whole: usize = dst.len();
    let mut i: usize = 0;
    while i < len
        invariant
            i <= len,
            at + len <= dst@.len() == whole,
            same_outside(old(dst)@, dst@, at as int, at + len),
            forall|p: int| at <= p < at + i ==> #[trigger] dst@[p] == zero,
        decreases len - i,
    {
        dst[at + i] = zero;
        i = i + 1;
    }
}

/// Converts the first `width` rows of column `d`. Neighbouring rows are converted in one go where
/// `in_one_run` is set.
fn read_column<T: Copy, C: Copy, V: Convert<T, C>>(
    conv: &V,
    src: &[T],
    layout: Layout,
    d: usize,
    width: usize,
    in_one_run: bool,
) -> (out: Vec<C>)
    requires
        conv.ready(),
        layout.fits(src@.len() as int, width as int, d + 1),
        in_one_run ==> layout.rs == 1 && width > 0,
    ensures
        out@.len() == width,
        forall|j: int|
            0 <= j < width ==> conv.converts(
                src@[layout.index(j, d as int)],
                #[trigger] out@[j],
            ),
{
    if in_one_run {
        proof {
            assert(0 <= layout.index(0, d as int) < src@.len());
            assert(0 <= layout.index(width - 1, d as int) < src@.len());
            assert(src@.len() == src.len());
            reveal(Layout::index);
        }
        let first: usize = layout.locate(0, d);
        let out = conv.convert_run(&src[first..first + width]);
        proof {
            reveal(Layout::index);
        }
        out
    } else {
        let mut out: Vec<C> = Vec::new();
        let mut j: usize = 0;
        while j < width
            invariant
                conv.ready(),
                layout.fits(src@.len() as int, width as int, d + 1),
                j <= width,
                out@.len() == j,
                forall|t: int|
                    0 <= t < j ==> conv.converts(
                        src@[layout.index(t, d as int)],
                        #[trigger] out@[t],
                    ),
            decreases width - j,
        {
            assert(0 <= layout.index(j as int, d as int) < src@.len() == src.len());
            out.push(conv.convert(src[layout.locate(j, d)]));
            j = j + 1;
        }
        out
    }
}

/// Packs `k` columns of `src_width` rows into one panel of `W` rows.
pub fn pack_generic_inner_loop<
    T: Copy,
    C: Copy,
    V: Convert<T, C>,
    const N: usize,
    const W: usize,
>(
    conv: &V,
    dst: &mut [C],
    dst_at: usize,
    src: &[T],
    layout: Layout,
    src_width: usize,
    k: usize,
    zero: C,
)
    requires
        conv.ready(),
        0 < W <= isize::MAX,
        N <= isize::MAX,
        src_width <= W,
        layout.fits(src@.len() as int, src_width as int, k as int),
        dst_at + k * W <= old(dst)@.len(),
    ensures
        same_outside(old(dst)@, final(dst)@, dst_at as int, dst_at + k * W),
        panel_packed(
            *conv,
            src@,
            layout,
            0,
            src_width as int,
            k as int,
            final(dst)@,
            dst_at as int,
            W as int,
        ),
        padding(
            N as int,
            src_width as int,
            k as int,
            zero,
            old(dst)@,
            final(dst)@,
            dst_at as int,
            W as int,
        ),
{
    let keeps_rest: bool = src_width == W || src_width == N || src_width == 2 * N;
    let in_one_run: bool = keeps_rest && layout.rs == 1 && src_width > 0;
    let len: usize = dst.len();
    let mut d: usize = 0;
    let mut at: usize = dst_at;
    while d < k
        invariant
            conv.ready(),
            0 < W <= isize::MAX,
            N <= isize::MAX,
            src_width <= W,
            layout.fits(src@.len() as int, src_width as int, k as int),
            dst_at + k * W <= old(dst)@.len() == len,
            keeps_rest == (src_width == W || src_width == N || src_width == 2 * N),
            in_one_run ==> layout.rs == 1 && src_width > 0,
            d <= k,
            at == dst_at + d * W,
            same_outside(old(dst)@, dst@, dst_at as int, at as int),
            panel_packed(
                *conv,
                src@,
                layout,
                0,
                src_width as int,
                d as int,
                dst@,
                dst_at as int,
                W as int,
            ),
            padding(
                N as int,
                src_width as int,
                d as int,
                zero,
                old(dst)@,
                dst@,
                dst_at as int,
                W as int,
            ),
        decreases k - d,
    {
        let ghost before = dst@;
        proof {
            assert((d + 1) * W == d * W + W) by (nonlinear_arith);
            assert((d + 1) * W <= k * W) by (nonlinear_arith)
                requires
                    d < k,
            ;
        }
        let column = read_column(conv, src, layout, d, src_width, in_one_run);
        store_run(dst, at, &column);
        if !keeps_rest {
            quick_zero(dst, at + src_width, W - src_width, zero);
        }
        proof {
            assert forall|j: int, e: int| 0 <= j < src_width && 0 <= e < d + 1 implies conv.converts(
                src@[layout.index(0 + j, e)],
                dst@[#[trigger] slot(dst_at as int, W as int, j, e)],
            ) by {
                lemma_slot(dst_at as int, W as int, j, e, d as int);
                if e == d {
                    assert(slot(dst_at as int, W as int, j, e) == at + j);
                    assert(conv.converts(src@[layout.index(j, d as int)], column@[j]));
                } else {
                    assert(dst@[slot(dst_at as int, W as int, j, e)] == before[slot(
                        dst_at as int,
                        W as int,
                        j,
                        e,
                    )]);
                }
            }
            assert forall|j: int, e: int| src_width <= j < W && 0 <= e < d + 1 implies dst@[
                #[trigger] slot(dst_at as int, W as int, j, e)] == if src_width == N || src_width
                == 2 * N {
                old(dst)@[slot(dst_at as int, W as int, j, e)]
            } else {
                zero
            } by {
                lemma_slot(dst_at as int, W as int, j, e, d as int);
                if e == d {
                    assert(slot(dst_at as int, W as int, j, e) == at + j);
                } else {
                    assert(dst@[slot(dst_at as int, W as int, j, e)] == before[slot(
                        dst_at as int,
                        W as int,
                        j,
                        e,
                    )]);
                }
            }
        }
        at = at + W;
        d = d + 1;
    }
}

/// Packs `k` columns of `m` rows into panels of `W` rows that start `dst_stride` elements apart.
pub fn pack_generic<T: Copy, C: Copy, V: Convert<T, C>, const N: usize, const W: usize>(
    conv: &V,
    m: usize,
    k: usize,
    dst: &mut [C],
    dst_at: usize,
    src: &[T],
    layout: Layout,
    dst_stride: usize,
    zero: C,
)
    requires
        conv.ready(),
        0 < W <= isize::MAX,
        N <= isize::MAX,
        m > W ==> k * W <= dst_stride,
        layout.fits(src@.len() as int, m as int, k as int),
        m > 0 && k > 0 ==> panel_start(
            dst_at as int,
            dst_stride as int,
            crate::share::ceil_quotient(m as int, W as int) - 1,
        ) + k * W <= old(dst)@.len(),
    ensures
        same_outside_panels(
            old(dst)@,
            final(dst)@,
            dst_at as int,
            dst_stride as int,
            crate::share::ceil_quotient(m as int, W as int),
            k * W,
        ),
        operand_packed(
            *conv,
            src@,
            layout,
            m as int,
            k as int,
            final(dst)@,
            dst_at as int,
            W as int,
            dst_stride as int,
        ),
        m % W != 0 ==> padding(
            N as int,
            (m % W) as int,
            k as int,
            zero,
            old(dst)@,
            final(dst)@,
            panel_start(dst_at as int, dst_stride as int, (m / W) as int),
            W as int,
        ),
{
    if m == 0 || k == 0 {
        proof {
            if m == 0 {
                crate::share::lemma_ceil_quotient(0, W as int);
            }
        }
        return ;
    }
    let len: usize = dst.len();
    let ghost panels = crate::share::ceil_quotient(m as int, W as int);
    let ghost size = k * W;
    let mut i: usize = 0;
    let mut at: usize = dst_at;
    let ghost mut g: int = 0;
    proof {
        crate::share::lemma_ceil_quotient(m as int, W as int);
        vstd::arithmetic::div_mod::lemma_fundamental_div_mod(m as int, W as int);
        assert(0 <= size) by (nonlinear_arith)
            requires
                size == k * W,
        ;
        if 1 < panels {
            assert(W <= W * (panels - 1)) by (nonlinear_arith)
                requires
                    1 <= panels - 1,
                    0 < W,
            ;
        }
        lemma_panel_before(dst_at as int, dst_stride as int, 0, panels - 1, size);
        assert(0 * dst_stride == 0);
        assert(0 * W == 0);
    }
    while i < m
        invariant
            conv.ready(),
            0 < W <= isize::MAX,
            N <= isize::MAX,
            0 < k,
            0 < m,
            size == k * W,
            0 <= size,
            1 < panels ==> size <= dst_stride,
            layout.fits(src@.len() as int, m as int, k as int),
            panels == crate::share::ceil_quotient(m as int, W as int),
            W * panels >= m,
            W * (panels - 1) < m,
            m == W * (m / W) + m % W,
            panel_start(dst_at as int, dst_stride as int, panels - 1) + size <= old(dst)@.len()
                == len,
            0 <= g <= panels,
            i < m ==> i == g * W,
            i >= m ==> g == panels,
            i < m ==> at == panel_start(dst_at as int, dst_stride as int, g),
            same_outside_panels(old(dst)@, dst@, dst_at as int, dst_stride as int, g, size),
            forall|h: int|
                0 <= h < g ==> #[trigger] holds_panel(
                    *conv,
                    src@,
                    layout,
                    m as int,
                    k as int,
                    dst@,
                    dst_at as int,
                    W as int,
                    dst_stride as int,
                    h,
                ),
            i >= m && m % W != 0 ==> padding(
                N as int,
                (m % W) as int,
                k as int,
                zero,
                old(dst)@,
                dst@,
                panel_start(dst_at as int, dst_stride as int, (m / W) as int),
                W as int,
            ),
        decreases m - i,
    {
        let ghost before = dst@;
        proof {
            assert(g < panels) by (nonlinear_arith)
                requires
                    g * W < m,
                    m <= W * panels,
                    0 < W,
            ;
            lemma_panel_before(dst_at as int, dst_stride as int, g, panels - 1, size);
            assert(0 <= layout.index(i as int, 0) < src@.len() == src.len());
        }
        let left: usize = m - i;
        let width: usize = if W < left {
            W
        } else {
            left
        };
        let panel = layout.shift(i, 0);
        proof {
            assert forall|a: int, b: int| 0 <= a < width && 0 <= b < k implies 0
                <= #[trigger] panel.index(a, b) < src@.len() by {
                assert(panel.index(a, b) == layout.index(i + a, 0 + b));
            }
        }
        pack_generic_inner_loop::<T, C, V, N, W>(conv, dst, at, src, panel, width, k, zero);
        proof {
            assert((g + 1) * W == g * W + W) by (nonlinear_arith);
            assert((g + 1) * dst_stride == g * dst_stride + dst_stride) by (nonlinear_arith);
            assert forall|h: int| 0 <= h < g + 1 implies #[trigger] holds_panel(
                *conv,
                src@,
                layout,
                m as int,
                k as int,
                dst@,
                dst_at as int,
                W as int,
                dst_stride as int,
                h,
            ) by {
                if h < g {
                    lemma_panel_before(dst_at as int, dst_stride as int, h, g, size);
                    lemma_panel_kept(
                        *conv,
                        src@,
                        layout,
                        m as int,
                        k as int,
                        before,
                        dst@,
                        dst_at as int,
                        W as int,
                        dst_stride as int,
                        h,
                        g,
                    );
                } else {
                    assert forall|j: int, d: int|
                        0 <= j < width && 0 <= d < k implies conv.converts(
                        src@[layout.index(h * W + j, d)],
                        dst@[#[trigger] slot(at as int, W as int, j, d)],
                    ) by {
                        assert(panel.index(0 + j, d) == layout.index(i + j, 0 + d));
                    }
                }
            }
            assert forall|p: int|
                0 <= p < old(dst)@.len() && (forall|h: int|
                    0 <= h < g + 1 ==> !(#[trigger] panel_start(
                        dst_at as int,
                        dst_stride as int,
                        h,
                    ) <= p < panel_start(dst_at as int, dst_stride as int, h)
                        + size)) implies #[trigger] dst@[p] == old(dst)@[p] by {
                assert(!(panel_start(dst_at as int, dst_stride as int, g) <= p < panel_start(
                    dst_at as int,
                    dst_stride as int,
                    g,
                ) + size));
                assert(before[p] == old(dst)@[p]);
            }
            if left <= W {
                assert(g + 1 == panels) by (nonlinear_arith)
                    requires
                        W * (panels - 1) < m,
                        m <= g * W + W,
                        g < panels,
                        0 < W,
                ;
                if m % W != 0 {
                    lemma_last_panel(m as int, W as int, g);
                    assert(width == m % W);
                    assert forall|j: int, d: int| width <= j < W && 0 <= d < k implies dst@[
                        #[trigger] slot(at as int, W as int, j, d)] == if width == N || width == 2
                        * N {
                        old(dst)@[slot(at as int, W as int, j, d)]
                    } else {
                        zero
                    } by {
                        let p = slot(at as int, W as int, j, d);
                        lemma_slot(at as int, W as int, j, d, k as int);
                        assert forall|h: int| 0 <= h < g implies !(#[trigger] panel_start(
                            dst_at as int,
                            dst_stride as int,
                            h,
                        ) <= p < panel_start(dst_at as int, dst_stride as int, h) + size) by {
                            lemma_panel_before(dst_at as int, dst_stride as int, h, g, size);
                        }
                        assert(before[p] == old(dst)@[p]);
                    }
                }
            } else {
                assert(g + 1 < panels) by (nonlinear_arith)
                    requires
                        g * W + W < m,
                        m <= W * panels,
                        0 < W,
                ;
                lemma_panel_before(dst_at as int, dst_stride as int, g + 1, panels - 1, size);
            }
            g = g + 1;
        }
        if left <= W {
            i = m;
        } else {
            i = i + W;
            at = at + dst_stride;
        }
    }
}

/// Panels do not overlap, and a later one starts later.
proof fn lemma_panel_before(at: int, stride: int, h: int, g: int, size: int)
    requires
        0 <= at,
        0 <= size,
        0 <= stride,
        h < g ==> size <= stride,
        0 <= h,
    ensures
        h <= g ==> at <= panel_start(at, stride, h) <= panel_start(at, stride, g),
        h < g ==> panel_start(at, stride, h) + size <= panel_start(at, stride, g),
{
    assert(0 <= h * stride) by (nonlinear_arith)
        requires
            0 <= h,
            0 <= stride,
    ;
    if h <= g {
        assert(h * stride <= g * stride) by (nonlinear_arith)
            requires
                h <= g,
                0 <= stride,
        ;
    }
    if h < g {
        assert(h * stride + stride <= g * stride) by (nonlinear_arith)
            requires
                h + 1 <= g,
                0 <= stride,
        ;
    }
}

proof fn lemma_last_panel(m: int, w: int, g: int)
    requires
        0 < w,
        0 <= g,
        g * w < m <= g * w + w,
        m % w != 0,
    ensures
        g == m / w,
        m - g * w == m % w,
{
    if m == g * w + w {
        assert(m == (g + 1) * w) by (nonlinear_arith)
            requires
                m == g * w + w,
        ;
        vstd::arithmetic::div_mod::lemma_mod_multiples_basic(g + 1, w);
    } else {
        vstd::arithmetic::div_mod::lemma_fundamental_div_mod_converse(m, w, g, m - g * w);
    }
}

/// Writing panel `g` leaves an earlier panel `h` as it was.
proof fn lemma_panel_kept<T, C, V: Convert<T, C>>(
    conv: V,
    src: Seq<T>,
    layout: Layout,
    m: int,
    k: int,
    before: Seq<C>,
    after: Seq<C>,
    at: int,
    w: int,
    stride: int,
    h: int,
    g: int,
)
    requires
        0 < w,
        0 <= at,
        0 <= k,
        0 <= k * w <= stride,
        0 <= h < g,
        panel_start(at, stride, g) <= before.len(),
        holds_panel(conv, src, layout, m, k, before, at, w, stride, h),
        same_outside(
            before,
            after,
            panel_start(at, stride, g),
            panel_start(at, stride, g) + k * w,
        ),
    ensures
        holds_panel(conv, src, layout, m, k, after, at, w, stride, h),
{
    lemma_panel_before(at, stride, h, g, k * w);
    let start = panel_start(at, stride, h);
    assert forall|j: int, d: int|
        0 <= j < panel_rows(m, w, h) && 0 <= d < k implies conv.converts(
        src[layout.index(h * w + j, d)],
        after[#[trigger] slot(start, w, j, d)],
    ) by {
        lemma_slot(start, w, j, d, k);
        assert(after[slot(start, w, j, d)] == before[slot(start, w, j, d)]);
    }
}

/// A slot of column `e` lies among the `w` elements of that column, and before column `d` if `e`
/// does.
pub proof fn lemma_slot(at: int, w: int, j: int, e: int, d: int)
    requires
        0 <= j < w,
        0 <= e <= d,
    ensures
        slot(at, w, j, e) == at + e * w + j,
        at <= slot(at, w, j, e),
        e < d ==> slot(at, w, j, e) < at + d * w,
{
    reveal(slot);
    assert(0 <= e * w) by (nonlinear_arith)
        requires
            0 <= e,
            0 < w,
    ;
    if e < d {
        assert((e + 1) * w <= d * w) by (nonlinear_arith)
            requires
                e + 1 <= d,
                0 < w,
        ;
        assert((e + 1) * w == e * w + w) by (nonlinear_arith);
    }
}

/// What is read from a packed operand is what was packed: row `i` of column `d` sits in panel
/// `i / w`, in place `i % w` of its column.
pub proof fn law_packed_entry<T, C, V: Convert<T, C>>(
    conv: V,
    src: Seq<T>,
    layout: Layout,
    m: int,
    k: int,
    buf: Seq<C>,
    at: int,
    w: int,
    stride: int,
    i: int,
    d: int,
)
    requires
        0 < w,
        0 <= i < m,
        0 <= d < k,
        operand_packed(conv, src, layout, m, k, buf, at, w, stride),
    ensures
        conv.converts(
            src[layout.index(i, d)],
            buf[at + (i / w) * stride + d * w + i % w],
        ),
{
    let g = i / w;
    let j = i % w;
    vstd::arithmetic::div_mod::lemma_fundamental_div_mod(i, w);
    crate::share::lemma_ceil_quotient(m, w);
    let panels = crate::share::ceil_quotient(m, w);
    assert(g * w == w * g) by (nonlinear_arith);
    assert(0 <= g < panels) by (nonlinear_arith)
        requires
            i == w * g + j,
            0 <= j < w,
            0 <= i < m,
            m <= w * panels,
            0 < w,
    ;
    assert(holds_panel(conv, src, layout, m, k, buf, at, w, stride, g));
    reveal(slot);
    assert(slot(panel_start(at, stride, g), w, j, d) == at + g * stride + d * w + j);
}

/// What is left in the rows of a panel that the source does not fill, in place.
proof fn lemma_padding<C>(
    lanes: int,
    width: int,
    k: int,
    zero: C,
    pre: Seq<C>,
    post: Seq<C>,
    at: int,
    w: int,
    j: int,
    d: int,
)
    requires
        padding(lanes, width, k, zero, pre, post, at, w),
        width <= j < w,
        0 <= d < k,
    ensures
        width == lanes || width == 2 * lanes ==> post[at + d * w + j] == pre[at + d * w + j],
        width != lanes && width != 2 * lanes ==> post[at + d * w + j] == zero,
{
    let q = slot(at, w, j, d);
    assert(q == at + d * w + j) by {
        reveal(slot);
    }
    assert(post[q] == if width == lanes || width == 2 * lanes {
        pre[q]
    } else {
        zero
    });
}

/// What lies beside all panels is kept.
proof fn lemma_beside_panels<C>(
    pre: Seq<C>,
    post: Seq<C>,
    m: int,
    at: int,
    w: int,
    stride: int,
    size: int,
    q: int,
)
    requires
        0 < w,
        same_outside_panels(pre, post, at, stride, crate::share::ceil_quotient(m, w), size),
        0 <= q < pre.len(),
        forall|g: int|
            0 <= g && g * w < m ==> !(at + #[trigger] (g * stride) <= q < at + g * stride + size),
    ensures
        post[q] == pre[q],
{
    let panels = crate::share::ceil_quotient(m, w);
    crate::share::lemma_ceil_quotient(m, w);
    assert forall|g: int| 0 <= g < panels implies !(#[trigger] panel_start(at, stride, g) <= q
        < panel_start(at, stride, g) + size) by {
        assert(g * w < m) by (nonlinear_arith)
            requires
                g <= panels - 1,
                w * (panels - 1) < m,
                0 < w,
        ;
        assert(at + g * stride == panel_start(at, stride, g));
    }
}

/// A call of [`pack_generic`] leaves row `i` of column `d` of the source in panel `i / W`, in place `i % W`
/// of its column. The rows that the source does not fill keep what they held where one or two vectors
/// are left over, and are zero otherwise. Nothing beside the panels changes.
pub proof fn law_pack_generic<T: Copy, C: Copy, V: Convert<T, C>, const N: usize, const W: usize>(
    conv: &V,
    m: usize,
    k: usize,
    dst: &mut [C],
    dst_at: usize,
    src: &[T],
    layout: Layout,
    dst_stride: usize,
    zero: C,
    i: int,
    d: int,
    q: int,
)
    requires
        0 < W,
        call_ensures(
            pack_generic::<T, C, V, N, W>,
            (conv, m, k, dst, dst_at, src, layout, dst_stride, zero),
            (),
        ),
    ensures
        final(dst)@.len() == old(dst)@.len(),
        0 <= i < m && 0 <= d < k ==> conv.converts(
            src@[layout.index(i, d)],
            final(dst)@[dst_at + (i / (W as int)) * dst_stride + d * W + i % (W as int)],
        ),
        m as int % (W as int) <= i < W && m as int % (W as int) != 0 && 0 <= d < k ==> {
            let left = m as int % (W as int);
            let p = dst_at + (m as int / (W as int)) * dst_stride + d * W + i;
            &&& left == N || left == 2 * N ==> final(dst)@[p] == old(dst)@[p]
            &&& left != N && left != 2 * N ==> final(dst)@[p] == zero
        },
        0 <= q < old(dst)@.len() && (forall|g: int|
            0 <= g && g * W < m ==> !(dst_at + #[trigger] (g * dst_stride) <= q < dst_at + g
                * dst_stride + k * W)) ==> final(dst)@[q] == old(dst)@[q],
{
    let w = W as int;
    if 0 <= i < m && 0 <= d < k {
        law_packed_entry(
            *conv,
            src@,
            layout,
            m as int,
            k as int,
            final(dst)@,
            dst_at as int,
            w,
            dst_stride as int,
            i,
            d,
        );
    }
    if m as int % w <= i < W && m as int % w != 0 && 0 <= d < k {
        lemma_padding(
            N as int,
            m as int % w,
            k as int,
            zero,
            old(dst)@,
            final(dst)@,
            panel_start(dst_at as int, dst_stride as int, m as int / w),
            w,
            i,
            d,
        );
    }
    if 0 <= q < old(dst)@.len() && (forall|g: int|
        0 <= g && g * W < m ==> !(dst_at + #[trigger] (g * dst_stride) <= q < dst_at + g
            * dst_stride + k * W)) {
        lemma_beside_panels(
            old(dst)@,
            final(dst)@,
            m as int,
            dst_at as int,
            w,
            dst_stride as int,
            k * W,
            q,
        );
    }
}

/// A call of [`pack_generic_inner_loop`] leaves row `i` of column `d` of the source in place `i` of column
/// `d` of the panel. The rows that the source does not fill keep what they held where it is one or two
/// vectors wide, and are zero otherwise. Nothing beside the panel changes.
pub proof fn law_pack_panel<T: Copy, C: Copy, V: Convert<T, C>, const N: usize, const W: usize>(
    conv: &V,
    dst: &mut [C],
    dst_at: usize,
    src: &[T],
    layout: Layout,
    src_width: usize,
    k: usize,
    zero: C,
    i: int,
    d: int,
    q: int,
)
    requires
        0 < W,
        call_ensures(
            pack_generic_inner_loop::<T, C, V, N, W>,
            (conv, dst, dst_at, src, layout, src_width, k, zero),
            (),
        ),
    ensures
        final(dst)@.len() == old(dst)@.len(),
        0 <= i < src_width && 0 <= d < k ==> conv.converts(
            src@[layout.index(i, d)],
            final(dst)@[dst_at + d * W + i],
        ),
        src_width <= i < W && 0 <= d < k ==> {
            let p = dst_at + d * W + i;
            &&& src_width == N || src_width == 2 * N ==> final(dst)@[p] == old(dst)@[p]
            &&& src_width != N && src_width != 2 * N ==> final(dst)@[p] == zero
        },
        0 <= q < old(dst)@.len() && !(dst_at <= q < dst_at + k * W) ==> final(dst)@[q]
            == old(dst)@[q],
{
    let w = W as int;
    if 0 <= i < src_width && 0 <= d < k {
        let p = slot(dst_at as int, w, i, d);
        assert(p == dst_at + d * w + i) by {
            reveal(slot);
        }
        assert(conv.converts(src@[layout.index(0 + i, d)], final(dst)@[p]));
    }
    if src_width <= i < W && 0 <= d < k {
        lemma_padding(
            N as int,
            src_width as int,
            k as int,
            zero,
            old(dst)@,
            final(dst)@,
            dst_at as int,
            w,
            i,
            d,
        );
    }
}

/// What a packed operand holds, in place.
pub proof fn lemma_packed_places<T, C, V: Convert<T, C>>(
    conv: V,
    src: Seq<T>,
    layout: Layout,
    m: int,
    k: int,
    pre: Seq<C>,
    post: Seq<C>,
    lanes: int,
    w: int,
    stride: int,
    zero: C,
    i: int,
    d: int,
    q: int,
)
    requires
        0 < w,
        crate::half_precision::packed_into(
            conv,
            src,
            layout,
            m,
            k,
            pre,
            post,
            lanes,
            w,
            stride,
            zero,
        ),
    ensures
        post.len() == pre.len(),
        0 <= i < m && 0 <= d < k ==> conv.converts(
            src[layout.index(i, d)],
            post[(i / w) * stride + d * w + i % w],
        ),
        m % w <= i < w && m % w != 0 && 0 <= d < k ==> {
            let left = m % w;
            let p = (m / w) * stride + d * w + i;
            &&& left == lanes || left == 2 * lanes ==> post[p] == pre[p]
            &&& left != lanes && left != 2 * lanes ==> post[p] == zero
        },
        0 <= q < pre.len() && (forall|g: int|
            0 <= g && g * w < m ==> !(#[trigger] (g * stride) <= q < g * stride + k * w))
            ==> post[q] == pre[q],
{
    if 0 <= i < m && 0 <= d < k {
        law_packed_entry(conv, src, layout, m, k, post, 0, w, stride, i, d);
    }
    if m % w <= i < w && m % w != 0 && 0 <= d < k {
        lemma_padding(lanes, m % w, k, zero, pre, post, panel_start(0, stride, m / w), w, i, d);
    }
    if 0 <= q < pre.len() && (forall|g: int|
        0 <= g && g * w < m ==> !(#[trigger] (g * stride) <= q < g * stride + k * w)) {
        lemma_beside_panels(pre, post, m, 0, w, stride, k * w, q);
    }
}

} // verus!
