use vstd::prelude::*;

use crate::node::{
    lemma_sum_areas_take_step, lemma_sum_sizes_take_monotone, lemma_sum_sizes_take_step,
    same_content, sum_areas, sum_sizes, Bounds, Node,
};
use vstd::arithmetic::div_mod::{
    lemma_div_is_ordered, lemma_div_multiples_vanish, lemma_fundamental_div_mod,
};

verus! {

/// `size * len / total`, exactly, computed without overflow.
fn prop_piece(size: u64, len: u32, total: u64) -> (r: u32)
    requires
        0 < total,
        size <= total,
    ensures
        r == size * len / (total as int),
        r <= len,
{
    proof {
        assert((size as int) * (len as int) <= u64::MAX * u32::MAX) by (nonlinear_arith)
            requires
                0 <= size <= u64::MAX,
                0 <= len <= u32::MAX,
        ;
        lemma_mul_le(size as int, total as int, len as int);
        lemma_div_is_ordered(size * len, total * len, total as int);
        lemma_div_multiples_vanish(len as int, total as int);
    }
    let q: u128 = (size as u128) * (len as u128) / (total as u128);
    q as u32
}

/// `x <= y && 0 <= l ==> x * l <= y * l`
proof fn lemma_mul_le(x: int, y: int, l: int)
    requires
        x <= y,
        0 <= l,
    ensures
        x * l <= y * l,
{
    assert(x * l <= y * l) by (nonlinear_arith)
        requires
            x <= y,
            0 <= l,
    ;
}

/// `0 <= q * d <= x` for `q == x / d`, `d > 0`, `x >= 0`.
proof fn lemma_div_piece_bound(x: int, d: int)
    requires
        0 <= x,
        0 < d,
    ensures
        0 <= (x / d) * d <= x,
        0 <= x / d,
{
    lemma_fundamental_div_mod(x, d);
    assert(x % d >= 0) by (nonlinear_arith)
        requires
            0 <= x,
            0 < d,
    ;
    assert(x / d >= 0) by (nonlinear_arith)
        requires
            0 <= x,
            0 < d,
    ;
    assert(d * (x / d) == (x / d) * d) by (nonlinear_arith);
}

/// `a1 / b1 <= a2 / b2`, compared by cross-multiplication; a zero
/// denominator stands for an unbounded ratio.
fn frac_le(a1: u32, b1: u32, a2: u32, b2: u32) -> bool {
    proof {
        assert((a1 as int) * (b2 as int) <= u32::MAX * u32::MAX) by (nonlinear_arith)
            requires
                0 <= a1 <= u32::MAX,
                0 <= b2 <= u32::MAX,
        ;
        assert((a2 as int) * (b1 as int) <= u32::MAX * u32::MAX) by (nonlinear_arith)
            requires
                0 <= a2 <= u32::MAX,
                0 <= b1 <= u32::MAX,
        ;
    }
    (a1 as u64) * (b2 as u64) <= (a2 as u64) * (b1 as u64)
}

/// `size * len / total` clamped to `len`, for the aspect-ratio heuristic.
fn clamped_piece(size: u64, len: u32, total: u64) -> u32
    requires
        0 < total,
{
    proof {
        assert((size as int) * (len as int) <= u64::MAX * u32::MAX) by (nonlinear_arith)
            requires
                0 <= size <= u64::MAX,
                0 <= len <= u32::MAX,
        ;
    }
    let q: u128 = (size as u128) * (len as u128) / (total as u128);
    if q > len as u128 {
        len
    } else {
        q as u32
    }
}

/// The worse aspect ratio a row would show, as a ratio pair
/// `(longer side, shorter side)`.
///
/// The row holds `row_sum` of the remaining `rem_total` weight; its strip
/// takes a thickness proportional to `row_sum` out of `long`, and its
/// largest and smallest items (`s_max`, `s_min`) take lengths proportional
/// to their sizes out of `side`.
fn row_worst_ratio(s_max: u64, s_min: u64, row_sum: u64, rem_total: u64, side: u32, long: u32)
    -> (u32, u32)
    requires
        0 < row_sum,
        0 < rem_total,
{
    let t = clamped_piece(row_sum, long, rem_total);
    let w_max = clamped_piece(s_max, side, row_sum);
    let w_min = clamped_piece(s_min, side, row_sum);
    let r1 = if w_max >= t {
        (w_max, t)
    } else {
        (t, w_max)
    };
    let r2 = if w_min >= t {
        (w_min, t)
    } else {
        (t, w_min)
    };
    if frac_le(r1.0, r1.1, r2.0, r2.1) {
        r2
    } else {
        r1
    }
}

/// Pick the row `[i, j)` the squarified algorithm lays next: keep adding
/// items while doing so does not worsen the row's worst aspect ratio; on a
/// tie the row being accumulated is continued.
fn choose_row(items: &Vec<Node>, i: usize, rem_total: u64, side: u32, long: u32)
    -> (r: (usize, u64))
    requires
        i < items@.len(),
        items@[i as int].size > 0,
        crate::node::sorted_desc(items@),
        sum_sizes(items@) <= u64::MAX,
        rem_total == sum_sizes(items@) - sum_sizes(items@.take(i as int)),
    ensures
        i < r.0 <= items@.len(),
        r.1 == sum_sizes(items@.take(r.0 as int)) - sum_sizes(items@.take(i as int)),
        r.1 > 0,
        r.1 <= rem_total,
        forall|m: int| i <= m < r.0 ==> #[trigger] items@[m].size > 0,
{
    let n = items.len();
    let s_max: u64 = items[i].size;
    let mut j: usize = i + 1;
    let mut row_sum: u64 = s_max;
    let mut s_min: u64 = s_max;
    proof {
        lemma_sum_sizes_take_step(items@, i as int);
        lemma_sum_sizes_take_monotone(items@, i + 1, n as int);
        crate::node::lemma_sum_sizes_take_all(items@);
    }
    while j < n
        invariant
            i < j <= n,
            n == items@.len(),
            crate::node::sorted_desc(items@),
            sum_sizes(items@) <= u64::MAX,
            rem_total == sum_sizes(items@) - sum_sizes(items@.take(i as int)),
            row_sum == sum_sizes(items@.take(j as int)) - sum_sizes(items@.take(i as int)),
            0 < row_sum <= rem_total,
            s_max == items@[i as int].size,
            s_min == items@[j - 1].size,
            forall|m: int| i <= m < j ==> #[trigger] items@[m].size > 0,
        decreases n - j,
    {
        let next: u64 = items[j].size;
        if next == 0 {
            break;
        }
        proof {
            lemma_sum_sizes_take_step(items@, j as int);
            lemma_sum_sizes_take_monotone(items@, j + 1, n as int);
            crate::node::lemma_sum_sizes_take_all(items@);
        }
        let cur = row_worst_ratio(s_max, s_min, row_sum, rem_total, side, long);
        let with = row_worst_ratio(s_max, next, row_sum + next, rem_total, side, long);
        if frac_le(with.0, with.1, cur.0, cur.1) {
            row_sum = row_sum + next;
            s_min = next;
            j = j + 1;
        } else {
            break;
        }
    }
    (j, row_sum)
}

/// Replace the layout bounds of one node, leaving everything else alone.
fn set_bounds(items: &mut Vec<Node>, k: usize, b: Bounds)
    requires
        k < old(items).len(),
    ensures
        final(items)@.len() == old(items)@.len(),
        final(items)@[k as int].bounds == b,
        same_content(final(items)@[k as int], old(items)@[k as int]),
        forall|m: int|
            0 <= m < old(items)@.len() && m != k ==> final(items)@[m] == old(items)@[m],
{
    let node = items.remove(k);
    let node = Node { bounds: b, ..node };
    items.insert(k, node);
    proof {
        assert(forall|m: int|
            0 <= m < old(items)@.len() && m != k ==> final(items)@[m] == old(items)@[m]);
    }
}

/// Lay one row of items into `strip`, splitting its length proportionally to
/// their sizes; the last item absorbs the rounding remainder, so the row
/// tiles the strip exactly.
///
/// If `split_y` the strip is divided along its height, otherwise along its
/// width.
fn place_row(items: &mut Vec<Node>, lo: usize, hi: usize, row_sum: u64, strip: Bounds, split_y: bool)
    requires
        lo < hi <= old(items).len(),
        row_sum == sum_sizes(old(items)@.take(hi as int)) - sum_sizes(old(items)@.take(lo as int)),
        row_sum > 0,
        strip.x + strip.w <= u32::MAX,
        strip.y + strip.h <= u32::MAX,
    ensures
        final(items)@.len() == old(items)@.len(),
        forall|m: int|
            0 <= m < old(items)@.len() ==> same_content(
                #[trigger] final(items)@[m],
                old(items)@[m],
            ),
        forall|m: int| 0 <= m < lo ==> final(items)@[m] == old(items)@[m],
        forall|m: int| hi <= m < old(items)@.len() ==> final(items)@[m] == old(items)@[m],
        forall|m: int|
            lo <= m < hi ==> (#[trigger] final(items)@[m]).bounds.within(strip),
        sum_areas(final(items)@.take(hi as int)) - sum_areas(final(items)@.take(lo as int))
            == strip.area(),
{
    let ghost oldseq = old(items)@;
    let len: u32 = if split_y {
        strip.h
    } else {
        strip.w
    };
    let ghost th: int = if split_y {
        strip.w as int
    } else {
        strip.h as int
    };
    let mut consumed: u32 = 0;
    let mut k: usize = lo;
    while k < hi
        invariant
            lo <= k <= hi <= items@.len(),
            items@.len() == oldseq.len(),
            oldseq == old(items)@,
            row_sum == sum_sizes(oldseq.take(hi as int)) - sum_sizes(oldseq.take(lo as int)),
            row_sum > 0,
            strip.x + strip.w <= u32::MAX,
            strip.y + strip.h <= u32::MAX,
            len == if split_y {
                strip.h
            } else {
                strip.w
            },
            th == if split_y {
                strip.w as int
            } else {
                strip.h as int
            },
            consumed <= len,
            consumed * row_sum <= (sum_sizes(oldseq.take(k as int)) - sum_sizes(
                oldseq.take(lo as int),
            )) * len,
            k == hi ==> consumed == len,
            sum_areas(items@.take(k as int)) - sum_areas(items@.take(lo as int)) == consumed * th,
            forall|m: int|
                0 <= m < oldseq.len() ==> same_content(#[trigger] items@[m], oldseq[m]),
            forall|m: int| 0 <= m < lo ==> items@[m] == oldseq[m],
            forall|m: int| k <= m < oldseq.len() ==> items@[m] == oldseq[m],
            forall|m: int| lo <= m < k ==> (#[trigger] items@[m]).bounds.within(strip),
        decreases hi - k,
    {
        let ghost pre = items@;
        let ghost prefix: int = sum_sizes(oldseq.take(k as int)) - sum_sizes(
            oldseq.take(lo as int),
        );
        let size_k: u64 = items[k].size;
        proof {
            assert(items@[k as int] == oldseq[k as int]);
            lemma_sum_sizes_take_monotone(oldseq, lo as int, k as int);
            lemma_sum_sizes_take_step(oldseq, k as int);
            lemma_sum_sizes_take_monotone(oldseq, k + 1, hi as int);
            assert(prefix >= 0);
            assert(prefix + size_k <= row_sum);
        }
        let piece: u32 = if k == hi - 1 {
            len - consumed
        } else {
            prop_piece(size_k, len, row_sum)
        };
        proof {
            if k == hi - 1 {
                assert(consumed + piece == len);
                assert(prefix + size_k == row_sum);
                assert(len * row_sum <= (prefix + size_k) * len) by (nonlinear_arith)
                    requires
                        prefix + size_k == row_sum,
                ;
            } else {
                lemma_div_piece_bound(size_k * len, row_sum as int);
                assert(piece * row_sum <= size_k * len) by (nonlinear_arith)
                    requires
                        piece == size_k * len / (row_sum as int),
                        (size_k * len / (row_sum as int)) * row_sum <= size_k * len,
                ;
                assert((consumed + piece) * row_sum == consumed * row_sum + piece * row_sum)
                    by (nonlinear_arith);
                assert((prefix + size_k) * len == prefix * len + size_k * len)
                    by (nonlinear_arith);
                assert((consumed + piece) * row_sum <= (prefix + size_k) * len);
                lemma_mul_le(prefix + size_k, row_sum as int, len as int);
                assert((consumed + piece) * row_sum <= row_sum * len) by (nonlinear_arith)
                    requires
                        (consumed + piece) * row_sum <= (prefix + size_k) * len,
                        (prefix + size_k) * len <= row_sum * len,
                ;
                assert(consumed + piece <= len) by (nonlinear_arith)
                    requires
                        (consumed + piece) * row_sum <= row_sum * len,
                        row_sum > 0,
                        consumed >= 0,
                        piece >= 0,
                ;
            }
        }
        let b = if split_y {
            Bounds { x: strip.x, y: strip.y + consumed, w: strip.w, h: piece }
        } else {
            Bounds { x: strip.x + consumed, y: strip.y, w: piece, h: strip.h }
        };
        set_bounds(items, k, b);
        proof {
            assert(items@.take(lo as int) =~= pre.take(lo as int));
            assert(items@.take(k as int) =~= pre.take(k as int));
            lemma_sum_areas_take_step(items@, k as int);
            assert(b.area() == piece * th) by (nonlinear_arith)
                requires
                    b.area() == if split_y {
                        (strip.w as int) * (piece as int)
                    } else {
                        (piece as int) * (strip.h as int)
                    },
                    th == if split_y {
                        strip.w as int
                    } else {
                        strip.h as int
                    },
            ;
            assert((consumed + piece) * th == consumed * th + piece * th) by (nonlinear_arith);
        }
        consumed = consumed + piece;
        k = k + 1;
    }
    proof {
        assert(sum_areas(items@.take(hi as int)) - sum_areas(items@.take(lo as int))
            == len * th);
        assert(len * th == strip.area()) by (nonlinear_arith)
            requires
                th == if split_y {
                    strip.w as int
                } else {
                    strip.h as int
                },
                len == if split_y {
                    strip.h
                } else {
                    strip.w
                },
                strip.area() == strip.w * strip.h,
        ;
    }
}

/// A point lies in a rectangle of positive area: bounds of zero area are
/// excluded from interaction.
pub open spec fn spec_hit(b: Bounds, px: u32, py: u32) -> bool {
    &&& b.w > 0 && b.h > 0
    &&& b.x <= px < b.x + b.w
    &&& b.y <= py < b.y + b.h
}

/// Map a point to the first item whose laid-out bounds contain it — the
/// hit-test behind drill-down selection. Items with zero-area bounds are
/// never hit.
pub fn hit_test(items: &Vec<Node>, px: u32, py: u32) -> (r: Option<usize>)
    ensures
        match r {
            Some(i) => i < items@.len() && spec_hit(items@[i as int].bounds, px, py)
                && forall|k: int| 0 <= k < i ==> !spec_hit(#[trigger] items@[k].bounds, px, py),
            None => forall|k: int|
                0 <= k < items@.len() ==> !spec_hit(#[trigger] items@[k].bounds, px, py),
        },
{
    let n = items.len();
    let mut i: usize = 0;
    while i < n
        invariant
            i <= n,
            n == items@.len(),
            forall|k: int| 0 <= k < i ==> !spec_hit(#[trigger] items@[k].bounds, px, py),
        decreases n - i,
    {
        let b = items[i].bounds;
        if b.w > 0 && b.h > 0 && b.x <= px && px - b.x < b.w && b.y <= py && py - b.y < b.h {
            return Some(i);
        }
        i = i + 1;
    }
    None
}

/// Squarified treemap layout: assigns to every item a rectangle inside
/// `rect`, proportional in area to its share of the total size.
///
/// Items must come sorted descending by size. Items of size zero receive
/// zero-area bounds; when the total size is positive, the assigned areas
/// tile `rect` exactly, so their sum equals `rect`'s area. Everything but
/// the transient bounds is left untouched, and the result is a pure
/// function of the items and `rect`.
pub fn layout_items(items: &mut Vec<Node>, rect: Bounds)
    requires
        crate::node::sorted_desc(old(items)@),
        sum_sizes(old(items)@) <= u64::MAX,
        rect.x + rect.w <= u32::MAX,
        rect.y + rect.h <= u32::MAX,
    ensures
        final(items)@.len() == old(items)@.len(),
        forall|k: int|
            0 <= k < old(items)@.len() ==> same_content(
                #[trigger] final(items)@[k],
                old(items)@[k],
            ),
        forall|k: int|
            0 <= k < final(items)@.len() ==> (#[trigger] final(items)@[k]).bounds.within(rect),
        forall|k: int|
            0 <= k < final(items)@.len() ==> (final(items)@[k].size == 0
                ==> (#[trigger] final(items)@[k]).bounds.area() == 0),
        sum_sizes(old(items)@) > 0 ==> sum_areas(final(items)@) == rect.area(),
{
    let ghost oldseq = old(items)@;
    let n = items.len();

    // Every item starts from the empty rectangle in `rect`'s corner; items
    // never reached by a row (the zero-sized ones) keep it.
    let mut k: usize = 0;
    while k < n
        invariant
            k <= n,
            n == items@.len(),
            items@.len() == oldseq.len(),
            oldseq == old(items)@,
            rect.x + rect.w <= u32::MAX,
            rect.y + rect.h <= u32::MAX,
            forall|m: int|
                0 <= m < oldseq.len() ==> same_content(#[trigger] items@[m], oldseq[m]),
            forall|m: int|
                0 <= m < k ==> (#[trigger] items@[m]).bounds == Bounds::spec_zero_at(
                    rect.x,
                    rect.y,
                ),
            forall|m: int| k <= m < oldseq.len() ==> items@[m] == oldseq[m],
        decreases n - k,
    {
        set_bounds(items, k, Bounds::zero_at(rect.x, rect.y));
        k = k + 1;
    }

    // The total weight, exact by the requires bound.
    let ghost inited = items@;
    let mut total: u64 = 0;
    let mut k: usize = 0;
    proof {
        crate::node::lemma_sum_sizes_congruence(items@, oldseq);
    }
    while k < n
        invariant
            k <= n,
            n == items@.len(),
            items@ == inited,
            sum_sizes(items@) == sum_sizes(oldseq),
            sum_sizes(oldseq) <= u64::MAX,
            total == sum_sizes(items@.take(k as int)),
        decreases n - k,
    {
        proof {
            lemma_sum_sizes_take_step(items@, k as int);
            lemma_sum_sizes_take_monotone(items@, k + 1, n as int);
            crate::node::lemma_sum_sizes_take_all(items@);
            crate::node::lemma_sum_sizes_nonneg(items@.take(k as int));
        }
        total = total + items[k].size;
        k = k + 1;
    }
    proof {
        crate::node::lemma_sum_sizes_take_all(items@);
    }
    if total == 0 {
        proof {
            assert forall|m: int| 0 <= m < items@.len() implies (#[trigger] items@[m]).bounds.area()
                == 0 by {
                assert(items@[m].bounds == Bounds::spec_zero_at(rect.x, rect.y));
                assert(items@[m].bounds.w == 0);
                assert(items@[m].bounds.area() == items@[m].bounds.w * items@[m].bounds.h);
            }
        }
        return;
    }

    let ghost afterinit = items@;
    let mut i: usize = 0;
    let mut rem = rect;
    let mut rem_total: u64 = total;
    proof {
        assert(items@.take(0int) =~= Seq::<Node>::empty());
    }
    while rem_total > 0
        invariant
            i <= n,
            n == items@.len(),
            items@.len() == oldseq.len(),
            oldseq == old(items)@,
            crate::node::sorted_desc(oldseq),
            sum_sizes(oldseq) <= u64::MAX,
            crate::node::sorted_desc(items@),
            sum_sizes(items@) == sum_sizes(oldseq),
            rem_total == sum_sizes(items@) - sum_sizes(items@.take(i as int)),
            rem.within(rect),
            rem.x + rem.w <= u32::MAX,
            rem.y + rem.h <= u32::MAX,
            rem_total == 0 ==> rem.area() == 0,
            sum_areas(items@.take(i as int)) == rect.area() - rem.area(),
            forall|m: int|
                0 <= m < oldseq.len() ==> same_content(#[trigger] items@[m], oldseq[m]),
            forall|m: int| 0 <= m < i ==> #[trigger] items@[m].size > 0,
            forall|m: int| 0 <= m < i ==> (#[trigger] items@[m]).bounds.within(rect),
            forall|m: int|
                i <= m < oldseq.len() ==> (#[trigger] items@[m]).bounds == Bounds::spec_zero_at(
                    rect.x,
                    rect.y,
                ),
        decreases rem_total,
    {
        proof {
            // A positive remaining weight means the next item is positive:
            // were it zero, sortedness would make the whole suffix zero.
            crate::node::lemma_sum_sizes_take_all(items@);
            if i == n {
                assert(items@.take(n as int) =~= items@);
            }
            assert(i < n);
            if items@[i as int].size == 0 {
                assert(forall|m: int| i <= m < n ==> #[trigger] items@[m].size == 0);
                crate::node::lemma_sum_sizes_zero_suffix(items@, i as int);
                assert(false);
            }
        }
        let wide = rem.w >= rem.h;
        let side: u32 = if wide {
            rem.h
        } else {
            rem.w
        };
        let long: u32 = if wide {
            rem.w
        } else {
            rem.h
        };
        let (j, row_sum) = choose_row(items, i, rem_total, side, long);
        let t: u32 = if row_sum == rem_total {
            long
        } else {
            prop_piece(row_sum, long, rem_total)
        };
        let strip = if wide {
            Bounds { x: rem.x, y: rem.y, w: t, h: rem.h }
        } else {
            Bounds { x: rem.x, y: rem.y, w: rem.w, h: t }
        };
        let ghost pre = items@;
        place_row(items, i, j, row_sum, strip, wide);
        proof {
            assert(items@.take(i as int) =~= pre.take(i as int));
            assert(forall|m: int|
                j <= m < oldseq.len() ==> (#[trigger] items@[m]).bounds
                    == Bounds::spec_zero_at(rect.x, rect.y));
            crate::node::lemma_sum_sizes_congruence(items@, pre);
            crate::node::lemma_sum_sizes_congruence(
                items@.take(j as int),
                pre.take(j as int),
            );
            crate::node::lemma_sum_sizes_congruence(
                items@.take(i as int),
                pre.take(i as int),
            );
            // the old remaining rectangle splits exactly into strip and rest
            if wide {
                assert(rem.area() == strip.area() + (rem.w - t) * rem.h) by (nonlinear_arith)
                    requires
                        strip.area() == t * strip.h,
                        strip.h == rem.h,
                        rem.area() == rem.w * rem.h,
                        t <= rem.w,
                ;
            } else {
                assert(rem.area() == strip.area() + rem.w * (rem.h - t)) by (nonlinear_arith)
                    requires
                        strip.area() == strip.w * t,
                        strip.w == rem.w,
                        rem.area() == rem.w * rem.h,
                        t <= rem.h,
                ;
            }
        }
        let new_rem = if wide {
            Bounds { x: rem.x + t, y: rem.y, w: rem.w - t, h: rem.h }
        } else {
            Bounds { x: rem.x, y: rem.y + t, w: rem.w, h: rem.h - t }
        };
        proof {
            if row_sum == rem_total {
                assert(new_rem.area() == 0) by (nonlinear_arith)
                    requires
                        new_rem.area() == if wide {
                            (new_rem.w as int) * (new_rem.h as int)
                        } else {
                            (new_rem.w as int) * (new_rem.h as int)
                        },
                        (wide ==> new_rem.w == 0) && (!wide ==> new_rem.h == 0),
                ;
            }
        }
        rem = new_rem;
        rem_total = rem_total - row_sum;
        i = j;
    }
    proof {
        // everything from `i` on kept the empty bounds, so the processed
        // prefix carries the whole area, which is all of `rect`'s
        assert forall|m: int| i <= m < items@.len() implies (#[trigger] items@[m]).bounds.area()
            == 0 by {
            assert(items@[m].bounds == Bounds::spec_zero_at(rect.x, rect.y));
            assert(items@[m].bounds.w == 0);
            assert(items@[m].bounds.area() == items@[m].bounds.w * items@[m].bounds.h);
        }
        crate::node::lemma_sum_areas_zero_suffix(items@, i as int);
        assert(sum_areas(items@) == rect.area() - rem.area());
    }
}

} // verus!
