//! Scaling values to eighths of a cell and fitting groups into a width.

use vstd::prelude::*;
use vstd::arithmetic::div_mod::lemma_div_is_ordered;
use vstd::arithmetic::div_mod::lemma_div_multiples_vanish;
use vstd::arithmetic::div_mod::lemma_fundamental_div_mod;
use vstd::arithmetic::mul::lemma_mul_inequality;

verus! {

/// The larger of two integers.
pub open spec fn max_int(a: int, b: int) -> int {
    if a >= b {
        a
    } else {
        b
    }
}

/// The maximum value in one group, zero for an empty group.
pub open spec fn spec_group_max(g: Seq<u64>) -> int
    decreases g.len(),
{
    if g.len() == 0 {
        0
    } else {
        max_int(spec_group_max(g.drop_last()), g.last() as int)
    }
}

/// The maximum value across all groups and series, zero for empty data.
pub open spec fn spec_data_max(d: Seq<Seq<u64>>) -> int
    decreases d.len(),
{
    if d.len() == 0 {
        0
    } else {
        max_int(spec_data_max(d.drop_last()), spec_group_max(d.last()))
    }
}

/// Every value in a group is bounded by the group maximum.
pub proof fn lemma_group_max_ge(g: Seq<u64>, i: int)
    requires
        0 <= i < g.len(),
    ensures
        g[i] as int <= spec_group_max(g),
        spec_group_max(g) >= 0,
    decreases g.len(),
{
    if i == g.len() - 1 {
        if g.len() > 1 {
            lemma_group_max_ge(g.drop_last(), 0);
        }
    } else {
        lemma_group_max_ge(g.drop_last(), i);
    }
}

/// Every value in the data is bounded by the data maximum.
pub proof fn lemma_data_max_ge(d: Seq<Seq<u64>>, g: int, s: int)
    requires
        0 <= g < d.len(),
        0 <= s < d[g].len(),
    ensures
        d[g][s] as int <= spec_data_max(d),
        spec_data_max(d) >= 0,
    decreases d.len(),
{
    if g == d.len() - 1 {
        lemma_group_max_ge(d.last(), s);
    } else {
        lemma_data_max_ge(d.drop_last(), g, s);
    }
}

/// The maximum value in one group of the data.
fn group_max(g: &Vec<u64>) -> (r: u64)
    ensures
        r as int == spec_group_max(g@),
{
    let mut r: u64 = 0;
    for i in 0..g.len()
        invariant
            r as int == spec_group_max(g@.take(i as int)),
    {
        proof {
            assert(g@.take(i + 1).drop_last() =~= g@.take(i as int));
            assert(g@.take(i + 1).last() == g@[i as int]);
        }
        if g[i] > r {
            r = g[i];
        }
    }
    proof {
        assert(g@.take(g@.len() as int) =~= g@);
    }
    r
}

/// The maximum value across all groups and series; the scale reference
/// when no fixed maximum was supplied.
pub fn data_max(data: &Vec<Vec<u64>>) -> (r: u64)
    ensures
        r as int == spec_data_max(data.deep_view()),
{
    let ghost dv = data.deep_view();
    let mut r: u64 = 0;
    for g in 0..data.len()
        invariant
            dv == data.deep_view(),
            dv.len() == data@.len(),
            forall|k: int| 0 <= k < dv.len() ==> dv[k] == data@[k]@,
            r as int == spec_data_max(dv.take(g as int)),
    {
        proof {
            assert(dv.take(g + 1).drop_last() =~= dv.take(g as int));
            assert(dv.take(g + 1).last() == dv[g as int]);
        }
        let m = group_max(&data[g]);
        if m > r {
            r = m;
        }
    }
    proof {
        assert(dv.take(dv.len() as int) =~= dv);
    }
    r
}

/// The single scaling law: a value's height in eighths of a cell, with one
/// row reserved at the bottom and the divisor floored at one.
pub open spec fn spec_height_eighths(value: int, rows: int, max: int) -> int {
    value * (rows - 1) * 8 / max_int(max, 1)
}

/// Scale one value to eighths of a cell.
pub fn height_eighths(value: u64, rows: u16, max: u64) -> (r: u64)
    requires
        rows >= 1,
        value * (rows - 1) * 8 <= u64::MAX,
    ensures
        r as int == spec_height_eighths(value as int, rows as int, max as int),
{
    proof {
        assert(value * (rows - 1) >= 0 && value * (rows - 1) * 8 >= value * (rows - 1))
            by (nonlinear_arith)
            requires
                rows >= 1,
                value >= 0,
        ;
    }
    let scaled = value * ((rows - 1) as u64) * 8;
    let divisor = if max >= 1 {
        max
    } else {
        1
    };
    scaled / divisor
}

/// The number of columns one whole group occupies, counting its trailing
/// group gap.
pub open spec fn spec_per_group_width(bw: int, bg: int, gg: int, n: int) -> int {
    (bw + bg) * n + gg
}

/// How many whole groups fit in the available width; a group that would
/// only partly fit is dropped entirely.
pub open spec fn spec_visible_groups(
    w: int,
    bw: int,
    bg: int,
    gg: int,
    n: int,
    groups: int,
) -> int {
    let fit = (w + gg + bg) / spec_per_group_width(bw, bg, gg, n);
    if fit <= groups {
        fit
    } else {
        groups
    }
}

/// Count how many whole groups fit in the available width.
pub fn visible_group_count(
    width: u16,
    bar_width: u16,
    bar_gap: u16,
    group_gap: u16,
    series: usize,
    groups: usize,
) -> (r: usize)
    requires
        1 <= spec_per_group_width(bar_width as int, bar_gap as int, group_gap as int, series as int),
        spec_per_group_width(bar_width as int, bar_gap as int, group_gap as int, series as int)
            <= u16::MAX,
    ensures
        r as int == spec_visible_groups(
            width as int,
            bar_width as int,
            bar_gap as int,
            group_gap as int,
            series as int,
            groups as int,
        ),
{
    let per_group = (bar_width as u64 + bar_gap as u64) * (series as u64) + (group_gap as u64);
    let avail = (width as u64) + (group_gap as u64) + (bar_gap as u64);
    let fit = avail / per_group;
    if fit <= groups as u64 {
        fit as usize
    } else {
        groups
    }
}

/// The quotient can only shrink when the numerator loses at least as much,
/// in proportion, as the denominator gains.
#[verifier::rlimit(30)]
proof fn lemma_div_quotient_le(a: int, b: int, a2: int, b2: int)
    requires
        1 <= b,
        1 <= b2,
        0 <= a2,
        a2 * b <= a * b2,
    ensures
        a2 / b2 <= a / b,
{
    let q2 = a2 / b2;
    lemma_fundamental_div_mod(a2, b2);
    assert(q2 * b2 <= a2);
    assert(q2 >= 0) by {
        vstd::arithmetic::div_mod::lemma_div_pos_is_pos(a2, b2);
    }
    assert(q2 * b2 * b <= a2 * b) by {
        lemma_mul_inequality(q2 * b2, a2, b);
    }
    assert(q2 * b2 * b == (q2 * b) * b2) by (nonlinear_arith);
    assert((q2 * b) * b2 <= a * b2);
    assert(q2 * b <= a) by (nonlinear_arith)
        requires
            (q2 * b) * b2 <= a * b2,
            b2 >= 1,
    ;
    lemma_div_is_ordered(q2 * b, a, b);
    assert(q2 * b == b * q2) by (nonlinear_arith);
    lemma_div_multiples_vanish(q2, b);
    assert((q2 * b) / b == q2);
}

/// Widening any geometry parameter never lets more groups fit: the count
/// of visible groups is monotonic non-increasing in the bar width, the bar
/// gap and the group gap, for a fixed area width.
pub proof fn lemma_visible_groups_monotonic(
    w: int,
    bw1: int,
    bg1: int,
    gg1: int,
    bw2: int,
    bg2: int,
    gg2: int,
    n: int,
    groups: int,
)
    requires
        0 <= w,
        1 <= n,
        0 <= bw1 <= bw2,
        0 <= bg1 <= bg2,
        0 <= gg1 <= gg2,
        1 <= spec_per_group_width(bw1, bg1, gg1, n),
    ensures
        spec_visible_groups(w, bw2, bg2, gg2, n, groups) <= spec_visible_groups(
            w,
            bw1,
            bg1,
            gg1,
            n,
            groups,
        ),
{
    let a = w + gg1 + bg1;
    let b = spec_per_group_width(bw1, bg1, gg1, n);
    let a2 = w + gg2 + bg2;
    let b2 = spec_per_group_width(bw2, bg2, gg2, n);
    assert((bw2 + bg2) * n - (bw1 + bg1) * n >= bg2 - bg1) by (nonlinear_arith)
        requires
            1 <= n,
            bw1 <= bw2,
            bg1 <= bg2,
    ;
    assert(b + (a2 - a) <= b2);
    if a >= b {
        assert(a2 * b <= a * b2) by (nonlinear_arith)
            requires
                a >= b,
                b >= 1,
                a2 >= a,
                b + (a2 - a) <= b2,
        ;
        lemma_div_quotient_le(a, b, a2, b2);
    } else {
        assert(a2 < b2);
        assert(a2 / b2 == 0) by {
            vstd::arithmetic::div_mod::lemma_basic_div(a2, b2);
        }
        assert(a / b >= 0) by {
            vstd::arithmetic::div_mod::lemma_div_pos_is_pos(a, b);
        }
    }
}

/// The scaled height never decreases when the value grows, for a fixed
/// maximum and row count.
pub proof fn lemma_height_monotonic(v1: int, v2: int, rows: int, max: int)
    requires
        0 <= v1 <= v2,
        1 <= rows,
    ensures
        spec_height_eighths(v1, rows, max) <= spec_height_eighths(v2, rows, max),
{
    let d = max_int(max, 1);
    assert(v1 * (rows - 1) * 8 <= v2 * (rows - 1) * 8) by (nonlinear_arith)
        requires
            0 <= v1 <= v2,
            1 <= rows,
    ;
    lemma_div_is_ordered(v1 * (rows - 1) * 8, v2 * (rows - 1) * 8, d);
}

/// Scaling is exact at the extremes: zero maps to zero, and (for a
/// positive maximum) the maximum itself maps to the full height of
/// `(rows - 1) * 8` eighths.
pub proof fn lemma_height_extremes(rows: int, max: int)
    requires
        1 <= rows,
    ensures
        spec_height_eighths(0, rows, max) == 0,
        max >= 1 ==> spec_height_eighths(max, rows, max) == (rows - 1) * 8,
{
    let d = max_int(max, 1);
    assert(0 * (rows - 1) * 8 == 0) by (nonlinear_arith);
    assert(0int / d == 0) by {
        vstd::arithmetic::div_mod::lemma_div_of0(d);
    }
    if max >= 1 {
        assert(max * (rows - 1) * 8 == ((rows - 1) * 8) * max) by (nonlinear_arith);
        lemma_div_multiples_vanish((rows - 1) * 8, max);
    }
}

} // verus!
