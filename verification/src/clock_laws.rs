//! What holds of clock fits and of the mappings they give.

use crate::clock::{
    affine, are_intercepts, div_toward_zero, is_fit_of, is_theil_sen, lemma_slopes_valid,
    pairwise_slopes, slope_between, slopes_from, slopes_upto, worst_distance, ClockOffset, Pair,
    SLOPE_DENOMINATOR,
};
use crate::line::{
    ceil_ratio, clamp, distance, intercepts_rank_by_value, is_intercept, round_ratio, Intercept,
    Slope,
};
use crate::order::{
    all_valid, count, is_upper_median, lemma_count_complement, lemma_count_concat,
    lemma_count_monotone, lemma_count_pointwise, order_statistic_has_rank, rank_determines_element,
    Ranked,
};
use vstd::prelude::*;

verus! {

/// Equal ratios have equal floors.
proof fn lemma_floor_same_ratio(x: int, u: int, y: int, v: int)
    requires
        u > 0,
        v > 0,
        x * v == y * u,
    ensures
        x / u == y / v,
{
    let w = x / u;
    let r = x % u;
    vstd::arithmetic::div_mod::lemma_fundamental_div_mod(x, u);
    let s = y - w * v;
    assert(s * u == r * v) by (nonlinear_arith)
        requires
            x * v == y * u,
            x == u * w + r,
            s == y - w * v,
    ;
    assert(0 <= s < v) by (nonlinear_arith)
        requires
            s * u == r * v,
            0 <= r < u,
            u > 0,
            v > 0,
    ;
    vstd::arithmetic::div_mod::lemma_fundamental_div_mod_converse(y, v, w, s);
}

/// Equal ratios round to the same integer.
proof fn lemma_round_same_ratio(n: int, d: int, m: int, e: int)
    requires
        d > 0,
        e > 0,
        n * e == m * d,
    ensures
        round_ratio(n, d) == round_ratio(m, e),
{
    assert((n >= 0) == (m >= 0)) by (nonlinear_arith)
        requires
            d > 0,
            e > 0,
            n * e == m * d,
    ;
    let (p, q) = if n >= 0 {
        (n, m)
    } else {
        (-n, -m)
    };
    assert((2 * p + d) * (2 * e) == (2 * q + e) * (2 * d)) by (nonlinear_arith)
        requires
            n * e == m * d,
            (p == n && q == m) || (p == -n && q == -m),
    ;
    lemma_floor_same_ratio(2 * p + d, 2 * d, 2 * q + e, 2 * e);
}

/// Equal ratios have equal ceilings.
proof fn lemma_ceil_same_ratio(n: int, d: int, m: int, e: int)
    requires
        d > 0,
        e > 0,
        n * e == m * d,
    ensures
        ceil_ratio(n, d) == ceil_ratio(m, e),
{
    let w = ceil_ratio(n, d);
    let r = (n + d - 1) % d;
    vstd::arithmetic::div_mod::lemma_fundamental_div_mod(n + d - 1, d);
    // w - 1 < n / d <= w
    let s = m + e - 1 - w * e;
    assert(-e < m - w * e <= 0) by (nonlinear_arith)
        requires
            n + d - 1 == d * w + r,
            0 <= r < d,
            n * e == m * d,
            d > 0,
            e > 0,
    {
        assert((m - w * e) * d == (n - w * d) * e);
        assert(-d < n - w * d <= 0);
        assert(-d * e < (n - w * d) * e <= 0);
    }
    assert(m + e - 1 == w * e + s);
    vstd::arithmetic::div_mod::lemma_fundamental_div_mod_converse(m + e - 1, e, w, s);
}

/// A whole multiple of the denominator rounds to itself.
proof fn lemma_round_whole(k: int, d: int)
    requires
        d > 0,
    ensures
        round_ratio(k * d, d) == k,
{
    assert((k * d) * 1 == k * d);
    lemma_round_same_ratio(k * d, d, k, 1);
    assert(round_ratio(k, 1) == k) by {
        assert((2 * k + 1) / 2 == k);
        assert((-2 * k + 1) / 2 == -k);
    }
}

/// Scaling one intercept by two ways of writing the same slope.
proof fn lemma_intercepts_agree(p: Pair, s: Slope, a: Intercept, t: Slope, b: Intercept)
    requires
        is_intercept(p.src_ns as int, p.host_ns as int, s, a),
        is_intercept(p.src_ns as int, p.host_ns as int, t, b),
        s.same_ratio(t),
    ensures
        a.scaled(s.run as int) * t.run == b.scaled(t.run as int) * s.run,
{
    let (h, x, sn, sr, tn, tr) = (
        p.host_ns as int,
        p.src_ns as int,
        s.num(),
        s.run as int,
        t.num(),
        t.run as int,
    );
    assert((h * sr - sn * x) * tr == (h * tr - tn * x) * sr) by (nonlinear_arith)
        requires
            sn * tr == tn * sr,
    ;
}

/// Two intercepts keep their order when the slope is written differently.
proof fn lemma_order_agrees(a: int, b: int, c: int, d: int, r: int, q: int)
    requires
        r > 0,
        q > 0,
        a * q == c * r,
        b * q == d * r,
    ensures
        a <= b <==> c <= d,
        distance(a, b) * q == distance(c, d) * r,
{
    assert(a <= b <==> c <= d) by (nonlinear_arith)
        requires
            r > 0,
            q > 0,
            a * q == c * r,
            b * q == d * r,
    ;
    assert((b - a) * q == (d - c) * r) by (nonlinear_arith)
        requires
            a * q == c * r,
            b * q == d * r,
    ;
    assert((a - b) * q == (c - d) * r) by (nonlinear_arith)
        requires
            a * q == c * r,
            b * q == d * r,
    ;
}

proof fn lemma_worst_agrees(
    pairs: Seq<Pair>,
    s: Slope,
    cs: Seq<Intercept>,
    a: Intercept,
    t: Slope,
    ds: Seq<Intercept>,
    b: Intercept,
    n: int,
)
    requires
        0 <= n <= pairs.len(),
        s.run > 0,
        t.run > 0,
        s.same_ratio(t),
        are_intercepts(pairs, s, cs),
        are_intercepts(pairs, t, ds),
        a.scaled(s.run as int) * t.run == b.scaled(t.run as int) * s.run,
    ensures
        worst_distance(cs, n, a, s.run as int) == worst_distance(ds, n, b, t.run as int),
    decreases n,
{
    if n > 0 {
        lemma_worst_agrees(pairs, s, cs, a, t, ds, b, n - 1);
        let (r, q) = (s.run as int, t.run as int);
        lemma_intercepts_agree(pairs[n - 1], s, cs[n - 1], t, ds[n - 1]);
        lemma_order_agrees(
            cs[n - 1].scaled(r),
            a.scaled(r),
            ds[n - 1].scaled(q),
            b.scaled(q),
            r,
            q,
        );
        lemma_ceil_same_ratio(
            distance(cs[n - 1].scaled(r), a.scaled(r)),
            r,
            distance(ds[n - 1].scaled(q), b.scaled(q)),
            q,
        );
    }
}

/// The median intercept has the same value however the slope is written.
proof fn lemma_medians_agree(
    pairs: Seq<Pair>,
    s: Slope,
    cs: Seq<Intercept>,
    a: Intercept,
    t: Slope,
    ds: Seq<Intercept>,
    b: Intercept,
)
    requires
        s.run > 0,
        t.run > 0,
        s.same_ratio(t),
        are_intercepts(pairs, s, cs),
        are_intercepts(pairs, t, ds),
        is_upper_median(cs, a),
        is_upper_median(ds, b),
    ensures
        a.scaled(s.run as int) * t.run == b.scaled(t.run as int) * s.run,
{
    let (r, q) = (s.run as int, t.run as int);
    let k = cs.len() as int / 2;
    order_statistic_has_rank(cs, k, a);
    order_statistic_has_rank(ds, k, b);
    let i = choose|i: int| 0 <= i < cs.len() && cs[i] == a;
    let j = choose|j: int| 0 <= j < ds.len() && ds[j] == b;
    let x = ds[i];
    lemma_intercepts_agree(pairs[i], s, cs[i], t, ds[i]);
    assert forall|l: int| 0 <= l < cs.len() implies (#[trigger] cs[l]).at_most(a) == ds[l].at_most(x)
        && a.at_most(cs[l]) == x.at_most(ds[l]) by {
        lemma_intercepts_agree(pairs[l], s, cs[l], t, ds[l]);
        lemma_order_agrees(cs[l].scaled(r), a.scaled(r), ds[l].scaled(q), x.scaled(q), r, q);
        lemma_order_agrees(a.scaled(r), cs[l].scaled(r), x.scaled(q), ds[l].scaled(q), r, q);
        intercepts_rank_by_value(cs[l], a, r);
        intercepts_rank_by_value(a, cs[l], r);
        intercepts_rank_by_value(ds[l], x, q);
        intercepts_rank_by_value(x, ds[l], q);
    }
    lemma_count_pointwise(
        cs,
        ds,
        |y: Intercept| y.at_most(a),
        |y: Intercept| y.at_most(x),
    );
    lemma_count_pointwise(
        cs,
        ds,
        |y: Intercept| !a.at_most(y),
        |y: Intercept| !x.at_most(y),
    );
    rank_determines_element(ds, k, x, b);
    intercepts_rank_by_value(x, b, q);
    intercepts_rank_by_value(b, x, q);
}

/// A set of observations has one fit: the slope, offset and residual leave no
/// choice.
pub proof fn fit_is_unique(pairs: Seq<Pair>, c: ClockOffset, e: ClockOffset)
    requires
        is_fit_of(pairs, c),
        is_fit_of(pairs, e),
    ensures
        c.slope_num == e.slope_num,
        c.slope_den == e.slope_den,
        c.offset_ns == e.offset_ns,
        c.residual_max_ns == e.residual_max_ns,
{
    let (s, cs, a) = choose|s: Slope, cs: Seq<Intercept>, a: Intercept| #[trigger]
        is_theil_sen(pairs, s, cs, a, c);
    let (t, ds, b) = choose|t: Slope, ds: Seq<Intercept>, b: Intercept| #[trigger]
        is_theil_sen(pairs, t, ds, b, e);
    let slopes = pairwise_slopes(pairs);
    let k = slopes.len() as int / 2;
    lemma_slopes_valid(pairs, pairs.len() as int);
    order_statistic_has_rank(slopes, k, s);
    order_statistic_has_rank(slopes, k, t);
    let i = choose|i: int| 0 <= i < slopes.len() && slopes[i] == s;
    let j = choose|j: int| 0 <= j < slopes.len() && slopes[j] == t;
    assert(slopes[i].valid() && slopes[j].valid());
    rank_determines_element(slopes, k, s, t);
    let (r, q) = (s.run as int, t.run as int);
    let m = SLOPE_DENOMINATOR as int;
    assert((s.num() * m) * q == (t.num() * m) * r) by (nonlinear_arith)
        requires
            s.num() * q == t.num() * r,
    ;
    lemma_round_same_ratio(s.num() * m, r, t.num() * m, q);
    lemma_medians_agree(pairs, s, cs, a, t, ds, b);
    lemma_round_same_ratio(a.scaled(r), r, b.scaled(q), q);
    lemma_worst_agrees(pairs, s, cs, a, t, ds, b, pairs.len() as int);
}

/// Observation `p` lies on `host = slope * src + offset`.
pub open spec fn on_line(p: Pair, slope: int, offset: int) -> bool {
    p.host_ns == slope * p.src_ns + offset
}

/// The slope through two observations on a line is that of the line.
proof fn lemma_slope_on_line(p: Pair, q: Pair, slope: int, offset: int)
    requires
        on_line(p, slope, offset),
        on_line(q, slope, offset),
        p.src_ns != q.src_ns,
    ensures
        slope_between(p, q).num() == slope * slope_between(p, q).run,
{
    let (x, y) = (p.src_ns as int, q.src_ns as int);
    assert(slope * x - slope * y == slope * (x - y)) by (nonlinear_arith);
    assert(slope * y - slope * x == slope * (y - x)) by (nonlinear_arith);
    assert(slope * (y - x) == -(slope * (x - y))) by (nonlinear_arith);
    let s = slope_between(p, q);
    if p.host_ns == q.host_ns {
        assert(s.rise == 0);
    }
}

/// The slope of a line has this value, however it is written.
pub open spec fn slope_is(s: Slope, slope: int) -> bool {
    s.num() == slope * s.run
}

proof fn lemma_row_on_line(pairs: Seq<Pair>, i: int, j: int, slope: int, offset: int)
    requires
        0 <= i < pairs.len(),
        j <= pairs.len(),
        forall|k: int| 0 <= k < pairs.len() ==> on_line(#[trigger] pairs[k], slope, offset),
    ensures
        forall|k: int|
            0 <= k < slopes_from(pairs, i, j).len() ==> slope_is(
                #[trigger] slopes_from(pairs, i, j)[k],
                slope,
            ),
    decreases j - i,
{
    if j > i + 1 {
        lemma_row_on_line(pairs, i, j - 1, slope, offset);
        let before = slopes_from(pairs, i, j - 1);
        if pairs[i].src_ns != pairs[j - 1].src_ns {
            lemma_slope_on_line(pairs[i], pairs[j - 1], slope, offset);
            let after = before.push(slope_between(pairs[i], pairs[j - 1]));
            assert forall|k: int| 0 <= k < after.len() implies slope_is(
                #[trigger] after[k],
                slope,
            ) by {
                if k < before.len() {
                    assert(slope_is(before[k], slope));
                }
            }
        }
    }
}

proof fn lemma_slopes_on_line(pairs: Seq<Pair>, i: int, slope: int, offset: int)
    requires
        0 <= i <= pairs.len(),
        forall|k: int| 0 <= k < pairs.len() ==> on_line(#[trigger] pairs[k], slope, offset),
    ensures
        forall|k: int|
            0 <= k < slopes_upto(pairs, i).len() ==> slope_is(
                #[trigger] slopes_upto(pairs, i)[k],
                slope,
            ),
    decreases i,
{
    if i > 0 {
        lemma_slopes_on_line(pairs, i - 1, slope, offset);
        lemma_row_on_line(pairs, i - 1, pairs.len() as int, slope, offset);
        let a = slopes_upto(pairs, i - 1);
        let b = slopes_from(pairs, i - 1, pairs.len() as int);
        assert forall|k: int| 0 <= k < (a + b).len() implies slope_is(
            #[trigger] (a + b)[k],
            slope,
        ) by {
            if k >= a.len() {
                assert(slope_is(b[k - a.len()], slope));
            }
        }
    }
}

/// An observation on the line has the line's offset as its intercept.
proof fn lemma_intercept_on_line(p: Pair, s: Slope, c: Intercept, slope: int, offset: int)
    requires
        on_line(p, slope, offset),
        slope_is(s, slope),
        is_intercept(p.src_ns as int, p.host_ns as int, s, c),
    ensures
        c.scaled(s.run as int) == offset * s.run,
{
    let (x, r) = (p.src_ns as int, s.run as int);
    assert((slope * x + offset) * r - (slope * r) * x == offset * r) by (nonlinear_arith);
}

proof fn lemma_worst_zero(cs: Seq<Intercept>, n: int, mid: Intercept, run: int)
    requires
        0 <= n <= cs.len(),
        run > 0,
        forall|i: int| 0 <= i < cs.len() ==> (#[trigger] cs[i]).scaled(run) == mid.scaled(run),
    ensures
        worst_distance(cs, n, mid, run) == 0,
    decreases n,
{
    if n > 0 {
        lemma_worst_zero(cs, n - 1, mid, run);
        assert((run - 1) / run == 0) by (nonlinear_arith)
            requires
                run > 0,
        ;
    }
}

/// Observations that all lie on one line give back that line, with no residual.
pub proof fn fit_recovers_a_line(pairs: Seq<Pair>, slope: int, offset: int, c: ClockOffset)
    requires
        forall|k: int| 0 <= k < pairs.len() ==> on_line(#[trigger] pairs[k], slope, offset),
        is_fit_of(pairs, c),
    ensures
        c.slope_den == SLOPE_DENOMINATOR,
        c.slope_num == slope * SLOPE_DENOMINATOR,
        c.offset_ns == clamp(offset, i128::MIN as int, i128::MAX as int),
        c.residual_max_ns == 0,
{
    let (s, cs, a) = choose|s: Slope, cs: Seq<Intercept>, a: Intercept| #[trigger]
        is_theil_sen(pairs, s, cs, a, c);
    let slopes = pairwise_slopes(pairs);
    lemma_slopes_valid(pairs, pairs.len() as int);
    order_statistic_has_rank(slopes, slopes.len() as int / 2, s);
    let i = choose|i: int| 0 <= i < slopes.len() && slopes[i] == s;
    assert(slopes[i].valid());
    lemma_slopes_on_line(pairs, pairs.len() as int, slope, offset);
    assert(slope_is(slopes[i], slope));
    lemma_line_of_slope(s, slope);
    order_statistic_has_rank(cs, cs.len() as int / 2, a);
    let j = choose|j: int| 0 <= j < cs.len() && cs[j] == a;
    assert forall|l: int| 0 <= l < cs.len() implies (#[trigger] cs[l]).scaled(s.run as int)
        == offset * s.run by {
        lemma_intercept_on_line(pairs[l], s, cs[l], slope, offset);
    }
    assert(a.scaled(s.run as int) == cs[j].scaled(s.run as int));
    lemma_round_whole(offset, s.run as int);
    lemma_worst_zero(cs, cs.len() as int, a, s.run as int);
}

proof fn lemma_line_of_slope(s: Slope, slope: int)
    requires
        s.run > 0,
        slope_is(s, slope),
    ensures
        round_ratio(s.num() * SLOPE_DENOMINATOR, s.run as int) == slope * SLOPE_DENOMINATOR,
{
    let (r, m) = (s.run as int, SLOPE_DENOMINATOR as int);
    assert((slope * r) * m == (slope * m) * r) by (nonlinear_arith);
    lemma_round_whole(slope * m, r);
}

/// How many slopes a row holds when source times are distinct.
proof fn lemma_row_len(pairs: Seq<Pair>, i: int, j: int)
    requires
        0 <= i < j <= pairs.len(),
        forall|k: int, l: int|
            0 <= k < l < pairs.len() ==> (#[trigger] pairs[k]).src_ns != (
            #[trigger] pairs[l]).src_ns,
    ensures
        slopes_from(pairs, i, j).len() == j - i - 1,
    decreases j - i,
{
    if j > i + 1 {
        lemma_row_len(pairs, i, j - 1);
    }
}

proof fn lemma_slopes_len(pairs: Seq<Pair>, i: int)
    requires
        0 <= i <= pairs.len(),
        forall|k: int, l: int|
            0 <= k < l < pairs.len() ==> (#[trigger] pairs[k]).src_ns != (
            #[trigger] pairs[l]).src_ns,
    ensures
        2 * slopes_upto(pairs, i).len() == i * (2 * pairs.len() - i - 1),
    decreases i,
{
    if i > 0 {
        lemma_slopes_len(pairs, i - 1);
        lemma_row_len(pairs, i - 1, pairs.len() as int);
        let n = pairs.len() as int;
        assert(i * (2 * n - i - 1) == (i - 1) * (2 * n - (i - 1) - 1) + 2 * (n - i))
            by (nonlinear_arith);
    } else {
        assert(0 * (2 * pairs.len() - 1) == 0);
    }
}

/// A row has at most one stray slope, unless it starts at the stray observation.
proof fn lemma_row_strays(
    pairs: Seq<Pair>,
    i: int,
    j: int,
    stray: int,
    slope: int,
    offset: int,
)
    requires
        0 <= i < j <= pairs.len(),
        forall|k: int|
            0 <= k < pairs.len() && k != stray ==> on_line(#[trigger] pairs[k], slope, offset),
    ensures
        i == stray ==> count(slopes_from(pairs, i, j), |s: Slope| !slope_is(s, slope)) <= j - i - 1,
        i != stray ==> count(slopes_from(pairs, i, j), |s: Slope| !slope_is(s, slope)) <= if i
            < stray < j {
            1int
        } else {
            0int
        },
    decreases j - i,
{
    let f = |s: Slope| !slope_is(s, slope);
    if j > i + 1 {
        lemma_row_strays(pairs, i, j - 1, stray, slope, offset);
        let before = slopes_from(pairs, i, j - 1);
        if pairs[i].src_ns != pairs[j - 1].src_ns {
            let x = slope_between(pairs[i], pairs[j - 1]);
            assert(before.push(x).drop_last() =~= before);
            if i != stray && j - 1 != stray {
                lemma_slope_on_line(pairs[i], pairs[j - 1], slope, offset);
            }
        }
    }
}

proof fn lemma_slopes_strays(pairs: Seq<Pair>, i: int, stray: int, slope: int, offset: int)
    requires
        0 <= i <= pairs.len(),
        0 <= stray < pairs.len(),
        forall|k: int|
            0 <= k < pairs.len() && k != stray ==> on_line(#[trigger] pairs[k], slope, offset),
    ensures
        count(slopes_upto(pairs, i), |s: Slope| !slope_is(s, slope)) <= if i <= stray {
            i
        } else {
            pairs.len() - 1
        },
    decreases i,
{
    let f = |s: Slope| !slope_is(s, slope);
    if i > 0 {
        lemma_slopes_strays(pairs, i - 1, stray, slope, offset);
        lemma_row_strays(pairs, i - 1, pairs.len() as int, stray, slope, offset);
        lemma_count_concat(
            slopes_upto(pairs, i - 1),
            slopes_from(pairs, i - 1, pairs.len() as int),
            f,
        );
    }
}

/// Fewer than half of `s` miss a value that all others share: the median has it.
proof fn lemma_median_of_majority<T: Ranked>(
    s: Seq<T>,
    x: T,
    like: T,
    stray: spec_fn(T) -> bool,
    strays: int,
)
    requires
        all_valid(s),
        x.valid(),
        like.valid(),
        is_upper_median(s, x),
        count(s, stray) <= strays,
        2 * strays < s.len(),
        forall|i: int|
            0 <= i < s.len() && !stray(#[trigger] s[i]) ==> s[i].at_most(like) && like.at_most(
                s[i],
            ),
    ensures
        x.at_most(like),
        like.at_most(x),
{
    let k = s.len() as int / 2;
    order_statistic_has_rank(s, k, x);
    lemma_count_complement(s, stray);
    let kept = |y: T| !stray(y);
    if !x.at_most(like) {
        let below = |y: T| !x.at_most(y);
        assert forall|i: int| 0 <= i < s.len() && kept(#[trigger] s[i]) implies below(s[i]) by {
            assert(s[i].valid());
            if x.at_most(s[i]) {
                T::at_most_is_transitive(x, s[i], like);
            }
        }
        lemma_count_monotone(s, kept, below);
    }
    if !like.at_most(x) {
        let upto = |y: T| y.at_most(x);
        assert forall|i: int| 0 <= i < s.len() && upto(#[trigger] s[i]) implies stray(s[i]) by {
            assert(s[i].valid());
            if !stray(s[i]) {
                T::at_most_is_transitive(like, s[i], x);
            }
        }
        lemma_count_monotone(s, upto, stray);
    }
}

/// All intercepts but one lie on `mid`, and that one `miss` away.
proof fn lemma_worst_of_one(
    cs: Seq<Intercept>,
    n: int,
    mid: Intercept,
    run: int,
    at: int,
    miss: int,
)
    requires
        0 <= n <= cs.len(),
        run > 0,
        miss >= 0,
        forall|i: int|
            0 <= i < cs.len() && i != at ==> (#[trigger] cs[i]).scaled(run) == mid.scaled(run),
        0 <= at < cs.len(),
        distance(cs[at].scaled(run), mid.scaled(run)) == miss * run,
    ensures
        worst_distance(cs, n, mid, run) == if at < n {
            miss
        } else {
            0
        },
    decreases n,
{
    if n > 0 {
        lemma_worst_of_one(cs, n - 1, mid, run, at, miss);
        vstd::arithmetic::div_mod::lemma_fundamental_div_mod_converse(run - 1, run, 0, run - 1);
        vstd::arithmetic::div_mod::lemma_fundamental_div_mod_converse(
            miss * run + run - 1,
            run,
            miss,
            run - 1,
        );
    }
}

/// Robustness: with at least five observations at distinct source times, one
/// of them may be anywhere and the fit is still the line of the others. The
/// residual is how far that one lies from the line.
pub proof fn fit_withstands_one_outlier(
    pairs: Seq<Pair>,
    outlier: int,
    slope: int,
    offset: int,
    c: ClockOffset,
)
    requires
        pairs.len() >= 5,
        0 <= outlier < pairs.len(),
        forall|k: int, l: int|
            0 <= k < l < pairs.len() ==> (#[trigger] pairs[k]).src_ns != (
            #[trigger] pairs[l]).src_ns,
        forall|k: int|
            0 <= k < pairs.len() && k != outlier ==> on_line(#[trigger] pairs[k], slope, offset),
        is_fit_of(pairs, c),
    ensures
        c.slope_den == SLOPE_DENOMINATOR,
        c.slope_num == slope * SLOPE_DENOMINATOR,
        c.offset_ns == clamp(offset, i128::MIN as int, i128::MAX as int),
        c.residual_max_ns == clamp(
            distance(
                pairs[outlier].host_ns as int,
                slope * pairs[outlier].src_ns + offset,
            ),
            0,
            u64::MAX as int,
        ),
{
    let (s, cs, a) = choose|s: Slope, cs: Seq<Intercept>, a: Intercept| #[trigger]
        is_theil_sen(pairs, s, cs, a, c);
    let n = pairs.len() as int;
    let slopes = pairwise_slopes(pairs);
    lemma_slopes_valid(pairs, n);
    lemma_slopes_len(pairs, n);
    lemma_slopes_strays(pairs, n, outlier, slope, offset);
    assert(n * (n - 1) > 4 * (n - 1)) by (nonlinear_arith)
        requires
            n >= 5,
    ;
    assert(n * (2 * n - n - 1) == n * (n - 1)) by (nonlinear_arith);
    order_statistic_has_rank(slopes, slopes.len() as int / 2, s);
    let i = choose|i: int| 0 <= i < slopes.len() && slopes[i] == s;
    assert(slopes[i].valid());
    let first: int = if outlier == 0 {
        1
    } else {
        0
    };
    let second: int = if outlier <= 1 {
        2
    } else {
        1
    };
    let like = slope_between(pairs[first], pairs[second]);
    assert(pairs[first].src_ns != pairs[second].src_ns);
    lemma_slope_on_line(pairs[first], pairs[second], slope, offset);
    let f = |x: Slope| !slope_is(x, slope);
    assert forall|l: int| 0 <= l < slopes.len() && !f(#[trigger] slopes[l]) implies slopes[
        l
    ].at_most(like) && like.at_most(slopes[l]) by {
        let (u, v) = (slopes[l].run as int, like.run as int);
        assert((slope * u) * v == (slope * v) * u) by (nonlinear_arith);
    }
    lemma_median_of_majority(slopes, s, like, f, n - 1);
    let (r, v) = (s.run as int, like.run as int);
    assert(s.num() == slope * r) by (nonlinear_arith)
        requires
            s.num() * v == (slope * v) * r,
            v > 0,
    ;
    lemma_line_of_slope(s, slope);
    let g = |x: Intercept| x.scaled(r) != offset * r;
    assert forall|l: int| 0 <= l < cs.len() && l != outlier implies !g(#[trigger] cs[l]) by {
        lemma_intercept_on_line(pairs[l], s, cs[l], slope, offset);
    }
    lemma_count_one(cs, g, outlier);
    let kept = cs[first];
    assert(!g(kept));
    assert forall|l: int| 0 <= l < cs.len() && !g(#[trigger] cs[l]) implies cs[l].at_most(kept)
        && kept.at_most(cs[l]) by {
        intercepts_rank_by_value(cs[l], kept, r);
        intercepts_rank_by_value(kept, cs[l], r);
    }
    lemma_median_of_majority(cs, a, kept, g, 1);
    order_statistic_has_rank(cs, cs.len() as int / 2, a);
    let j = choose|j: int| 0 <= j < cs.len() && cs[j] == a;
    intercepts_rank_by_value(cs[j], kept, r);
    intercepts_rank_by_value(kept, cs[j], r);
    lemma_round_whole(offset, r);
    let (x, h) = (pairs[outlier].src_ns as int, pairs[outlier].host_ns as int);
    let miss = distance(h, slope * x + offset);
    assert(h * r - (slope * r) * x - offset * r == (h - (slope * x + offset)) * r && (-(h - (slope
        * x + offset))) * r == -((h - (slope * x + offset)) * r)) by (nonlinear_arith);
    assert((h - (slope * x + offset)) * r >= 0 <==> h >= slope * x + offset) by (nonlinear_arith)
        requires
            r > 0,
    ;
    assert(is_intercept(x, h, s, cs[outlier]));
    assert(distance(cs[outlier].scaled(r), a.scaled(r)) == miss * r);
    lemma_worst_of_one(cs, cs.len() as int, a, r, outlier, miss);
}

proof fn lemma_count_one<T>(s: Seq<T>, f: spec_fn(T) -> bool, at: int)
    requires
        forall|i: int| 0 <= i < s.len() && i != at ==> !f(#[trigger] s[i]),
    ensures
        count(s, f) <= 1,
        s.len() <= at ==> count(s, f) == 0,
    decreases s.len(),
{
    if s.len() > 0 {
        assert forall|i: int| 0 <= i < s.len() - 1 && i != at implies !f(
            #[trigger] s.drop_last()[i],
        ) by {
            assert(!f(s[i]));
        }
        lemma_count_one(s.drop_last(), f, at);
        if at != s.len() - 1 {
            assert(!f(s[s.len() - 1]));
        }
    }
}

/// The identity mapping leaves every 64-bit timestamp as it is.
pub proof fn identity_maps_to_itself(src: u64)
    ensures
        affine(0, 1, 1, src as int) == src,
{
}

/// A mapping with a non-negative slope never swaps two timestamps of one
/// source, as long as neither result is cut to 64 bits.
pub proof fn mapping_keeps_order(offset: int, num: int, den: int, a: u64, b: u64)
    requires
        num >= 0,
        den > 0,
        a <= b,
        offset + div_toward_zero(num * b, den) <= u64::MAX,
    ensures
        affine(offset, num, den, a as int) <= affine(offset, num, den, b as int),
{
    assert(0 <= num * a <= num * b) by (nonlinear_arith)
        requires
            num >= 0,
            0 <= a <= b,
    ;
    vstd::arithmetic::div_mod::lemma_div_is_ordered(num * a, num * b, den);
}

/// Rounding a ratio misses it by half at most.
proof fn lemma_round_error(n: int, d: int)
    requires
        d > 0,
    ensures
        -d <= 2 * (round_ratio(n, d) * d) - 2 * n <= d,
{
    let m = if n >= 0 {
        n
    } else {
        -n
    };
    let k = (2 * m + d) / (2 * d);
    vstd::arithmetic::div_mod::lemma_fundamental_div_mod(2 * m + d, 2 * d);
    assert(0 <= 2 * m + d - 2 * (k * d) < 2 * d) by (nonlinear_arith)
        requires
            2 * m + d == (2 * d) * k + (2 * m + d) % (2 * d),
            0 <= (2 * m + d) % (2 * d) < 2 * d,
    ;
    assert((-k) * d == -(k * d)) by (nonlinear_arith);
}

/// The largest distance is at least that of each intercept.
proof fn lemma_worst_covers(cs: Seq<Intercept>, n: int, mid: Intercept, run: int, i: int)
    requires
        0 <= i < n <= cs.len(),
        run > 0,
    ensures
        distance(cs[i].scaled(run), mid.scaled(run)) <= worst_distance(cs, n, mid, run) * run,
    decreases n,
{
    let d = distance(cs[n - 1].scaled(run), mid.scaled(run));
    let here = ceil_ratio(d, run);
    vstd::arithmetic::div_mod::lemma_fundamental_div_mod(d + run - 1, run);
    assert(d <= here * run) by (nonlinear_arith)
        requires
            d + run - 1 == run * here + (d + run - 1) % run,
            (d + run - 1) % run < run,
    ;
    let worst = worst_distance(cs, n, mid, run);
    if i == n - 1 {
        assert(here * run <= worst * run) by (nonlinear_arith)
            requires
                here <= worst,
                run > 0,
        ;
    } else {
        lemma_worst_covers(cs, n - 1, mid, run, i);
        let rest = worst_distance(cs, n - 1, mid, run);
        assert(rest * run <= worst * run) by (nonlinear_arith)
            requires
                rest <= worst,
                run > 0,
        ;
    }
}

/// Division toward zero misses by less than one.
proof fn lemma_truncation_error(n: int, d: int)
    requires
        d > 0,
    ensures
        -d < div_toward_zero(n, d) * d - n < d,
{
    let m = if n >= 0 {
        n
    } else {
        -n
    };
    vstd::arithmetic::div_mod::lemma_fundamental_div_mod(m, d);
    let k = m / d;
    assert(0 <= m - k * d < d) by (nonlinear_arith)
        requires
            m == d * k + m % d,
            0 <= m % d < d,
    ;
    assert((-k) * d == -(k * d)) by (nonlinear_arith);
}

/// How the errors of rounding the intercept, of rounding the slope and of
/// dividing add up. `mid / r` and `n / r` are the exact intercept and slope.
proof fn lemma_errors_add_up(
    mid: int,
    n: int,
    r: int,
    num: int,
    off: int,
    q: int,
    src: int,
    host: int,
    res: int,
)
    requires
        r > 0,
        src >= 0,
        -(res * r) <= host * r - n * src - mid <= res * r,
        -r <= 2 * (off * r) - 2 * mid <= r,
        -r <= 2 * (num * r) - 2 * (n * SLOPE_DENOMINATOR) <= r,
        -SLOPE_DENOMINATOR < q * SLOPE_DENOMINATOR - num * src < SLOPE_DENOMINATOR,
    ensures
        -(2 * SLOPE_DENOMINATOR * res + 3 * SLOPE_DENOMINATOR + src) <= 2 * SLOPE_DENOMINATOR * (off
            + q - host) <= 2 * SLOPE_DENOMINATOR * res + 3 * SLOPE_DENOMINATOR + src,
{
    let d = SLOPE_DENOMINATOR as int;
    let e1 = host * r - n * src - mid;
    let e2 = 2 * (off * r) - 2 * mid;
    let e3 = 2 * (num * r) - 2 * (n * d);
    let e4 = q * d - num * src;
    let x = 2 * d * (off + q - host);
    let bound = 2 * d * res + 3 * d + src;
    assert(x * r == d * e2 + 2 * (r * e4) + e3 * src - 2 * d * e1) by {
        assert(x * r == 2 * d * (off * r) + 2 * (r * (q * d)) - 2 * d * (host * r))
            by (nonlinear_arith)
            requires
                x == 2 * d * (off + q - host),
        ;
        assert(r * (q * d) == r * e4 + r * (num * src)) by (nonlinear_arith)
            requires
                e4 == q * d - num * src,
        ;
        assert(2 * (r * (num * src)) == e3 * src + 2 * (n * d) * src) by (nonlinear_arith)
            requires
                e3 == 2 * (num * r) - 2 * (n * d),
        ;
        assert(2 * (n * d) * src == 2 * d * (n * src)) by (nonlinear_arith);
        assert(d * e2 == 2 * d * (off * r) - 2 * d * mid) by (nonlinear_arith)
            requires
                e2 == 2 * (off * r) - 2 * mid,
        ;
        assert(2 * d * e1 == 2 * d * (host * r) - 2 * d * (n * src) - 2 * d * mid)
            by (nonlinear_arith)
            requires
                e1 == host * r - n * src - mid,
        ;
    }
    assert(-(r * src) <= e3 * src <= r * src) by (nonlinear_arith)
        requires
            -r <= e3 <= r,
            src >= 0,
    ;
    assert(-(r * d) <= r * e4 <= r * d) by (nonlinear_arith)
        requires
            -d < e4 < d,
            r > 0,
    ;
    assert(-(d * r) <= d * e2 <= d * r && -(2 * d * (res * r)) <= 2 * d * e1 <= 2 * d * (res * r))
        by (nonlinear_arith)
        requires
            d > 0,
            -r <= e2 <= r,
            -(res * r) <= e1 <= res * r,
    ;
    assert(bound * r == d * r + 2 * (r * d) + r * src + 2 * d * (res * r)) by (nonlinear_arith)
        requires
            bound == 2 * d * res + 3 * d + src,
    ;
    assert(-bound <= x <= bound) by (nonlinear_arith)
        requires
            r > 0,
            x * r <= bound * r,
            -(bound * r) <= x * r,
    ;
}

/// A fit misses no observation by more than the residual it reports, but for a
/// nanosecond and a half of rounding and for the slope's fixed point, which is
/// half a unit in thirty bits per nanosecond of source time. Fits whose offset or
/// residual is cut off at the ends of its type are left out.
pub proof fn fit_comes_within_its_residual(pairs: Seq<Pair>, c: ClockOffset, i: int)
    requires
        is_fit_of(pairs, c),
        0 <= i < pairs.len(),
        i128::MIN < c.offset_ns < i128::MAX,
        c.residual_max_ns < u64::MAX,
    ensures
        ({
            let src = pairs[i].src_ns as int;
            let line = c.offset_ns + div_toward_zero(c.slope_num * src, c.slope_den as int);
            2 * SLOPE_DENOMINATOR * distance(line, pairs[i].host_ns as int) <= 2 * SLOPE_DENOMINATOR
                * c.residual_max_ns + 3 * SLOPE_DENOMINATOR + src
        }),
{
    let (s, cs, a) = choose|s: Slope, cs: Seq<Intercept>, a: Intercept| #[trigger]
        is_theil_sen(pairs, s, cs, a, c);
    let slopes = pairwise_slopes(pairs);
    lemma_slopes_valid(pairs, pairs.len() as int);
    order_statistic_has_rank(slopes, slopes.len() as int / 2, s);
    let k = choose|k: int| 0 <= k < slopes.len() && slopes[k] == s;
    assert(slopes[k].valid());
    let run = s.run as int;
    let (src, host) = (pairs[i].src_ns as int, pairs[i].host_ns as int);
    assert(is_intercept(src, host, s, cs[i]));
    lemma_worst_covers(cs, cs.len() as int, a, run, i);
    lemma_round_error(a.scaled(run), run);
    lemma_round_error(s.num() * SLOPE_DENOMINATOR, run);
    lemma_truncation_error(c.slope_num * src, SLOPE_DENOMINATOR as int);
    lemma_errors_add_up(
        a.scaled(run),
        s.num(),
        run,
        c.slope_num as int,
        c.offset_ns as int,
        div_toward_zero(c.slope_num * src, c.slope_den as int),
        src,
        host,
        c.residual_max_ns as int,
    );
    let off = c.offset_ns + div_toward_zero(c.slope_num * src, c.slope_den as int) - host;
    assert(2 * SLOPE_DENOMINATOR * (-off) == -(2 * SLOPE_DENOMINATOR * off)) by (nonlinear_arith);
}

} // verus!
