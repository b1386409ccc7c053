//! The order in which observations come does not matter to a clock fit.

use crate::clock::{
    are_intercepts, is_fit_of, is_line_through, is_theil_sen, lemma_slopes_valid, one_source_time,
    pairwise_slopes, slope_between, slopes_from, slopes_upto, worst_distance, ClockOffset, Pair,
};
use crate::clock_laws::fit_is_unique;
use crate::line::{ceil_ratio, distance, is_intercept, Intercept, Slope};
use crate::order::{
    is_sorting_of, is_upper_median, lemma_multiset_facts, order_statistic_has_rank, Ranked,
};
use vstd::multiset::Multiset;
use vstd::prelude::*;

verus! {

/// What the elements give, all together.
spec fn gather<T, U>(s: Seq<T>, f: spec_fn(T) -> Multiset<U>) -> Multiset<U>
    decreases s.len(),
{
    if s.len() == 0 {
        Multiset::empty()
    } else {
        gather(s.drop_last(), f).add(f(s.last()))
    }
}

proof fn lemma_gather_remove<T, U>(s: Seq<T>, f: spec_fn(T) -> Multiset<U>, k: int)
    requires
        0 <= k < s.len(),
    ensures
        gather(s, f) == gather(s.remove(k), f).add(f(s[k])),
    decreases s.len(),
{
    if k == s.len() - 1 {
        assert(s.remove(k) =~= s.drop_last());
    } else {
        lemma_gather_remove(s.drop_last(), f, k);
        assert(s.drop_last().remove(k) =~= s.remove(k).drop_last());
        assert(s.remove(k).last() == s.last());
        assert(gather(s, f) =~= gather(s.remove(k), f).add(f(s[k])));
    }
}

/// Taking one element out of two rearrangements of each other leaves two
/// rearrangements of each other.
proof fn lemma_take_out<T>(a: Seq<T>, b: Seq<T>) -> (k: int)
    requires
        a.len() > 0,
        a.to_multiset() == b.to_multiset(),
    ensures
        0 <= k < b.len(),
        b[k] == a.last(),
        a.remove(a.len() - 1).to_multiset() == b.remove(k).to_multiset(),
{
    lemma_multiset_facts(a, b);
    assert(a.contains(a.last()));
    let k = choose|k: int| 0 <= k < b.len() && b[k] == a.last();
    a.to_multiset_ensures();
    b.to_multiset_ensures();
    k
}

proof fn lemma_gather_rearranged<T, U>(a: Seq<T>, b: Seq<T>, f: spec_fn(T) -> Multiset<U>)
    requires
        a.to_multiset() == b.to_multiset(),
    ensures
        gather(a, f) == gather(b, f),
    decreases a.len(),
{
    lemma_multiset_facts(a, b);
    if a.len() > 0 {
        let k = lemma_take_out(a, b);
        lemma_gather_rearranged(a.remove(a.len() - 1), b.remove(k), f);
        lemma_gather_remove(a, f, a.len() - 1);
        lemma_gather_remove(b, f, k);
    }
}

proof fn lemma_map_is_gathered<T, U>(s: Seq<T>, g: spec_fn(T) -> U)
    ensures
        s.map_values(g).to_multiset() == gather(s, |x: T| Multiset::singleton(g(x))),
    decreases s.len(),
{
    if s.len() == 0 {
        s.map_values(g).to_multiset_ensures();
        assert(s.map_values(g).to_multiset() =~= Multiset::empty());
    } else {
        lemma_map_is_gathered(s.drop_last(), g);
        let front = s.drop_last().map_values(g);
        assert(s.map_values(g) =~= front.push(g(s.last())));
        front.to_multiset_ensures();
        assert(s.map_values(g).to_multiset() =~= gather(s, |x: T| Multiset::singleton(g(x))));
    }
}

/// The slope of the line through two observations; none at equal source times.
spec fn slope_to(p: Pair) -> spec_fn(Pair) -> Multiset<Slope> {
    |q: Pair|
        if p.src_ns == q.src_ns {
            Multiset::empty()
        } else {
            Multiset::singleton(slope_between(p, q))
        }
}

/// The slopes through each observation and every later one.
spec fn all_slopes(pairs: Seq<Pair>) -> Multiset<Slope>
    decreases pairs.len(),
{
    if pairs.len() == 0 {
        Multiset::empty()
    } else {
        gather(pairs.drop_first(), slope_to(pairs[0])).add(all_slopes(pairs.drop_first()))
    }
}

proof fn lemma_row_is_gathered(pairs: Seq<Pair>, i: int, j: int)
    requires
        0 <= i < j <= pairs.len(),
    ensures
        slopes_from(pairs, i, j).to_multiset() == gather(
            pairs.subrange(i + 1, j),
            slope_to(pairs[i]),
        ),
    decreases j,
{
    let row = slopes_from(pairs, i, j);
    if j == i + 1 {
        row.to_multiset_ensures();
        assert(row.to_multiset() =~= Multiset::empty());
    } else {
        lemma_row_is_gathered(pairs, i, j - 1);
        let before = slopes_from(pairs, i, j - 1);
        before.to_multiset_ensures();
        assert(pairs.subrange(i + 1, j).drop_last() =~= pairs.subrange(i + 1, j - 1));
        assert(row.to_multiset() =~= gather(pairs.subrange(i + 1, j), slope_to(pairs[i])));
    }
}

proof fn lemma_rows_are_gathered(pairs: Seq<Pair>, i: int)
    requires
        0 <= i <= pairs.len(),
    ensures
        slopes_upto(pairs, i).to_multiset().add(all_slopes(pairs.skip(i))) == all_slopes(pairs),
    decreases i,
{
    let n = pairs.len() as int;
    if i == 0 {
        slopes_upto(pairs, 0).to_multiset_ensures();
        assert(pairs.skip(0) =~= pairs);
        assert(slopes_upto(pairs, 0).to_multiset() =~= Multiset::empty());
        assert(Multiset::<Slope>::empty().add(all_slopes(pairs)) =~= all_slopes(pairs));
    } else {
        lemma_rows_are_gathered(pairs, i - 1);
        lemma_row_is_gathered(pairs, i - 1, n);
        let before = slopes_upto(pairs, i - 1);
        let row = slopes_from(pairs, i - 1, n);
        vstd::seq_lib::lemma_multiset_commutative(before, row);
        let rest = pairs.skip(i - 1);
        assert(rest.drop_first() =~= pairs.skip(i));
        assert(rest.drop_first() =~= pairs.subrange(i, n));
        assert(rest[0] == pairs[i - 1]);
        assert(slopes_upto(pairs, i).to_multiset().add(all_slopes(pairs.skip(i)))
            =~= before.to_multiset().add(all_slopes(rest)));
    }
}

proof fn lemma_pairwise_is_gathered(pairs: Seq<Pair>)
    ensures
        pairwise_slopes(pairs).to_multiset() == all_slopes(pairs),
{
    let n = pairs.len() as int;
    lemma_rows_are_gathered(pairs, n);
    assert(pairs.skip(n) =~= Seq::<Pair>::empty());
    assert(pairwise_slopes(pairs).to_multiset() =~= all_slopes(pairs));
}

proof fn lemma_slopes_without_one(s: Seq<Pair>, k: int)
    requires
        0 <= k < s.len(),
    ensures
        all_slopes(s) == all_slopes(s.remove(k)).add(gather(s.remove(k), slope_to(s[k]))),
    decreases s.len(),
{
    let t = s.drop_first();
    if k == 0 {
        assert(s.remove(0) =~= t);
        assert(all_slopes(s) =~= all_slopes(t).add(gather(t, slope_to(s[0]))));
    } else {
        let (x, y) = (s[0], s[k]);
        let left = s.remove(k);
        let inner = t.remove(k - 1);
        lemma_slopes_without_one(t, k - 1);
        lemma_gather_remove(t, slope_to(x), k - 1);
        assert(left.drop_first() =~= inner);
        assert(left.remove(0) =~= inner);
        assert(left[0] == x);
        lemma_gather_remove(left, slope_to(y), 0);
        assert(slope_to(x)(y) == slope_to(y)(x));
        assert(all_slopes(s) =~= all_slopes(left).add(gather(left, slope_to(y))));
    }
}

proof fn lemma_slopes_rearranged(a: Seq<Pair>, b: Seq<Pair>)
    requires
        a.to_multiset() == b.to_multiset(),
    ensures
        all_slopes(a) == all_slopes(b),
    decreases a.len(),
{
    lemma_multiset_facts(a, b);
    if a.len() > 0 {
        let k = lemma_take_out(a, b);
        let (c, d) = (a.remove(a.len() - 1), b.remove(k));
        lemma_slopes_rearranged(c, d);
        lemma_gather_rearranged(c, d, slope_to(a.last()));
        lemma_slopes_without_one(a, a.len() - 1);
        lemma_slopes_without_one(b, k);
    }
}

/// An observation has one intercept for a slope.
proof fn lemma_one_intercept(p: Pair, s: Slope, a: Intercept, b: Intercept)
    requires
        s.run > 0,
        is_intercept(p.src_ns as int, p.host_ns as int, s, a),
        is_intercept(p.src_ns as int, p.host_ns as int, s, b),
    ensures
        a == b,
{
    let r = s.run as int;
    let (u, v) = (a.whole * r + a.part, b.whole * r + b.part);
    assert(a.whole * r >= 0 && b.whole * r >= 0) by (nonlinear_arith)
        requires
            r > 0,
    ;
    assert(a.whole > 0 ==> a.whole * r > 0) by (nonlinear_arith)
        requires
            r > 0,
    ;
    assert(b.whole > 0 ==> b.whole * r > 0) by (nonlinear_arith)
        requires
            r > 0,
    ;
    vstd::arithmetic::div_mod::lemma_fundamental_div_mod_converse(
        u,
        r,
        a.whole as int,
        a.part as int,
    );
    vstd::arithmetic::div_mod::lemma_fundamental_div_mod_converse(
        v,
        r,
        b.whole as int,
        b.part as int,
    );
}

proof fn lemma_worst_bounds(cs: Seq<Intercept>, n: int, mid: Intercept, run: int, i: int)
    requires
        0 <= i < n <= cs.len(),
    ensures
        ceil_ratio(distance(cs[i].scaled(run), mid.scaled(run)), run) <= worst_distance(
            cs,
            n,
            mid,
            run,
        ),
    decreases n,
{
    if i < n - 1 {
        lemma_worst_bounds(cs, n - 1, mid, run, i);
    }
}

proof fn lemma_worst_nonnegative(cs: Seq<Intercept>, n: int, mid: Intercept, run: int)
    ensures
        worst_distance(cs, n, mid, run) >= 0,
    decreases n,
{
    if n > 0 {
        lemma_worst_nonnegative(cs, n - 1, mid, run);
    }
}

/// More intercepts are no closer.
proof fn lemma_worst_grows(
    cs: Seq<Intercept>,
    n: int,
    ds: Seq<Intercept>,
    mid: Intercept,
    run: int,
)
    requires
        0 <= n <= cs.len(),
        forall|x: Intercept| cs.contains(x) ==> ds.contains(x),
    ensures
        worst_distance(cs, n, mid, run) <= worst_distance(ds, ds.len() as int, mid, run),
    decreases n,
{
    if n <= 0 {
        lemma_worst_nonnegative(ds, ds.len() as int, mid, run);
    } else {
        lemma_worst_grows(cs, n - 1, ds, mid, run);
        assert(cs.contains(cs[n - 1]));
        let j = choose|j: int| 0 <= j < ds.len() && ds[j] == cs[n - 1];
        lemma_worst_bounds(ds, ds.len() as int, mid, run, j);
    }
}

proof fn lemma_fit_rearranged(ps: Seq<Pair>, qs: Seq<Pair>, c: ClockOffset)
    requires
        ps.to_multiset() == qs.to_multiset(),
        is_fit_of(ps, c),
    ensures
        is_fit_of(qs, c),
{
    let (s, cs, mid) = choose|s: Slope, cs: Seq<Intercept>, mid: Intercept| #[trigger]
        is_theil_sen(ps, s, cs, mid, c);
    lemma_multiset_facts(ps, qs);
    let (slopes, others) = (pairwise_slopes(ps), pairwise_slopes(qs));
    lemma_pairwise_is_gathered(ps);
    lemma_pairwise_is_gathered(qs);
    lemma_slopes_rearranged(ps, qs);
    lemma_multiset_facts(slopes, others);
    let sorted = choose|t: Seq<Slope>| #[trigger]
        is_sorting_of(t, slopes) && 0 <= slopes.len() as int / 2 < t.len() && t[slopes.len() as int
            / 2] == s;
    assert(is_sorting_of(sorted, others));
    assert(is_upper_median(others, s));
    lemma_slopes_valid(ps, ps.len() as int);
    order_statistic_has_rank(slopes, slopes.len() as int / 2, s);
    let at = choose|i: int| 0 <= i < slopes.len() && slopes[i] == s;
    assert(slopes[at].valid());
    let g = |p: Pair|
        choose|x: Intercept| is_intercept(p.src_ns as int, p.host_ns as int, s, x);
    let ds = qs.map_values(g);
    assert forall|i: int| 0 <= i < ps.len() implies #[trigger] cs[i] == g(ps[i]) by {
        assert(is_intercept(ps[i].src_ns as int, ps[i].host_ns as int, s, cs[i]));
        lemma_one_intercept(ps[i], s, cs[i], g(ps[i]));
    }
    assert(cs =~= ps.map_values(g));
    assert forall|i: int| 0 <= i < qs.len() implies is_intercept(
        qs[i].src_ns as int,
        qs[i].host_ns as int,
        s,
        #[trigger] ds[i],
    ) by {
        assert(qs.contains(qs[i]));
        let j = choose|j: int| 0 <= j < ps.len() && ps[j] == qs[i];
        assert(is_intercept(ps[j].src_ns as int, ps[j].host_ns as int, s, cs[j]));
    }
    assert(are_intercepts(qs, s, ds));
    lemma_map_is_gathered(ps, g);
    lemma_map_is_gathered(qs, g);
    lemma_gather_rearranged(ps, qs, |x: Pair| Multiset::singleton(g(x)));
    lemma_multiset_facts(cs, ds);
    let sorted_cs = choose|t: Seq<Intercept>| #[trigger]
        is_sorting_of(t, cs) && 0 <= cs.len() as int / 2 < t.len() && t[cs.len() as int / 2] == mid;
    assert(is_sorting_of(sorted_cs, ds));
    assert(is_upper_median(ds, mid));
    lemma_worst_grows(cs, cs.len() as int, ds, mid, s.run as int);
    lemma_worst_grows(ds, ds.len() as int, cs, mid, s.run as int);
    assert(is_line_through(ds, s, mid, c));
    assert(is_theil_sen(qs, s, ds, mid, c));
}

/// The order of the observations does not matter: rearranged, they have the same
/// fits, and have none in the same cases.
pub proof fn fit_ignores_order(ps: Seq<Pair>, qs: Seq<Pair>, c: ClockOffset)
    requires
        ps.to_multiset() == qs.to_multiset(),
    ensures
        is_fit_of(ps, c) <==> is_fit_of(qs, c),
        one_source_time(ps) <==> one_source_time(qs),
{
    lemma_multiset_facts(ps, qs);
    if is_fit_of(ps, c) {
        lemma_fit_rearranged(ps, qs, c);
    }
    if is_fit_of(qs, c) {
        lemma_fit_rearranged(qs, ps, c);
    }
    lemma_source_times(ps, qs);
    lemma_source_times(qs, ps);
}

proof fn lemma_source_times(ps: Seq<Pair>, qs: Seq<Pair>)
    requires
        forall|x: Pair| qs.contains(x) ==> ps.contains(x),
    ensures
        one_source_time(ps) ==> one_source_time(qs),
{
    if one_source_time(ps) {
        assert forall|i: int, j: int| 0 <= i < qs.len() && 0 <= j < qs.len() implies (
        #[trigger] qs[i]).src_ns == (#[trigger] qs[j]).src_ns by {
            assert(qs.contains(qs[i]) && qs.contains(qs[j]));
            let k = choose|k: int| 0 <= k < ps.len() && ps[k] == qs[i];
            let l = choose|l: int| 0 <= l < ps.len() && ps[l] == qs[j];
            assert(ps[k].src_ns == ps[l].src_ns);
        }
    }
}

/// Fits of the same observations in another order agree in everything but the
/// time at which they were made.
pub proof fn rearranged_fits_agree(ps: Seq<Pair>, qs: Seq<Pair>, c: ClockOffset, e: ClockOffset)
    requires
        ps.to_multiset() == qs.to_multiset(),
        is_fit_of(ps, c),
        is_fit_of(qs, e),
    ensures
        c.slope_num == e.slope_num,
        c.slope_den == e.slope_den,
        c.offset_ns == e.offset_ns,
        c.residual_max_ns == e.residual_max_ns,
{
    fit_ignores_order(ps, qs, c);
    fit_is_unique(qs, c, e);
}

} // verus!
