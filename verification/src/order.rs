//! Sorting and order statistics over any totally preordered type.

use vstd::prelude::*;

verus! {

/// A type whose valid values are totally preordered.
pub trait Ranked: Sized + Copy {
    /// Which values take part in the order.
    spec fn valid(self) -> bool;

    /// `self` stands at or before `other`.
    spec fn at_most(self, other: Self) -> bool;

    proof fn at_most_is_total(a: Self, b: Self)
        requires
            a.valid(),
            b.valid(),
        ensures
            a.at_most(b) || b.at_most(a),
    ;

    proof fn at_most_is_transitive(a: Self, b: Self, c: Self)
        requires
            a.valid(),
            b.valid(),
            c.valid(),
            a.at_most(b),
            b.at_most(c),
        ensures
            a.at_most(c),
    ;

    /// Decides [`Ranked::at_most`].
    fn ranks_at_most(&self, other: &Self) -> (r: bool)
        requires
            self.valid(),
            other.valid(),
        ensures
            r == self.at_most(*other),
    ;
}

impl Ranked for u64 {
    open spec fn valid(self) -> bool {
        true
    }

    open spec fn at_most(self, other: Self) -> bool {
        self <= other
    }

    proof fn at_most_is_total(a: Self, b: Self) {
    }

    proof fn at_most_is_transitive(a: Self, b: Self, c: Self) {
    }

    fn ranks_at_most(&self, other: &Self) -> (r: bool) {
        *self <= *other
    }
}

impl Ranked for u128 {
    open spec fn valid(self) -> bool {
        true
    }

    open spec fn at_most(self, other: Self) -> bool {
        self <= other
    }

    proof fn at_most_is_total(a: Self, b: Self) {
    }

    proof fn at_most_is_transitive(a: Self, b: Self, c: Self) {
    }

    fn ranks_at_most(&self, other: &Self) -> (r: bool) {
        *self <= *other
    }
}

/// Every element is valid.
pub open spec fn all_valid<T: Ranked>(s: Seq<T>) -> bool {
    forall|i: int| 0 <= i < s.len() ==> (#[trigger] s[i]).valid()
}

/// Non-decreasing from left to right.
pub open spec fn is_sorted<T: Ranked>(s: Seq<T>) -> bool {
    forall|i: int, j: int| 0 <= i <= j < s.len() ==> (#[trigger] s[i]).at_most(#[trigger] s[j])
}

/// `t` holds the elements of `s` in non-decreasing order.
pub open spec fn is_sorting_of<T: Ranked>(t: Seq<T>, s: Seq<T>) -> bool {
    &&& is_sorted(t)
    &&& t.to_multiset() == s.to_multiset()
}

/// `x` stands at position `k` once `s` is sorted.
pub open spec fn is_order_statistic<T: Ranked>(s: Seq<T>, k: int, x: T) -> bool {
    exists|t: Seq<T>| #[trigger] is_sorting_of(t, s) && 0 <= k < t.len() && t[k] == x
}

/// `x` is the upper median of `s`: position `len / 2` once sorted.
pub open spec fn is_upper_median<T: Ranked>(s: Seq<T>, x: T) -> bool {
    is_order_statistic(s, s.len() as int / 2, x)
}

pub proof fn lemma_multiset_facts<T>(a: Seq<T>, b: Seq<T>)
    requires
        a.to_multiset() == b.to_multiset(),
    ensures
        a.len() == b.len(),
        forall|x: T| a.contains(x) <==> b.contains(x),
{
    broadcast use vstd::seq_lib::group_to_multiset_ensures;

    a.to_multiset_ensures();
    b.to_multiset_ensures();
    assert forall|x: T| a.contains(x) <==> b.contains(x) by {
        assert(a.contains(x) <==> a.to_multiset().count(x) > 0);
        assert(b.contains(x) <==> b.to_multiset().count(x) > 0);
    }
}

proof fn lemma_all_valid_same_multiset<T: Ranked>(a: Seq<T>, b: Seq<T>)
    requires
        a.to_multiset() == b.to_multiset(),
        all_valid(a),
    ensures
        all_valid(b),
{
    lemma_multiset_facts(a, b);
    assert forall|i: int| 0 <= i < b.len() implies (#[trigger] b[i]).valid() by {
        assert(b.contains(b[i]));
        let j = choose|j: int| 0 <= j < a.len() && a[j] == b[i];
        assert(a[j].valid());
    }
}

proof fn lemma_push_multiset<T>(s: Seq<T>, x: T)
    ensures
        s.push(x).to_multiset() == s.to_multiset().insert(x),
{
    s.to_multiset_ensures();
}

/// Appending to the left of two runs adds one occurrence to their union.
proof fn lemma_push_left_multiset<T>(l: Seq<T>, r: Seq<T>, x: T)
    ensures
        (l.push(x) + r).to_multiset() == (l + r).to_multiset().insert(x),
{
    vstd::seq_lib::lemma_multiset_commutative(l.push(x), r);
    vstd::seq_lib::lemma_multiset_commutative(l, r);
    lemma_push_multiset(l, x);
    assert((l.push(x) + r).to_multiset() =~= (l + r).to_multiset().insert(x));
}

/// Merges two sorted runs into one.
fn merge<T: Ranked>(a: &Vec<T>, b: &Vec<T>) -> (out: Vec<T>)
    requires
        all_valid(a@),
        all_valid(b@),
        is_sorted(a@),
        is_sorted(b@),
        a.len() + b.len() <= usize::MAX,
    ensures
        all_valid(out@),
        is_sorting_of(out@, a@ + b@),
{
    let mut out: Vec<T> = Vec::new();
    let mut i: usize = 0;
    let mut j: usize = 0;
    proof {
        assert(a@.take(0) + b@.take(0) =~= Seq::<T>::empty());
    }
    while i < a.len() || j < b.len()
        invariant
            0 <= i <= a.len(),
            0 <= j <= b.len(),
            all_valid(a@),
            all_valid(b@),
            is_sorted(a@),
            is_sorted(b@),
            a.len() + b.len() <= usize::MAX,
            all_valid(out@),
            is_sorted(out@),
            out@.to_multiset() == (a@.take(i as int) + b@.take(j as int)).to_multiset(),
            forall|k: int, l: int|
                0 <= k < out.len() && i <= l < a.len() ==> (#[trigger] out@[k]).at_most(
                    #[trigger] a@[l],
                ),
            forall|k: int, l: int|
                0 <= k < out.len() && j <= l < b.len() ==> (#[trigger] out@[k]).at_most(
                    #[trigger] b@[l],
                ),
        decreases a.len() - i + b.len() - j,
    {
        let take_left = if i >= a.len() {
            false
        } else if j >= b.len() {
            true
        } else {
            a[i].ranks_at_most(&b[j])
        };
        let ghost before = out@;
        if take_left {
            let x = a[i];
            proof {
                if j < b.len() {
                    assert forall|l: int| j <= l < b.len() implies x.at_most(#[trigger] b@[l]) by {
                        T::at_most_is_transitive(x, b@[j as int], b@[l]);
                    }
                }
                assert(a@.take(i + 1) =~= a@.take(i as int).push(x));
                lemma_push_left_multiset(a@.take(i as int), b@.take(j as int), x);
                lemma_push_multiset(before, x);
            }
            out.push(x);
            i = i + 1;
        } else {
            let x = b[j];
            proof {
                if i < a.len() {
                    T::at_most_is_total(a@[i as int], x);
                    assert forall|l: int| i <= l < a.len() implies x.at_most(#[trigger] a@[l]) by {
                        T::at_most_is_transitive(x, a@[i as int], a@[l]);
                    }
                }
                let all = a@.take(i as int) + b@.take(j as int);
                assert(a@.take(i as int) + b@.take(j + 1) =~= all.push(x));
                lemma_push_multiset(all, x);
                lemma_push_multiset(before, x);
            }
            out.push(x);
            j = j + 1;
        }
    }
    proof {
        assert(a@.take(a.len() as int) =~= a@);
        assert(b@.take(b.len() as int) =~= b@);
    }
    out
}

/// Sorts by [`Ranked::at_most`] (merge sort).
pub fn sort<T: Ranked>(v: &Vec<T>) -> (out: Vec<T>)
    requires
        all_valid(v@),
    ensures
        all_valid(out@),
        out.len() == v.len(),
        is_sorting_of(out@, v@),
    decreases v.len(),
{
    let n = v.len();
    if n <= 1 {
        let mut out: Vec<T> = Vec::new();
        if n == 1 {
            let x = v[0];
            proof {
                T::at_most_is_total(x, x);
            }
            out.push(x);
        }
        proof {
            assert(out@ =~= v@);
        }
        return out;
    }
    let mid = n / 2;
    let left = copy_range(v, 0, mid);
    let right = copy_range(v, mid, n);
    let a = sort(&left);
    let b = sort(&right);
    let out = merge(&a, &b);
    proof {
        vstd::seq_lib::lemma_multiset_commutative(a@, b@);
        vstd::seq_lib::lemma_multiset_commutative(left@, right@);
        assert(left@ + right@ =~= v@);
        lemma_multiset_facts(out@, v@);
    }
    out
}

fn copy_range<T: Copy>(v: &Vec<T>, from: usize, to: usize) -> (out: Vec<T>)
    requires
        from <= to <= v.len(),
    ensures
        out@ == v@.subrange(from as int, to as int),
{
    let mut out: Vec<T> = Vec::new();
    let mut i: usize = from;
    while i < to
        invariant
            from <= i <= to <= v.len(),
            out@ == v@.subrange(from as int, i as int),
        decreases to - i,
    {
        out.push(v[i]);
        proof {
            assert(v@.subrange(from as int, i + 1) =~= v@.subrange(from as int, i as int).push(
                v@[i as int],
            ));
        }
        i = i + 1;
    }
    out
}

/// The upper median of a non-empty vector.
pub fn upper_median<T: Ranked>(v: &Vec<T>) -> (x: T)
    requires
        v.len() > 0,
        all_valid(v@),
    ensures
        x.valid(),
        v@.contains(x),
        is_upper_median(v@, x),
{
    let sorted = sort(v);
    let x = sorted[sorted.len() / 2];
    proof {
        lemma_multiset_facts(sorted@, v@);
        assert(sorted@.contains(x));
        assert(is_sorting_of(sorted@, v@));
    }
    x
}

/// How many elements satisfy `f`.
pub open spec fn count<T>(s: Seq<T>, f: spec_fn(T) -> bool) -> nat
    decreases s.len(),
{
    if s.len() == 0 {
        0
    } else {
        count(s.drop_last(), f) + if f(s.last()) {
            1nat
        } else {
            0nat
        }
    }
}

/// How many elements of `s` stand at or before `x`.
pub open spec fn count_at_most<T: Ranked>(s: Seq<T>, x: T) -> nat {
    count(s, |y: T| y.at_most(x))
}

/// How many elements of `s` stand strictly before `x`.
pub open spec fn count_below<T: Ranked>(s: Seq<T>, x: T) -> nat {
    count(s, |y: T| !x.at_most(y))
}

pub proof fn lemma_count_concat<T>(a: Seq<T>, b: Seq<T>, f: spec_fn(T) -> bool)
    ensures
        count(a + b, f) == count(a, f) + count(b, f),
    decreases b.len(),
{
    if b.len() == 0 {
        assert(a + b =~= a);
    } else {
        assert((a + b).drop_last() =~= a + b.drop_last());
        assert((a + b).last() == b.last());
        lemma_count_concat(a, b.drop_last(), f);
    }
}

/// A weaker condition is met at least as often.
pub proof fn lemma_count_monotone<T>(
    s: Seq<T>,
    f: spec_fn(T) -> bool,
    g: spec_fn(T) -> bool,
)
    requires
        forall|i: int| 0 <= i < s.len() && f(#[trigger] s[i]) ==> g(s[i]),
    ensures
        count(s, f) <= count(s, g),
        count(s, g) <= s.len(),
    decreases s.len(),
{
    if s.len() > 0 {
        let l = s.drop_last();
        assert forall|i: int| 0 <= i < l.len() && f(#[trigger] l[i]) implies g(l[i]) by {
            assert(f(s[i]));
        }
        lemma_count_monotone(l, f, g);
        assert(f(s[s.len() - 1]) ==> g(s[s.len() - 1]));
    }
}

/// Conditions that agree position by position are met equally often.
pub proof fn lemma_count_pointwise<T, U>(
    s: Seq<T>,
    r: Seq<U>,
    f: spec_fn(T) -> bool,
    g: spec_fn(U) -> bool,
)
    requires
        s.len() == r.len(),
        forall|i: int| 0 <= i < s.len() ==> f(#[trigger] s[i]) == g(r[i]),
    ensures
        count(s, f) == count(r, g),
    decreases s.len(),
{
    if s.len() > 0 {
        let l = s.drop_last();
        assert forall|i: int| 0 <= i < l.len() implies f(#[trigger] l[i]) == g(r.drop_last()[i]) by {
            assert(f(s[i]) == g(r[i]));
        }
        lemma_count_pointwise(l, r.drop_last(), f, g);
        assert(f(s[s.len() - 1]) == g(r[s.len() - 1]));
    }
}

/// A condition and its negation share out the elements.
pub proof fn lemma_count_complement<T>(s: Seq<T>, f: spec_fn(T) -> bool)
    ensures
        count(s, f) + count(s, |x: T| !f(x)) == s.len(),
    decreases s.len(),
{
    if s.len() > 0 {
        lemma_count_complement(s.drop_last(), f);
    }
}

proof fn lemma_count_is_of_multiset<T>(s: Seq<T>, f: spec_fn(T) -> bool)
    ensures
        count(s, f) == s.to_multiset().filter(f).len(),
    decreases s.len(),
{
    broadcast use vstd::multiset::group_multiset_axioms;

    s.to_multiset_ensures();
    if s.len() == 0 {
        assert(s.to_multiset().filter(f) =~= vstd::multiset::Multiset::empty());
    } else {
        let l = s.drop_last();
        lemma_count_is_of_multiset(l, f);
        assert(l.push(s.last()) =~= s);
        lemma_push_multiset(l, s.last());
        let m = l.to_multiset();
        if f(s.last()) {
            assert(m.insert(s.last()).filter(f) =~= m.filter(f).insert(s.last()));
        } else {
            assert(m.insert(s.last()).filter(f) =~= m.filter(f));
        }
    }
}

proof fn lemma_count_lower<T>(s: Seq<T>, f: spec_fn(T) -> bool, n: int)
    requires
        0 <= n <= s.len(),
        forall|i: int| 0 <= i < n ==> f(#[trigger] s[i]),
    ensures
        count(s, f) >= n,
    decreases s.len(),
{
    if s.len() > 0 {
        let m = if n == s.len() {
            n - 1
        } else {
            n
        };
        assert(forall|i: int| 0 <= i < m ==> s.drop_last()[i] == #[trigger] s[i]);
        lemma_count_lower(s.drop_last(), f, m);
    }
}

proof fn lemma_count_upper<T>(s: Seq<T>, f: spec_fn(T) -> bool, n: int)
    requires
        0 <= n <= s.len(),
        forall|i: int| n <= i < s.len() ==> !f(#[trigger] s[i]),
    ensures
        count(s, f) <= n,
    decreases s.len(),
{
    if s.len() > 0 {
        let m = if n == s.len() {
            n - 1
        } else {
            n
        };
        assert(forall|i: int| m <= i < s.len() - 1 ==> s.drop_last()[i] == #[trigger] s[i]);
        lemma_count_upper(s.drop_last(), f, m);
    }
}

/// The element at sorted position `k` has at most `k` elements strictly before
/// it and more than `k` at or before it.
pub proof fn order_statistic_has_rank<T: Ranked>(s: Seq<T>, k: int, x: T)
    requires
        all_valid(s),
        is_order_statistic(s, k, x),
    ensures
        count_below(s, x) <= k < count_at_most(s, x),
        s.contains(x),
        0 <= k < s.len(),
{
    let t = choose|t: Seq<T>| #[trigger] is_sorting_of(t, s) && 0 <= k < t.len() && t[k] == x;
    lemma_multiset_facts(t, s);
    lemma_all_valid_same_multiset(s, t);
    assert(t.contains(x));
    let upto = |y: T| y.at_most(x);
    let below = |y: T| !x.at_most(y);
    assert forall|i: int| 0 <= i < k + 1 implies upto(#[trigger] t[i]) by {
        assert(t[i].at_most(t[k]));
    }
    lemma_count_lower(t, upto, k + 1);
    assert forall|i: int| k <= i < t.len() implies !below(#[trigger] t[i]) by {
        assert(t[k].at_most(t[i]));
    }
    lemma_count_upper(t, below, k);
    lemma_count_is_of_multiset(t, upto);
    lemma_count_is_of_multiset(s, upto);
    lemma_count_is_of_multiset(t, below);
    lemma_count_is_of_multiset(s, below);
}

/// The rank of [`order_statistic_has_rank`] leaves no choice: two elements of
/// that rank stand at or before each other.
pub proof fn rank_determines_element<T: Ranked>(s: Seq<T>, k: int, x: T, y: T)
    requires
        all_valid(s),
        x.valid(),
        y.valid(),
        count_below(s, x) <= k < count_at_most(s, x),
        count_below(s, y) <= k < count_at_most(s, y),
    ensures
        x.at_most(y),
        y.at_most(x),
{
    lemma_rank_at_most(s, k, x, y);
    lemma_rank_at_most(s, k, y, x);
}

proof fn lemma_rank_at_most<T: Ranked>(s: Seq<T>, k: int, x: T, y: T)
    requires
        all_valid(s),
        x.valid(),
        y.valid(),
        count_below(s, x) <= k < count_at_most(s, y),
    ensures
        x.at_most(y),
{
    if !x.at_most(y) {
        let f = |z: T| z.at_most(y);
        let g = |z: T| !x.at_most(z);
        assert forall|i: int| 0 <= i < s.len() && f(#[trigger] s[i]) implies g(s[i]) by {
            assert(s[i].valid());
            if x.at_most(s[i]) {
                T::at_most_is_transitive(x, s[i], y);
            }
        }
        lemma_count_monotone(s, f, g);
    }
}

/// The element at a sorted position depends only on which elements there are,
/// not on the order they came in: any two candidates rank equally.
pub proof fn order_statistic_ignores_arrival_order<T: Ranked>(
    s: Seq<T>,
    r: Seq<T>,
    k: int,
    x: T,
    y: T,
)
    requires
        all_valid(s),
        s.to_multiset() == r.to_multiset(),
        is_order_statistic(s, k, x),
        is_order_statistic(r, k, y),
    ensures
        x.at_most(y),
        y.at_most(x),
{
    lemma_all_valid_same_multiset(s, r);
    order_statistic_has_rank(s, k, x);
    order_statistic_has_rank(r, k, y);
    let below = |z: T| !y.at_most(z);
    let upto = |z: T| z.at_most(y);
    lemma_count_is_of_multiset(s, below);
    lemma_count_is_of_multiset(r, below);
    lemma_count_is_of_multiset(s, upto);
    lemma_count_is_of_multiset(r, upto);
    let i = choose|i: int| 0 <= i < s.len() && s[i] == x;
    let j = choose|j: int| 0 <= j < r.len() && r[j] == y;
    assert(s[i].valid() && r[j].valid());
    rank_determines_element(s, k, x, y);
}

} // verus!
