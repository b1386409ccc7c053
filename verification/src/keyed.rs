//! Hash maps keyed by packed integers, walked in ascending key order.

use crate::order::{is_sorted, sort};
use std::collections::HashMap;
use vstd::prelude::*;
use vstd::std_specs::iter::IteratorSpec;

verus! {

broadcast use vstd::std_specs::hash::group_hash_axioms;

/// `keys` holds each key of `dom` once, smallest first.
pub open spec fn lists_keys(keys: Seq<u128>, dom: Set<u128>) -> bool {
    &&& forall|i: int, j: int| 0 <= i < j < keys.len() ==> #[trigger] keys[i] < #[trigger] keys[j]
    &&& forall|k: u128| #[trigger] keys.contains(k) <==> dom.contains(k)
}

/// The keys of `m`, smallest first.
pub fn ascending_keys<V>(m: &HashMap<u128, V>) -> (keys: Vec<u128>)
    ensures
        lists_keys(keys@, m@.dom()),
{
    let mut found: Vec<u128> = Vec::new();
    let ghost all = m.keys().remaining().unref();
    for k in it: m.keys()
        invariant
            it.seq().unref() == all,
            found@ == all.take(it.index()),
    {
        found.push(*k);
        assert(found@ =~= all.take(it.index() + 1));
    }
    proof {
        assert(found@ =~= all);
        assert(found@.no_duplicates());
    }
    let keys = sort(&found);
    proof {
        lemma_sorted_lists(keys@, found@, m@.dom());
    }
    keys
}

proof fn lemma_sorted_lists(keys: Seq<u128>, found: Seq<u128>, dom: Set<u128>)
    requires
        is_sorted(keys),
        keys.to_multiset() == found.to_multiset(),
        found.to_set() == dom,
        found.no_duplicates(),
    ensures
        lists_keys(keys, dom),
{
    broadcast use vstd::seq_lib::group_to_multiset_ensures;

    found.lemma_multiset_has_no_duplicates();
    keys.lemma_multiset_has_no_duplicates_conv();
    assert forall|i: int, j: int| 0 <= i < j < keys.len() implies #[trigger] keys[i]
        < #[trigger] keys[j] by {
        assert(keys[i] != keys[j]);
    }
    assert forall|k: u128| #[trigger] keys.contains(k) <==> dom.contains(k) by {
        assert(keys.contains(k) <==> keys.to_multiset().count(k) > 0);
        assert(found.contains(k) <==> found.to_multiset().count(k) > 0);
        assert(found.contains(k) <==> found.to_set().contains(k));
    }
}

/// There is one ascending list of the keys of a set.
pub proof fn key_list_is_unique(a: Seq<u128>, b: Seq<u128>, dom: Set<u128>)
    requires
        lists_keys(a, dom),
        lists_keys(b, dom),
    ensures
        a == b,
    decreases a.len(),
{
    if a.len() == 0 {
        if b.len() > 0 {
            assert(b.contains(b[0]));
            assert(a.contains(b[0]));
        }
        assert(a =~= b);
    } else {
        let (x, y) = (a.last(), b.last());
        assert(a.contains(x));
        assert(b.contains(x));
        let i = choose|i: int| 0 <= i < b.len() && b[i] == x;
        assert(b.contains(y));
        assert(a.contains(y));
        let j = choose|j: int| 0 <= j < a.len() && a[j] == y;
        assert(x == y) by {
            if i < b.len() - 1 {
                assert(b[i] < b[b.len() - 1]);
            }
            if j < a.len() - 1 {
                assert(a[j] < a[a.len() - 1]);
            }
        }
        let (c, d) = (a.drop_last(), b.drop_last());
        let rest = dom.remove(x);
        assert forall|k: u128| #[trigger] c.contains(k) <==> rest.contains(k) by {
            lemma_front_contains(a, dom, k);
        }
        assert forall|k: u128| #[trigger] d.contains(k) <==> rest.contains(k) by {
            lemma_front_contains(b, dom, k);
        }
        key_list_is_unique(c, d, rest);
        assert(a =~= c.push(x));
        assert(b =~= d.push(x));
    }
}

proof fn lemma_front_contains(a: Seq<u128>, dom: Set<u128>, k: u128)
    requires
        lists_keys(a, dom),
        a.len() > 0,
    ensures
        a.drop_last().contains(k) <==> dom.remove(a.last()).contains(k),
{
    let front = a.drop_last();
    if front.contains(k) {
        let i = choose|i: int| 0 <= i < front.len() && front[i] == k;
        assert(a[i] < a[a.len() - 1]);
        assert(a.contains(k));
    }
    if dom.remove(a.last()).contains(k) {
        assert(a.contains(k));
        let i = choose|i: int| 0 <= i < a.len() && a[i] == k;
        assert(front[i] == k);
    }
}

} // verus!
