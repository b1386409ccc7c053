//! What spike detection promises of the window it looks at and of what it reports.

use crate::fast_ring::{Sample, SeriesKey, Tails};
use crate::keyed::lists_keys;
use crate::spike_detect::{
    candidates_in, fires, order_key, order_keys, window_values, Candidate, Reading,
};
use vstd::prelude::*;

verus! {

/// The window holds the values of the samples of the last minute, each as it was
/// sampled, and in order.
pub proof fn the_window_is_the_last_minute(slow: Seq<Sample>, newest: u64)
    ensures
        window_values(slow, newest) == slow.filter(
            |s: Sample| s.ts_ns + 60_000_000_000 >= newest,
        ).map_values(|s: Sample| s.value_bits),
    decreases slow.len(),
{
    reveal(Seq::filter);
    let recent = |s: Sample| s.ts_ns + 60_000_000_000 >= newest;
    let value = |s: Sample| s.value_bits;
    if slow.len() > 0 {
        let front = slow.drop_last();
        the_window_is_the_last_minute(front, newest);
        if recent(slow.last()) {
            assert(front.filter(recent).push(slow.last()).map_values(value) =~= front.filter(
                recent,
            ).map_values(value).push(slow.last().value_bits));
        }
    } else {
        assert(slow.filter(recent).map_values(value) =~= Seq::<u64>::empty());
    }
}

/// If every sample is within the last minute, the window is the values of the
/// tail, one for one.
pub proof fn recent_tails_are_kept_whole(slow: Seq<Sample>, newest: u64)
    requires
        forall|i: int|
            0 <= i < slow.len() ==> (#[trigger] slow[i]).ts_ns + 60_000_000_000 >= newest,
    ensures
        window_values(slow, newest).len() == slow.len(),
        forall|i: int|
            0 <= i < slow.len() ==> #[trigger] window_values(slow, newest)[i]
                == slow[i].value_bits,
    decreases slow.len(),
{
    if slow.len() > 0 {
        let front = slow.drop_last();
        assert forall|i: int| 0 <= i < front.len() implies (#[trigger] front[i]).ts_ns
            + 60_000_000_000 >= newest by {
            assert(front[i] == slow[i]);
        }
        recent_tails_are_kept_whole(front, newest);
        assert(slow[slow.len() - 1].ts_ns + 60_000_000_000 >= newest);
        assert forall|i: int| 0 <= i < slow.len() implies #[trigger] window_values(
            slow,
            newest,
        )[i] == slow[i].value_bits by {
            if i < front.len() {
                assert(window_values(front, newest)[i] == front[i].value_bits);
            }
        }
    }
}

/// Values order as the numbers they are the bits of: a negative number before a
/// positive one, positive ones by magnitude, negative ones the other way around.
pub proof fn values_order_as_numbers(a: u64, b: u64)
    ensures
        a >= 0x8000_0000_0000_0000 && b < 0x8000_0000_0000_0000 ==> order_key(a) < order_key(b),
        a < b < 0x8000_0000_0000_0000 ==> order_key(a) < order_key(b),
        0x8000_0000_0000_0000 <= a < b ==> order_key(a) > order_key(b),
        a == b <==> order_key(a) == order_key(b),
{
}

/// Ordering values loses none: there is one key for each, at its place.
pub proof fn every_value_is_ordered(values: Seq<u64>)
    ensures
        order_keys(values).len() == values.len(),
        forall|i: int|
            0 <= i < values.len() ==> {
                let key = #[trigger] order_keys(values)[i];
                if values[i] < 0x8000_0000_0000_0000 {
                    key == values[i] + 0x8000_0000_0000_0000
                } else {
                    key + values[i] == 0xffff_ffff_ffff_ffff
                }
            },
{
}

/// Each series with a sample is a candidate once, with its newest sample, and no
/// other series is.
pub proof fn every_live_series_is_a_candidate(series: Map<u128, Tails>, keys: Seq<u128>)
    requires
        lists_keys(keys, series.dom()),
    ensures
        ({
            let live = keys.filter(|k: u128| series[k].fast.len() > 0);
            let out = candidates_in(series, keys);
            &&& out.len() == live.len()
            &&& forall|i: int|
                0 <= i < out.len() ==> {
                    let c = #[trigger] out[i];
                    let fast = series[live[i]].fast;
                    &&& c.key.packed_spec() == live[i]
                    &&& c.latest == fast[fast.len() - 1]
                }
        }),
{
    lemma_candidates_are_live(series, keys);
}

proof fn lemma_candidates_are_live(series: Map<u128, Tails>, keys: Seq<u128>)
    ensures
        ({
            let live = keys.filter(|k: u128| series[k].fast.len() > 0);
            let out = candidates_in(series, keys);
            &&& out.len() == live.len()
            &&& forall|i: int|
                0 <= i < out.len() ==> {
                    let c = #[trigger] out[i];
                    let fast = series[live[i]].fast;
                    &&& c.key.packed_spec() == live[i]
                    &&& c.latest == fast[fast.len() - 1]
                }
        }),
    decreases keys.len(),
{
    reveal(Seq::filter);
    if keys.len() > 0 {
        lemma_candidates_are_live(series, keys.drop_last());
        crate::fast_ring::unpacking_round_trips(keys.last());
    }
}

/// A series spikes exactly if it has been seen at least sixteen times, both scores
/// are over their thresholds, its deviation is positive, and its last spike, if it
/// had one, is ten seconds back or more.
pub proof fn spikes_need_every_sign(fired: Map<u128, u64>, r: Reading)
    ensures
        fires(fired, r) <==> {
            &&& r.samples_seen >= 16
            &&& r.z_over
            &&& r.mad_positive
            &&& r.mad_z_over
            &&& fired.contains_key(r.key.packed_spec()) ==> fired[r.key.packed_spec()]
                + 10_000_000_000 <= r.latest_ts
        },
{
}

} // verus!
