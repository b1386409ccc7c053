//! Spike detection over the live tails.
//!
//! A cheap running z-score picks out candidates; only those are held against
//! the median and the median absolute deviation of the last minute. The floating
//! point is done by the caller; this module orders values, chooses the window,
//! and decides.

use crate::fast_ring::{FastRingSnapshot, Sample, SeriesKey, Tails};
use crate::keyed::lists_keys;
use crate::order::{is_upper_median, upper_median};
use crate::sink::SpikeRow;
use crate::table::Table;
use vstd::prelude::*;

verus! {

/// Time between two detection passes.
pub const DETECT_PERIOD_MS: u64 = 1_000;

/// Samples a series must have seen before it can spike.
pub const MIN_SAMPLES: u64 = 16;

/// How far back the robust statistics look.
pub const WINDOW_NS: u64 = 60_000_000_000;

/// Least time between two spikes of one series.
pub const QUIET_NS: u64 = 10_000_000_000;

/// Width of the bucket that a live spike is filed under.
pub const BUCKET_WIDTH_NS: u64 = 1_000_000_000;

/// A number that orders doubles, given as bits, by value: negative ones before
/// positive ones, and negative ones the other way around.
pub open spec fn order_key(bits: u64) -> u64 {
    if bits < 0x8000_0000_0000_0000 {
        (bits + 0x8000_0000_0000_0000) as u64
    } else {
        (u64::MAX - bits) as u64
    }
}

fn key_of(bits: u64) -> (k: u64)
    ensures
        k == order_key(bits),
{
    if bits < 0x8000_0000_0000_0000 {
        bits + 0x8000_0000_0000_0000
    } else {
        u64::MAX - bits
    }
}

fn bits_of(key: u64) -> (bits: u64)
    ensures
        order_key(bits) == key,
{
    if key >= 0x8000_0000_0000_0000 {
        key - 0x8000_0000_0000_0000
    } else {
        u64::MAX - key
    }
}

/// Different bits have different order keys.
pub proof fn order_keys_are_distinct(a: u64, b: u64)
    requires
        order_key(a) == order_key(b),
    ensures
        a == b,
{
}

/// The order keys of some values.
pub open spec fn order_keys(values: Seq<u64>) -> Seq<u64> {
    values.map_values(|v: u64| order_key(v))
}

/// The upper median of values given as bits.
pub fn median_of(values: &Vec<u64>) -> (median: Option<u64>)
    ensures
        median is None <==> values.len() == 0,
        median matches Some(m) ==> is_upper_median(order_keys(values@), order_key(m)),
{
    if values.len() == 0 {
        return None;
    }
    let mut keys: Vec<u64> = Vec::new();
    let mut i: usize = 0;
    while i < values.len()
        invariant
            0 <= i <= values.len(),
            keys@ == order_keys(values@.take(i as int)),
        decreases values.len() - i,
    {
        keys.push(key_of(values[i]));
        i = i + 1;
        assert(keys@ =~= order_keys(values@.take(i as int)));
    }
    assert(values@.take(values.len() as int) =~= values@);
    Some(bits_of(upper_median(&keys)))
}

/// Whether a sample is within the window that ends at `newest`.
pub open spec fn in_window(s: Sample, newest: u64) -> bool {
    s.ts_ns + WINDOW_NS >= newest
}

/// The values of the samples within the window, in order.
pub open spec fn window_values(slow: Seq<Sample>, newest: u64) -> Seq<u64>
    decreases slow.len(),
{
    if slow.len() == 0 {
        Seq::empty()
    } else {
        let before = window_values(slow.drop_last(), newest);
        if in_window(slow.last(), newest) {
            before.push(slow.last().value_bits)
        } else {
            before
        }
    }
}

/// The values of the last minute of a slow tail.
pub fn recent_values(slow: &Vec<Sample>) -> (values: Vec<u64>)
    ensures
        slow.len() == 0 ==> values.len() == 0,
        slow.len() > 0 ==> values@ == window_values(slow@, slow@.last().ts_ns),
        slow.len() > 0 ==> values.len() > 0,
{
    let mut values: Vec<u64> = Vec::new();
    if slow.len() == 0 {
        return values;
    }
    let newest: u64 = slow[slow.len() - 1].ts_ns;
    let mut i: usize = 0;
    while i < slow.len()
        invariant
            0 <= i <= slow.len(),
            values@ == window_values(slow@.take(i as int), newest),
        decreases slow.len() - i,
    {
        proof {
            assert(slow@.take(i + 1).drop_last() =~= slow@.take(i as int));
            assert(slow@.take(i + 1).last() == slow@[i as int]);
        }
        let s = slow[i];
        if s.ts_ns >= newest || newest - s.ts_ns <= WINDOW_NS {
            values.push(s.value_bits);
        }
        i = i + 1;
    }
    assert(slow@.take(slow.len() as int) =~= slow@);
    values
}

/// A series and its latest sample.
#[derive(Copy, Clone, Debug, PartialEq, Eq, Structural)]
pub struct Candidate {
    pub key: SeriesKey,
    pub latest: Sample,
}

/// The listed series that have a sample in their fast tail, with the latest.
pub open spec fn candidates_in(series: Map<u128, Tails>, keys: Seq<u128>) -> Seq<Candidate>
    decreases keys.len(),
{
    if keys.len() == 0 {
        Seq::empty()
    } else {
        let before = candidates_in(series, keys.drop_last());
        let fast = series[keys.last()].fast;
        if fast.len() == 0 {
            before
        } else {
            before.push(
                Candidate { key: SeriesKey::unpacked_spec(keys.last()), latest: fast.last() },
            )
        }
    }
}

/// Every series with a sample in its fast tail, with the latest.
pub fn candidates(snap: &FastRingSnapshot) -> (out: Vec<Candidate>)
    ensures
        exists|keys: Seq<u128>| #[trigger]
            lists_keys(keys, snap@.dom()) && out@ == candidates_in(snap@, keys),
{
    let keys = snap.keys();
    let ghost packed = choose|packed: Seq<u128>| #[trigger]
        lists_keys(packed, snap@.dom()) && keys@ == packed.map_values(
            |n: u128| SeriesKey::unpacked_spec(n),
        );
    let mut out: Vec<Candidate> = Vec::new();
    let mut i: usize = 0;
    while i < keys.len()
        invariant
            0 <= i <= keys.len(),
            lists_keys(packed, snap@.dom()),
            keys@ == packed.map_values(|n: u128| SeriesKey::unpacked_spec(n)),
            out@ == candidates_in(snap@, packed.take(i as int)),
        decreases keys.len() - i,
    {
        let key = keys[i];
        proof {
            crate::fast_ring::unpacking_round_trips(packed[i as int]);
            assert(packed.contains(packed[i as int]));
            assert(packed.take(i + 1).drop_last() =~= packed.take(i as int));
            assert(packed.take(i + 1).last() == packed[i as int]);
        }
        if let Some(s) = snap.get(&key) {
            if s.fast.len() > 0 {
                let latest = s.fast[s.fast.len() - 1];
                out.push(Candidate { key, latest });
            }
        }
        i = i + 1;
    }
    proof {
        assert(packed.take(packed.len() as int) =~= packed);
    }
    out
}

/// Whether a series is held against the robust statistics: it has been seen
/// often enough, and its z-score is over the threshold.
pub fn escalates(samples_seen: u64, z_over: bool) -> (b: bool)
    ensures
        b <==> samples_seen >= MIN_SAMPLES && z_over,
{
    samples_seen >= MIN_SAMPLES && z_over
}

/// What is known of a series when it is judged.
#[derive(Copy, Clone, Debug, PartialEq, Eq, Structural)]
pub struct Reading {
    pub key: SeriesKey,
    pub latest_ts: u64,
    pub samples_seen: u64,
    /// The z-score is over its threshold.
    pub z_over: bool,
    /// The deviation is positive.
    pub mad_positive: bool,
    /// The distance from the median, in deviations, is over its threshold.
    pub mad_z_over: bool,
}

/// Every statistic points to a spike.
pub open spec fn stands_out(r: Reading) -> bool {
    r.samples_seen >= MIN_SAMPLES && r.z_over && r.mad_positive && r.mad_z_over
}

/// The series has been quiet for long enough to spike again.
pub open spec fn is_rested(fired: Map<u128, u64>, r: Reading) -> bool {
    fired.contains_key(r.key.packed_spec()) ==> r.latest_ts >= fired[r.key.packed_spec()]
        + QUIET_NS
}

/// Whether a spike is reported.
pub open spec fn fires(fired: Map<u128, u64>, r: Reading) -> bool {
    stands_out(r) && is_rested(fired, r)
}

/// When each series last spiked.
pub struct SpikeGate {
    last_fired: Table<u64>,
}

impl View for SpikeGate {
    type V = Map<u128, u64>;

    closed spec fn view(&self) -> Map<u128, u64> {
        self.last_fired@
    }
}

impl SpikeGate {
    pub closed spec fn wf(self) -> bool {
        self.last_fired.wf()
    }

    pub fn new() -> (g: Self)
        ensures
            g.wf(),
            g@ == Map::<u128, u64>::empty(),
    {
        SpikeGate { last_fired: Table::new() }
    }

    /// Decides whether a series spikes, and remembers when it did.
    pub fn judge(&mut self, r: &Reading) -> (spike: bool)
        requires
            old(self).wf(),
        ensures
            final(self).wf(),
            spike == fires(old(self)@, *r),
            final(self)@ == if spike {
                old(self)@.insert(r.key.packed_spec(), r.latest_ts)
            } else {
                old(self)@
            },
    {
        if !escalates(r.samples_seen, r.z_over) || !r.mad_positive || !r.mad_z_over {
            return false;
        }
        let key = r.key.packed();
        if let Some(prev) = self.last_fired.get(key) {
            if r.latest_ts < *prev || r.latest_ts - *prev < QUIET_NS {
                return false;
            }
        }
        self.last_fired.put(key, r.latest_ts);
        true
    }
}

/// A detected spike; values are the bits of doubles.
#[derive(Copy, Clone, Debug, PartialEq, Eq, Structural)]
pub struct SpikeEvent {
    pub bucket_start_ns: u64,
    pub bucket_width_ns: u64,
    pub node_id: u32,
    pub gpu_id: u32,
    pub metric_id: u64,
    pub value_bits: u64,
    pub median_bits: u64,
    pub mad_bits: u64,
    pub z_mad_bits: u64,
}

impl SpikeEvent {
    /// The spike of a candidate with these statistics.
    pub fn of(c: &Candidate, median_bits: u64, mad_bits: u64, z_mad_bits: u64) -> (ev: Self)
        ensures
            ev == (SpikeEvent {
                bucket_start_ns: c.latest.ts_ns,
                bucket_width_ns: BUCKET_WIDTH_NS,
                node_id: c.key.node_id,
                gpu_id: c.key.gpu_id,
                metric_id: c.key.metric_id,
                value_bits: c.latest.value_bits,
                median_bits,
                mad_bits,
                z_mad_bits,
            }),
    {
        SpikeEvent {
            bucket_start_ns: c.latest.ts_ns,
            bucket_width_ns: BUCKET_WIDTH_NS,
            node_id: c.key.node_id,
            gpu_id: c.key.gpu_id,
            metric_id: c.key.metric_id,
            value_bits: c.latest.value_bits,
            median_bits,
            mad_bits,
            z_mad_bits,
        }
    }

    /// The row stored for the spike; the GPU id is cut to a byte.
    pub fn row(&self) -> (row: SpikeRow)
        ensures
            row == (SpikeRow {
                bucket_start_ns: self.bucket_start_ns,
                bucket_width_ns: self.bucket_width_ns,
                node_id: self.node_id,
                gpu_id: self.gpu_id as u8,
                metric_id: self.metric_id,
                value_bits: self.value_bits,
                median_bits: self.median_bits,
                mad_bits: self.mad_bits,
                z_mad_bits: self.z_mad_bits,
            }),
    {
        SpikeRow {
            bucket_start_ns: self.bucket_start_ns,
            bucket_width_ns: self.bucket_width_ns,
            node_id: self.node_id,
            gpu_id: self.gpu_id as u8,
            metric_id: self.metric_id,
            value_bits: self.value_bits,
            median_bits: self.median_bits,
            mad_bits: self.mad_bits,
            z_mad_bits: self.z_mad_bits,
        }
    }
}

/// When each series last spiked, after a run of readings.
pub open spec fn fired_after(fired: Map<u128, u64>, run: Seq<Reading>) -> Map<u128, u64>
    decreases run.len(),
{
    if run.len() == 0 {
        fired
    } else {
        let before = fired_after(fired, run.drop_last());
        let r = run.last();
        if fires(before, r) {
            before.insert(r.key.packed_spec(), r.latest_ts)
        } else {
            before
        }
    }
}

/// The times at which a run of readings reports a spike of one series.
pub open spec fn spike_times(fired: Map<u128, u64>, run: Seq<Reading>, key: SeriesKey) -> Seq<u64>
    decreases run.len(),
{
    if run.len() == 0 {
        Seq::empty()
    } else {
        let before = spike_times(fired, run.drop_last(), key);
        let r = run.last();
        if r.key == key && fires(fired_after(fired, run.drop_last()), r) {
            before.push(r.latest_ts)
        } else {
            before
        }
    }
}

/// One long excursion does not flood: whatever the readings, two spikes of one
/// series are at least the quiet time apart.
pub proof fn spikes_are_rate_limited(fired: Map<u128, u64>, run: Seq<Reading>, key: SeriesKey)
    ensures
        forall|i: int, j: int|
            0 <= i < j < spike_times(fired, run, key).len() ==> (#[trigger] spike_times(
                fired,
                run,
                key,
            )[i]) + QUIET_NS <= #[trigger] spike_times(fired, run, key)[j],
        spike_times(fired, run, key).len() > 0 ==> {
            &&& fired_after(fired, run).contains_key(key.packed_spec())
            &&& fired_after(fired, run)[key.packed_spec()] == spike_times(fired, run, key).last()
        },
    decreases run.len(),
{
    if run.len() > 0 {
        let front = run.drop_last();
        spikes_are_rate_limited(fired, front, key);
        let before = spike_times(fired, front, key);
        let state = fired_after(fired, front);
        let r = run.last();
        if fires(state, r) {
            if r.key == key {
                let all = before.push(r.latest_ts);
                assert forall|i: int, j: int| 0 <= i < j < all.len() implies (
                #[trigger] all[i]) + QUIET_NS <= #[trigger] all[j] by {
                    if j == before.len() && i < before.len() - 1 {
                        assert(before[i] + QUIET_NS <= before[before.len() - 1]);
                    }
                }
            } else {
                crate::fast_ring::packing_round_trips(key);
                crate::fast_ring::packing_round_trips(r.key);
            }
        }
    }
}

} // verus!
