//! Attribution of host-sampled performance counters to kernels.
//!
//! The profiler is read ten times a second; each reading is credited to the
//! kernel that was running. A kernel with enough readings gets a speed-of-light
//! card. Percentages are counted in millionths of a percent, finer than single
//! precision resolves them.

use crate::intern::{hash, name_id};
use crate::keyed::{ascending_keys, lists_keys};
use crate::model::{Bound, Confidence, Source, StallCount};
use std::collections::HashMap;
use vstd::prelude::*;

verus! {

broadcast use vstd::std_specs::hash::group_hash_axioms;

/// How many readings a kernel needs before a card is made of them. Below this
/// noise dominates.
pub const MIN_SAMPLES_FOR_CARD: u32 = 5;

/// Time between readings: ten a second.
pub const SAMPLE_PERIOD_MS: u64 = 100;

/// One percent, in the unit of this module.
pub const PERCENT: u32 = 1_000_000;

/// One reading of the four counters, as shares of their peak.
#[derive(Copy, Clone, Debug, PartialEq, Eq, Structural)]
pub struct PmSample {
    pub sm_active: u32,
    pub occupancy: u32,
    pub dram_bw: u32,
    pub inst_tp: u32,
}

/// A card made from readings: the mean of each counter and what they say of the
/// kernel.
#[derive(Copy, Clone, Debug, PartialEq, Eq, Structural)]
pub struct SampledSol {
    pub correlation_id: u64,
    pub sm_active: u32,
    pub achieved_occupancy: u32,
    pub dram_bw: u32,
    pub inst_throughput: u32,
    pub bound: Bound,
    pub confidence: Confidence,
    pub source: Source,
}

/// What bounds a kernel with these counters: how much of the time the multiprocessors
/// are active, how busy memory is, and how well the multiprocessors are filled,
/// by instructions or by warps. It is latency when nothing is busy;
/// otherwise memory or compute if one leads by ten percentage points or more.
pub open spec fn bound_of(sm_active: int, dram_bw: int, issue: int) -> Bound {
    let compute = if sm_active >= issue {
        sm_active
    } else {
        issue
    };
    if sm_active < 30 * PERCENT && dram_bw < 30 * PERCENT && issue < 30 * PERCENT {
        Bound::Latency
    } else if dram_bw >= compute + 10 * PERCENT {
        Bound::Memory
    } else if compute >= dram_bw + 10 * PERCENT {
        Bound::Compute
    } else {
        Bound::Balanced
    }
}

/// Classifies a kernel as memory-, compute- or latency-bound.
pub fn classify_bound(sm_active: u32, dram_bw: u32, inst_tp: u32) -> (bound: Bound)
    ensures
        bound == bound_of(sm_active as int, dram_bw as int, inst_tp as int),
{
    let idle: u32 = 30 * PERCENT;
    let margin: u64 = 10 * (PERCENT as u64);
    if sm_active < idle && dram_bw < idle && inst_tp < idle {
        return Bound::Latency;
    }
    let compute: u32 = if sm_active >= inst_tp {
        sm_active
    } else {
        inst_tp
    };
    if dram_bw as u64 >= compute as u64 + margin {
        Bound::Memory
    } else if compute as u64 >= dram_bw as u64 + margin {
        Bound::Compute
    } else {
        Bound::Balanced
    }
}

/// The sum of one counter over the readings.
pub open spec fn total(readings: Seq<PmSample>, counter: spec_fn(PmSample) -> u32) -> int
    decreases readings.len(),
{
    if readings.len() == 0 {
        0
    } else {
        total(readings.drop_last(), counter) + counter(readings.last())
    }
}

/// The mean of one counter over the readings, rounded down.
pub open spec fn mean(readings: Seq<PmSample>, counter: spec_fn(PmSample) -> u32) -> u32 {
    (total(readings, counter) / readings.len() as int) as u32
}

/// The card that a kernel's readings give: none below the minimum count. Its bound
/// is a vote of multiprocessor activity, memory bandwidth and occupancy.
pub open spec fn card_of(readings: Seq<PmSample>, correlation_id: u64) -> Option<SampledSol> {
    if readings.len() < MIN_SAMPLES_FOR_CARD {
        None
    } else {
        let sm = mean(readings, |s: PmSample| s.sm_active);
        let dram = mean(readings, |s: PmSample| s.dram_bw);
        let occupancy = mean(readings, |s: PmSample| s.occupancy);
        Some(
            SampledSol {
                correlation_id,
                sm_active: sm,
                achieved_occupancy: occupancy,
                dram_bw: dram,
                inst_throughput: mean(readings, |s: PmSample| s.inst_tp),
                bound: bound_of(sm as int, dram as int, occupancy as int),
                confidence: Confidence::Low,
                source: Source::HostSampling,
            },
        )
    }
}

proof fn lemma_total_bounds(readings: Seq<PmSample>, counter: spec_fn(PmSample) -> u32)
    ensures
        0 <= total(readings, counter) <= readings.len() * u32::MAX,
    decreases readings.len(),
{
    if readings.len() > 0 {
        lemma_total_bounds(readings.drop_last(), counter);
    }
}

fn mean_of(sum: u64, count: u32) -> (m: u32)
    requires
        count > 0,
        sum <= count * u32::MAX,
    ensures
        m == sum as int / count as int,
{
    let m: u64 = sum / (count as u64);
    assert(m <= u32::MAX) by (nonlinear_arith)
        requires
            count > 0,
            sum <= count * u32::MAX,
            m == sum / (count as u64),
    ;
    m as u32
}

/// Accumulates the readings of one kernel.
#[derive(Copy, Clone)]
pub struct Attribution {
    count: u32,
    sum_sm_active: u64,
    sum_occ: u64,
    sum_dram: u64,
    sum_inst: u64,
    readings: Ghost<Seq<PmSample>>,
}

impl View for Attribution {
    type V = Seq<PmSample>;

    /// The readings taken so far.
    closed spec fn view(&self) -> Seq<PmSample> {
        self.readings@
    }
}

impl Attribution {
    /// The sums are those of the readings.
    pub closed spec fn wf(self) -> bool {
        &&& self.count == self@.len()
        &&& self.sum_sm_active == total(self@, |s: PmSample| s.sm_active)
        &&& self.sum_occ == total(self@, |s: PmSample| s.occupancy)
        &&& self.sum_dram == total(self@, |s: PmSample| s.dram_bw)
        &&& self.sum_inst == total(self@, |s: PmSample| s.inst_tp)
    }

    /// Credits one more reading.
    pub fn add(&mut self, s: PmSample)
        requires
            old(self).wf(),
            old(self)@.len() < u32::MAX,
        ensures
            final(self).wf(),
            final(self)@ == old(self)@.push(s),
    {
        let ghost before = self@;
        let ghost after = before.push(s);
        proof {
            assert(after.drop_last() =~= before);
            lemma_total_bounds(before, |s: PmSample| s.sm_active);
            lemma_total_bounds(before, |s: PmSample| s.occupancy);
            lemma_total_bounds(before, |s: PmSample| s.dram_bw);
            lemma_total_bounds(before, |s: PmSample| s.inst_tp);
        }
        self.count = self.count + 1;
        self.sum_sm_active = self.sum_sm_active + s.sm_active as u64;
        self.sum_occ = self.sum_occ + s.occupancy as u64;
        self.sum_dram = self.sum_dram + s.dram_bw as u64;
        self.sum_inst = self.sum_inst + s.inst_tp as u64;
        self.readings = Ghost(after);
    }

    /// The card for this kernel, once there are readings enough. Host sampling
    /// is never exact, so the confidence stays low.
    pub fn finalize(&self, correlation_id: u64) -> (card: Option<SampledSol>)
        requires
            self.wf(),
        ensures
            card == card_of(self@, correlation_id),
    {
        if self.count < MIN_SAMPLES_FOR_CARD {
            return None;
        }
        proof {
            lemma_total_bounds(self@, |s: PmSample| s.sm_active);
            lemma_total_bounds(self@, |s: PmSample| s.occupancy);
            lemma_total_bounds(self@, |s: PmSample| s.dram_bw);
            lemma_total_bounds(self@, |s: PmSample| s.inst_tp);
        }
        let sm_active: u32 = mean_of(self.sum_sm_active, self.count);
        let achieved_occupancy: u32 = mean_of(self.sum_occ, self.count);
        let dram_bw: u32 = mean_of(self.sum_dram, self.count);
        let inst_throughput: u32 = mean_of(self.sum_inst, self.count);
        Some(
            SampledSol {
                correlation_id,
                sm_active,
                achieved_occupancy,
                dram_bw,
                inst_throughput,
                bound: classify_bound(sm_active, dram_bw, achieved_occupancy),
                confidence: Confidence::Low,
                source: Source::HostSampling,
            },
        )
    }
}

impl Default for Attribution {
    fn default() -> (a: Self)
        ensures
            a.wf(),
            a@ == Seq::<PmSample>::empty(),
    {
        Attribution {
            count: 0,
            sum_sm_active: 0,
            sum_occ: 0,
            sum_dram: 0,
            sum_inst: 0,
            readings: Ghost(Seq::empty()),
        }
    }
}

/// A GPU and a correlation id as one number.
pub open spec fn bucket_key(gpu_id: u32, correlation_id: u64) -> u128 {
    (gpu_id * 0x1_0000_0000_0000_0000 + correlation_id) as u128
}

/// The correlation id in a bucket key.
pub open spec fn key_correlation(key: u128) -> u64 {
    (key % 0x1_0000_0000_0000_0000) as u64
}

/// Different kernels have different bucket keys.
pub proof fn bucket_keys_are_distinct(gpu_id: u32, corr: u64, other_gpu: u32, other_corr: u64)
    requires
        bucket_key(gpu_id, corr) == bucket_key(other_gpu, other_corr),
    ensures
        gpu_id == other_gpu,
        corr == other_corr,
        key_correlation(bucket_key(gpu_id, corr)) == corr,
{
}

/// The cards of the buckets under `keys`, in that order; buckets with too few
/// readings give none.
pub open spec fn cards(buckets: Map<u128, Seq<PmSample>>, keys: Seq<u128>) -> Seq<SampledSol>
    decreases keys.len(),
{
    if keys.len() == 0 {
        Seq::empty()
    } else {
        let before = cards(buckets, keys.drop_last());
        match card_of(buckets[keys.last()], key_correlation(keys.last())) {
            Some(card) => before.push(card),
            None => before,
        }
    }
}

/// Readings by kernel, until they are drained into cards.
pub struct HostSampler {
    buckets: HashMap<u128, Attribution>,
}

impl View for HostSampler {
    type V = Map<u128, Seq<PmSample>>;

    /// The readings of each bucket.
    closed spec fn view(&self) -> Map<u128, Seq<PmSample>> {
        self.buckets@.map_values(|a: Attribution| a@)
    }
}

impl HostSampler {
    pub closed spec fn wf(self) -> bool {
        forall|k: u128| #[trigger] self.buckets@.contains_key(k) ==> self.buckets@[k].wf()
    }

    /// The readings credited to a kernel.
    pub open spec fn readings(self, gpu_id: u32, correlation_id: u64) -> Seq<PmSample> {
        let key = bucket_key(gpu_id, correlation_id);
        if self@.contains_key(key) {
            self@[key]
        } else {
            Seq::empty()
        }
    }

    pub fn new() -> (h: Self)
        ensures
            h.wf(),
            h@ == Map::<u128, Seq<PmSample>>::empty(),
    {
        let h = HostSampler { buckets: HashMap::new() };
        assert(h@ =~= Map::<u128, Seq<PmSample>>::empty());
        h
    }

    /// Credits a reading to a kernel.
    pub fn sample(&mut self, gpu_id: u32, correlation_id: u64, s: PmSample)
        requires
            old(self).wf(),
            old(self).readings(gpu_id, correlation_id).len() < u32::MAX,
        ensures
            final(self).wf(),
            final(self)@ == old(self)@.insert(
                bucket_key(gpu_id, correlation_id),
                old(self).readings(gpu_id, correlation_id).push(s),
            ),
    {
        let key: u128 = (gpu_id as u128) * 0x1_0000_0000_0000_0000 + correlation_id as u128;
        assert(key == bucket_key(gpu_id, correlation_id));
        let mut a = match self.buckets.get(&key) {
            Some(a) => *a,
            None => Attribution::default(),
        };
        a.add(s);
        self.buckets.insert(key, a);
        assert(self@ =~= old(self)@.insert(
            bucket_key(gpu_id, correlation_id),
            old(self).readings(gpu_id, correlation_id).push(s),
        ));
    }

    /// Empties every bucket into cards. Buckets with too few readings are lost
    /// on purpose.
    pub fn drain_cards(&mut self) -> (out: Vec<SampledSol>)
        requires
            old(self).wf(),
        ensures
            final(self).wf(),
            final(self)@ == Map::<u128, Seq<PmSample>>::empty(),
            exists|keys: Seq<u128>| #[trigger]
                lists_keys(keys, old(self)@.dom()) && out@ == cards(old(self)@, keys),
    {
        let keys = ascending_keys(&self.buckets);
        proof {
            assert(self.buckets@.dom() =~= self@.dom());
        }
        let mut out: Vec<SampledSol> = Vec::new();
        let mut i: usize = 0;
        while i < keys.len()
            invariant
                old(self).wf(),
                self.buckets == old(self).buckets,
                0 <= i <= keys.len(),
                lists_keys(keys@, self.buckets@.dom()),
                out@ == cards(old(self)@, keys@.take(i as int)),
            decreases keys.len() - i,
        {
            let key: u128 = keys[i];
            proof {
                assert(keys@.contains(key));
                let upto = keys@.take(i + 1);
                assert(upto.drop_last() =~= keys@.take(i as int));
                assert(upto.last() == key);
                assert(old(self)@.contains_key(key));
            }
            if let Some(a) = self.buckets.get(&key) {
                let corr: u128 = key % 0x1_0000_0000_0000_0000;
                if let Some(card) = a.finalize(corr as u64) {
                    out.push(card);
                }
            }
            i = i + 1;
        }
        proof {
            assert(keys@.take(keys.len() as int) =~= keys@);
        }
        self.buckets.clear();
        assert(self@ =~= Map::<u128, Seq<PmSample>>::empty());
        out
    }
}

impl Default for HostSampler {
    fn default() -> (h: Self)
        ensures
            h.wf(),
            h@ == Map::<u128, Seq<PmSample>>::empty(),
    {
        Self::new()
    }
}

/// The cards drained are those of the kernels with readings enough: one each, in
/// the order of their keys, and no others.
pub proof fn cards_need_readings_enough(buckets: Map<u128, Seq<PmSample>>, keys: Seq<u128>)
    ensures
        cards(buckets, keys) == keys.filter(
            |key: u128| buckets[key].len() >= MIN_SAMPLES_FOR_CARD,
        ).map_values(|key: u128| card_of(buckets[key], key_correlation(key))->0),
    decreases keys.len(),
{
    reveal(Seq::filter);
    let enough = |key: u128| buckets[key].len() >= MIN_SAMPLES_FOR_CARD;
    let card = |key: u128| card_of(buckets[key], key_correlation(key))->0;
    if keys.len() > 0 {
        let front = keys.drop_last();
        cards_need_readings_enough(buckets, front);
        assert(front.filter(enough).push(keys.last()).map_values(card) =~= front.filter(
            enough,
        ).map_values(card).push(card(keys.last())));
    }
}

/// The bound on a card is a vote of multiprocessor activity, memory bandwidth and
/// occupancy alone: cards with these means in common have it in common.
pub proof fn three_counters_decide_the_bound(a: Seq<PmSample>, b: Seq<PmSample>, corr: u64)
    requires
        a.len() >= MIN_SAMPLES_FOR_CARD,
        b.len() >= MIN_SAMPLES_FOR_CARD,
        mean(a, |s: PmSample| s.sm_active) == mean(b, |s: PmSample| s.sm_active),
        mean(a, |s: PmSample| s.dram_bw) == mean(b, |s: PmSample| s.dram_bw),
        mean(a, |s: PmSample| s.occupancy) == mean(b, |s: PmSample| s.occupancy),
    ensures
        card_of(a, corr) is Some,
        card_of(b, corr) is Some,
        card_of(a, corr)->0.bound == card_of(b, corr)->0.bound,
{
}

/// The names of stall reasons that cards can hold.
pub open spec fn stall_reasons() -> Seq<Seq<char>> {
    seq![
        "MemoryThrottle"@,
        "Barrier"@,
        "ExecutionDependency"@,
        "Selected"@,
        "NotSelected"@,
    ]
}

fn no_stalls(reason: &str) -> (s: StallCount)
    ensures
        s.reason_id == name_id(reason@) as u32,
        s.count == 0,
{
    StallCount { reason_id: hash(reason) as u32, count: 0 }
}

/// A zero count for every stall reason. Reason ids are the low 32 bits of the
/// name's id.
pub fn reserved_stall_ids() -> (out: Vec<StallCount>)
    ensures
        out.len() == stall_reasons().len(),
        forall|i: int|
            0 <= i < out.len() ==> (#[trigger] out[i]) == (StallCount {
                reason_id: name_id(stall_reasons()[i]) as u32,
                count: 0,
            }),
{
    let mut out: Vec<StallCount> = Vec::new();
    out.push(no_stalls("MemoryThrottle"));
    out.push(no_stalls("Barrier"));
    out.push(no_stalls("ExecutionDependency"));
    out.push(no_stalls("Selected"));
    out.push(no_stalls("NotSelected"));
    out
}

} // verus!
