//! What the collector owes to agents, storage and live clients.

use crate::clock::ClockOffset;
use crate::fast_ring::{no_tails, pushed, pushed_all, Sample, SeriesKey, Tails};
use crate::ingest::{
    after_batch, announced_kernels, assigned, fits_after, frame_pushed, frames_pushed,
    metrics_pushed, next_free, pushed_to, stored_events, IngestReply, IngestTotals, QueueOutcome,
};
use crate::live::LiveKernelEvent;
use crate::model::{Category, ClockOffsetRecord, Event, MetricFrame, MetricPoint, Payload};
use crate::skew::{fits_are_kept_as_sent, timestamps_follow_the_fit};
use vstd::prelude::*;

verus! {

/// The number under which the fit of a GPU is kept.
pub open spec fn key_of_gpu(node_id: u32, gpu_id: u32) -> u128 {
    (node_id * 0x1_0000_0000 + gpu_id) as u128
}

/// `host_ns` is what the fit of the GPU makes of `ts_ns`: the offset plus the slope
/// times the timestamp, rounded toward zero, and zero if that is less; `ts_ns`
/// itself if the GPU has no fit.
pub open spec fn is_host_time(
    fits: Map<u128, ClockOffset>,
    node_id: u32,
    gpu_id: u32,
    ts_ns: u64,
    host_ns: u64,
) -> bool {
    let key = key_of_gpu(node_id, gpu_id);
    let c = fits[key];
    let product = c.slope_num * ts_ns;
    let whole: int = if product >= 0 {
        product / (c.slope_den as int)
    } else {
        -((-product) / (c.slope_den as int))
    };
    let host = c.offset_ns + whole;
    &&& !fits.contains_key(key) ==> host_ns == ts_ns
    &&& fits.contains_key(key) && c.slope_den > 0 && host < 0 ==> host_ns == 0
    &&& fits.contains_key(key) && c.slope_den > 0 && 0 <= host <= u64::MAX ==> host_ns == host
}

/// The two events differ in their time at most.
pub open spec fn same_but_for_time(a: Event, b: Event) -> bool {
    &&& a.duration_ns == b.duration_ns
    &&& a.node_id == b.node_id
    &&& a.gpu_id == b.gpu_id
    &&& a.pid == b.pid
    &&& a.tid == b.tid
    &&& a.ctx_id == b.ctx_id
    &&& a.stream_id == b.stream_id
    &&& a.category == b.category
    &&& a.name_id == b.name_id
    &&& a.correlation_id == b.correlation_id
    &&& a.parent_id == b.parent_id
    &&& a.payload == b.payload
}

/// `stored` is `sent` on the host's time axis: kernels, API calls, copies and fills
/// carry GPU time and are mapped; everything else carries host time already.
pub open spec fn is_sent_event(fits: Map<u128, ClockOffset>, sent: Event, stored: Event) -> bool {
    &&& same_but_for_time(sent, stored)
    &&& sent.category == Category::Kernel ==> is_host_time(
        fits,
        sent.node_id,
        sent.gpu_id,
        sent.ts_ns,
        stored.ts_ns,
    )
    &&& sent.category == Category::ApiCall ==> is_host_time(
        fits,
        sent.node_id,
        sent.gpu_id,
        sent.ts_ns,
        stored.ts_ns,
    )
    &&& sent.category == Category::Memcpy ==> is_host_time(
        fits,
        sent.node_id,
        sent.gpu_id,
        sent.ts_ns,
        stored.ts_ns,
    )
    &&& sent.category == Category::Memset ==> is_host_time(
        fits,
        sent.node_id,
        sent.gpu_id,
        sent.ts_ns,
        stored.ts_ns,
    )
    &&& sent.category != Category::Kernel && sent.category != Category::ApiCall && sent.category
        != Category::Memcpy && sent.category != Category::Memset ==> stored.ts_ns == sent.ts_ns
}

/// Storage gets the events that are no metrics, one for one and in the order sent.
/// Kernels, API calls, copies and fills are each mapped to host time by the fit of
/// their GPU, and nothing else about an event changes.
pub proof fn storage_gets_events_in_host_time(fits: Map<u128, ClockOffset>, events: Seq<Event>)
    ensures
        ({
            let sent = events.filter(|e: Event| e.category != Category::Metric);
            let stored = stored_events(fits, events);
            &&& stored.len() == sent.len()
            &&& forall|i: int|
                0 <= i < stored.len() ==> is_sent_event(fits, sent[i], #[trigger] stored[i])
        }),
    decreases events.len(),
{
    reveal(Seq::filter);
    if events.len() > 0 {
        storage_gets_events_in_host_time(fits, events.drop_last());
        let e = events.last();
        timestamps_follow_the_fit(fits, e.node_id, e.gpu_id, e.ts_ns);
    }
}

/// Two events of one GPU that storage gets keep their distance: if a fit moves the
/// clock without stretching it, a call and its kernel are as far apart in storage
/// as they were on the GPU, whatever their categories.
pub proof fn calls_stay_aligned_with_their_kernels(
    fits: Map<u128, ClockOffset>,
    call: Event,
    kernel: Event,
)
    requires
        call.category == Category::ApiCall,
        kernel.category == Category::Kernel,
        call.node_id == kernel.node_id,
        call.gpu_id == kernel.gpu_id,
        fits.contains_key(key_of_gpu(call.node_id, call.gpu_id)) ==> {
            let c = fits[key_of_gpu(call.node_id, call.gpu_id)];
            &&& c.slope_num == c.slope_den
            &&& c.slope_den > 0
            &&& 0 <= c.offset_ns + call.ts_ns <= u64::MAX
            &&& 0 <= c.offset_ns + kernel.ts_ns <= u64::MAX
        },
    ensures
        ({
            let stored = stored_events(fits, seq![call, kernel]);
            &&& stored.len() == 2
            &&& stored[1].ts_ns - stored[0].ts_ns == kernel.ts_ns - call.ts_ns
        }),
{
    let events = seq![call, kernel];
    storage_gets_events_in_host_time(fits, events);
    assert(events.filter(|e: Event| e.category != Category::Metric) =~= events) by {
        reveal_with_fuel(Seq::filter, 3);
        assert(events.drop_last() =~= seq![call]);
        assert(seq![call].drop_last() =~= Seq::<Event>::empty());
    }
    if fits.contains_key(key_of_gpu(call.node_id, call.gpu_id)) {
        let c = fits[key_of_gpu(call.node_id, call.gpu_id)];
        let d = c.slope_den as int;
        let (x, y) = (call.ts_ns as int, kernel.ts_ns as int);
        assert(d * x >= 0 && (d * x) / d == x && d * y >= 0 && (d * y) / d == y)
            by (nonlinear_arith)
            requires
                d > 0,
                x >= 0,
                y >= 0,
        ;
    }
    let stored = stored_events(fits, events);
    assert(is_sent_event(fits, call, stored[0]));
    assert(is_sent_event(fits, kernel, stored[1]));
}

/// Live clients get every kernel once, in the order sent, at the time at which it
/// is stored, and nothing but kernels.
pub proof fn every_kernel_is_announced(fits: Map<u128, ClockOffset>, events: Seq<Event>)
    ensures
        ({
            let sent = events.filter(|e: Event| e.category == Category::Kernel);
            let told = announced_kernels(fits, events);
            &&& told.len() == sent.len()
            &&& forall|i: int|
                0 <= i < told.len() ==> {
                    let k = #[trigger] told[i];
                    &&& is_host_time(
                        fits,
                        sent[i].node_id,
                        sent[i].gpu_id,
                        sent[i].ts_ns,
                        k.ts_ns,
                    )
                    &&& k.duration_ns == sent[i].duration_ns
                    &&& k.node_id == sent[i].node_id
                    &&& k.gpu_id == sent[i].gpu_id
                    &&& k.correlation_id == sent[i].correlation_id
                    &&& k.name_id == sent[i].name_id
                }
        }),
    decreases events.len(),
{
    reveal(Seq::filter);
    if events.len() > 0 {
        every_kernel_is_announced(fits, events.drop_last());
        let e = events.last();
        timestamps_follow_the_fit(fits, e.node_id, e.gpu_id, e.ts_ns);
    }
}

/// The newest fit sent for a GPU is the one in force, and a GPU that none was sent
/// for keeps the one it had.
pub proof fn the_newest_fit_is_in_force(
    fits: Map<u128, ClockOffset>,
    offsets: Seq<ClockOffsetRecord>,
    nows: Seq<u64>,
    node_id: u32,
    gpu_id: u32,
)
    requires
        nows.len() == offsets.len(),
    ensures
        ({
            let key = key_of_gpu(node_id, gpu_id);
            let own = offsets.filter(
                |c: ClockOffsetRecord| c.node_id == node_id && c.gpu_id == gpu_id,
            );
            let after = fits_after(fits, offsets, nows);
            &&& own.len() == 0 ==> (after.contains_key(key) <==> fits.contains_key(key))
            &&& own.len() == 0 && fits.contains_key(key) ==> after[key] == fits[key]
            &&& own.len() > 0 ==> {
                let c = own[own.len() - 1];
                &&& after.contains_key(key)
                &&& after[key].offset_ns == c.offset_ns
                &&& after[key].slope_num == c.slope_num
                &&& c.slope_den > 0 ==> after[key].slope_den == c.slope_den
                &&& c.slope_den <= 0 ==> after[key].slope_den == 1
                &&& after[key].residual_max_ns == c.residual_max_ns
            }
        }),
    decreases offsets.len(),
{
    reveal(Seq::filter);
    if offsets.len() > 0 {
        let c = offsets.last();
        the_newest_fit_is_in_force(fits, offsets.drop_last(), nows.drop_last(), node_id, gpu_id);
        fits_are_kept_as_sent(c, nows.last());
        if crate::skew::gpu_key(c.node_id, c.gpu_id) == key_of_gpu(node_id, gpu_id) {
            crate::skew::gpu_keys_are_distinct(c.node_id, c.gpu_id, node_id, gpu_id);
        }
    }
}

/// The tails of a series; empty if it has no samples.
pub open spec fn tails_in(ring: Map<u128, Tails>, key: SeriesKey) -> Tails {
    if ring.contains_key(key.packed_spec()) {
        ring[key.packed_spec()]
    } else {
        Tails { slow: Seq::empty(), fast: Seq::empty() }
    }
}

/// The samples of a series among the points of a frame, in order, each at the time
/// of the frame.
pub open spec fn samples_in(f: MetricFrame, points: Seq<MetricPoint>, key: SeriesKey) -> Seq<
    Sample,
> {
    if f.node_id == key.node_id && f.gpu_id == key.gpu_id {
        points.filter(|p: MetricPoint| p.metric_id == key.metric_id).map_values(
            |p: MetricPoint| Sample { ts_ns: f.ts_ns, value_bits: p.value_bits },
        )
    } else {
        Seq::empty()
    }
}

/// The samples of a series among some frames, in order.
pub open spec fn samples_of(frames: Seq<MetricFrame>, key: SeriesKey) -> Seq<Sample>
    decreases frames.len(),
{
    if frames.len() == 0 {
        Seq::empty()
    } else {
        samples_of(frames.drop_last(), key) + samples_in(
            frames.last(),
            frames.last().points@,
            key,
        )
    }
}

proof fn lemma_pushed_further(t: Tails, a: Seq<Sample>, b: Seq<Sample>)
    ensures
        pushed_all(pushed_all(t, a), b) == pushed_all(t, a + b),
    decreases b.len(),
{
    if b.len() == 0 {
        assert(a + b =~= a);
    } else {
        lemma_pushed_further(t, a, b.drop_last());
        assert((a + b).drop_last() =~= a + b.drop_last());
        assert((a + b).last() == b.last());
    }
}

proof fn lemma_one_push(ring: Map<u128, Tails>, to: SeriesKey, s: Sample, key: SeriesKey)
    ensures
        tails_in(pushed_to(ring, to, s), key) == if to == key {
            pushed(tails_in(ring, key), s)
        } else {
            tails_in(ring, key)
        },
{
    crate::fast_ring::packed_keys_order_series(to, key);
}

proof fn lemma_frame_reaches_its_series(
    ring: Map<u128, Tails>,
    f: MetricFrame,
    n: int,
    key: SeriesKey,
)
    requires
        0 <= n <= f.points@.len(),
    ensures
        tails_in(frame_pushed(ring, f, n), key) == pushed_all(
            tails_in(ring, key),
            samples_in(f, f.points@.take(n), key),
        ),
    decreases n,
{
    reveal(Seq::filter);
    if n > 0 {
        lemma_frame_reaches_its_series(ring, f, n - 1, key);
        let p = f.points@[n - 1];
        let to = SeriesKey { node_id: f.node_id, gpu_id: f.gpu_id, metric_id: p.metric_id };
        let s = Sample { ts_ns: f.ts_ns, value_bits: p.value_bits };
        lemma_one_push(frame_pushed(ring, f, n - 1), to, s, key);
        assert(f.points@.take(n).drop_last() =~= f.points@.take(n - 1));
        assert(f.points@.take(n).last() == p);
        let before = samples_in(f, f.points@.take(n - 1), key);
        if to == key {
            assert(samples_in(f, f.points@.take(n), key) =~= before.push(s));
            assert(before.push(s).drop_last() =~= before);
        } else {
            assert(samples_in(f, f.points@.take(n), key) =~= before);
        }
    } else {
        assert(f.points@.take(0) =~= Seq::<MetricPoint>::empty());
        assert(samples_in(f, f.points@.take(0), key) =~= Seq::<Sample>::empty());
    }
}

/// Every point of every frame reaches the tails of its own series, in order and at
/// the time of its frame, and no other series.
pub proof fn frames_reach_their_series(
    ring: Map<u128, Tails>,
    frames: Seq<MetricFrame>,
    key: SeriesKey,
)
    ensures
        tails_in(frames_pushed(ring, frames), key) == pushed_all(
            tails_in(ring, key),
            samples_of(frames, key),
        ),
    decreases frames.len(),
{
    if frames.len() > 0 {
        let f = frames.last();
        let before = frames_pushed(ring, frames.drop_last());
        frames_reach_their_series(ring, frames.drop_last(), key);
        lemma_frame_reaches_its_series(before, f, f.points@.len() as int, key);
        assert(f.points@.take(f.points@.len() as int) =~= f.points@);
        lemma_pushed_further(
            tails_in(ring, key),
            samples_of(frames.drop_last(), key),
            samples_in(f, f.points@, key),
        );
    }
}

/// The event is a reading of the series.
pub open spec fn reads_series(e: Event, key: SeriesKey) -> bool {
    &&& e.category == Category::Metric
    &&& e.node_id == key.node_id
    &&& e.gpu_id == key.gpu_id
    &&& e.payload matches Some(Payload::Metric(m)) && m.metric_id == key.metric_id
}

/// The sample in a metric event.
pub open spec fn sample_of(e: Event) -> Sample {
    match e.payload {
        Some(Payload::Metric(m)) => Sample { ts_ns: e.ts_ns, value_bits: m.value_bits },
        _ => Sample { ts_ns: 0, value_bits: 0 },
    }
}

/// Every metric event reaches the tails of its own series, in order and at the time
/// it carries, and no other series; no other event reaches any.
pub proof fn metrics_reach_their_series(
    ring: Map<u128, Tails>,
    events: Seq<Event>,
    key: SeriesKey,
)
    ensures
        tails_in(metrics_pushed(ring, events), key) == pushed_all(
            tails_in(ring, key),
            events.filter(|e: Event| reads_series(e, key)).map_values(|e: Event| sample_of(e)),
        ),
    decreases events.len(),
{
    reveal(Seq::filter);
    let reads = |e: Event| reads_series(e, key);
    let take = |e: Event| sample_of(e);
    if events.len() > 0 {
        let front = events.drop_last();
        let e = events.last();
        metrics_reach_their_series(ring, front, key);
        let before = front.filter(reads).map_values(take);
        let after = events.filter(reads).map_values(take);
        if e.category == Category::Metric {
            if let Some(Payload::Metric(m)) = e.payload {
                let to = SeriesKey { node_id: e.node_id, gpu_id: e.gpu_id, metric_id: m.metric_id };
                let s = Sample { ts_ns: e.ts_ns, value_bits: m.value_bits };
                lemma_one_push(metrics_pushed(ring, front), to, s, key);
            }
        }
        if reads_series(e, key) {
            assert(after =~= before.push(sample_of(e)));
            assert(before.push(sample_of(e)).drop_last() =~= before);
        } else {
            assert(after =~= before);
        }
    } else {
        assert(events.filter(reads).map_values(take) =~= Seq::<Sample>::empty());
    }
}

/// A batch that storage took counts its events as accepted, one that it had no room
/// for counts them as dropped, and the answer carries both counts; when storage is
/// gone nothing is counted and the agent is told so.
pub proof fn batches_are_counted_where_they_went(t: IngestTotals, rows: u64)
    requires
        t.accepted + rows <= u64::MAX,
        t.dropped + rows <= u64::MAX,
    ensures
        ({
            let (taken, told) = after_batch(t, rows, QueueOutcome::Taken);
            &&& taken.accepted == t.accepted + rows
            &&& taken.dropped == t.dropped
            &&& told matches IngestReply::Acknowledge(a) && a.accepted == taken.accepted
                && a.dropped == taken.dropped
        }),
        ({
            let (full, told) = after_batch(t, rows, QueueOutcome::Full);
            &&& full.accepted == t.accepted
            &&& full.dropped == t.dropped + rows
            &&& told matches IngestReply::Acknowledge(a) && a.accepted == full.accepted
                && a.dropped == full.dropped
        }),
        after_batch(t, rows, QueueOutcome::Closed) == (t, IngestReply::Unavailable),
{
}

/// Agents that ask for an id get it, and the others are numbered from one in the
/// order in which they come.
pub proof fn agents_are_numbered_in_turn(asked: Seq<u32>, i: int)
    requires
        0 <= i < asked.len() <= u32::MAX,
    ensures
        asked[i] != 0 ==> assigned(asked, i) == asked[i],
        asked[i] == 0 ==> assigned(asked, i) == asked.take(i).filter(|id: u32| id == 0).len() + 1,
{
    lemma_next_free_counts(asked.take(i));
}

proof fn lemma_next_free_counts(asked: Seq<u32>)
    requires
        asked.len() < u32::MAX,
    ensures
        next_free(asked) == asked.filter(|id: u32| id == 0).len() + 1,
        asked.filter(|id: u32| id == 0).len() <= asked.len(),
    decreases asked.len(),
{
    reveal(Seq::filter);
    if asked.len() > 0 {
        lemma_next_free_counts(asked.drop_last());
    }
}

} // verus!
