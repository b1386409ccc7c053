//! What the collector does with what agents send.
//!
//! Clock fits come first, so that the events of the same batch are mapped by
//! them. Metrics go to the live tails only; all other events are mapped to host
//! time and kept for storage, and kernels are announced to live clients as well.

use crate::clock::ClockOffset;
use crate::fast_ring::{no_tails, pushed, FastRing, Sample, SeriesKey, Tails};
use crate::live::LiveKernelEvent;
use crate::model::{
    Ack, AgentHello, Batch, Category, ClockOffsetRecord, Event, MetricFrame, Payload,
};
use crate::sink::without_metrics;
use crate::skew::{corrected, gpu_key, kept_fit, SkewTable};
use vstd::prelude::*;

verus! {

/// The id handed out after `id`: ids wrap around after the last.
pub open spec fn id_after(id: u32) -> u32 {
    if id == u32::MAX {
        0
    } else {
        (id + 1) as u32
    }
}

/// The next free id once agents have asked for the ids `asked`, zero for none.
pub open spec fn next_free(asked: Seq<u32>) -> u32
    decreases asked.len(),
{
    if asked.len() == 0 {
        1
    } else if asked.last() == 0 {
        id_after(next_free(asked.drop_last()))
    } else {
        next_free(asked.drop_last())
    }
}

/// The id of agent `i` when agents ask for the ids `asked` in turn.
pub open spec fn assigned(asked: Seq<u32>, i: int) -> u32 {
    if asked[i] != 0 {
        asked[i]
    } else {
        next_free(asked.take(i))
    }
}

/// Hands out node ids.
pub struct NodeIds {
    next: u32,
}

impl NodeIds {
    pub closed spec fn next_id(self) -> u32 {
        self.next
    }

    pub fn new() -> (ids: Self)
        ensures
            ids.next_id() == 1,
    {
        NodeIds { next: 1 }
    }

    /// The node id of an agent: the one it asks for, or the next free one if it
    /// asks for none. Ids wrap around after the last.
    pub fn assign(&mut self, hello: &AgentHello) -> (id: u32)
        ensures
            hello.node_id != 0 ==> id == hello.node_id && *final(self) == *old(self),
            hello.node_id == 0 ==> id == old(self).next_id() && final(self).next_id() == id_after(
                old(self).next_id(),
            ),
    {
        if hello.node_id == 0 {
            let id: u32 = self.next;
            self.next = self.next.wrapping_add(1);
            id
        } else {
            hello.node_id
        }
    }
}

/// The fits once `offsets` have been taken at the times `nows`.
pub open spec fn fits_after(
    fits: Map<u128, ClockOffset>,
    offsets: Seq<ClockOffsetRecord>,
    nows: Seq<u64>,
) -> Map<u128, ClockOffset>
    decreases offsets.len(),
{
    if offsets.len() == 0 {
        fits
    } else {
        let c = offsets.last();
        fits_after(fits, offsets.drop_last(), nows.drop_last()).insert(
            gpu_key(c.node_id, c.gpu_id),
            kept_fit(c, nows.last()),
        )
    }
}

/// The tails once a sample has been pushed to a series.
pub open spec fn pushed_to(
    ring: Map<u128, Tails>,
    key: SeriesKey,
    s: Sample,
) -> Map<u128, Tails> {
    let before = if ring.contains_key(key.packed_spec()) {
        ring[key.packed_spec()]
    } else {
        no_tails()
    };
    ring.insert(key.packed_spec(), pushed(before, s))
}

/// The tails once the first `n` points of a frame have been pushed. Frames come in
/// host time.
pub open spec fn frame_pushed(ring: Map<u128, Tails>, f: MetricFrame, n: int) -> Map<u128, Tails>
    decreases n,
{
    if n <= 0 {
        ring
    } else {
        pushed_to(
            frame_pushed(ring, f, n - 1),
            SeriesKey {
                node_id: f.node_id,
                gpu_id: f.gpu_id,
                metric_id: f.points@[n - 1].metric_id,
            },
            Sample { ts_ns: f.ts_ns, value_bits: f.points@[n - 1].value_bits },
        )
    }
}

/// The tails once every point of every frame has been pushed.
pub open spec fn frames_pushed(ring: Map<u128, Tails>, frames: Seq<MetricFrame>) -> Map<u128, Tails>
    decreases frames.len(),
{
    if frames.len() == 0 {
        ring
    } else {
        let f = frames.last();
        frame_pushed(frames_pushed(ring, frames.drop_last()), f, f.points@.len() as int)
    }
}

/// Categories whose timestamps come from a GPU clock.
pub open spec fn has_gpu_time(c: Category) -> bool {
    c == Category::Kernel || c == Category::ApiCall || c == Category::Memcpy || c
        == Category::Memset
}

/// An event in host time.
pub open spec fn in_host_time(fits: Map<u128, ClockOffset>, e: Event) -> Event {
    if has_gpu_time(e.category) {
        Event { ts_ns: corrected(fits, e.node_id, e.gpu_id, e.ts_ns), ..e }
    } else {
        e
    }
}

/// The events to store, in host time: all but metrics.
pub open spec fn stored_events(fits: Map<u128, ClockOffset>, events: Seq<Event>) -> Seq<Event>
    decreases events.len(),
{
    if events.len() == 0 {
        Seq::empty()
    } else {
        let before = stored_events(fits, events.drop_last());
        if events.last().category == Category::Metric {
            before
        } else {
            before.push(in_host_time(fits, events.last()))
        }
    }
}

/// A kernel event as it is announced.
pub open spec fn announcement(e: Event) -> LiveKernelEvent {
    LiveKernelEvent {
        ts_ns: e.ts_ns,
        duration_ns: e.duration_ns,
        node_id: e.node_id,
        gpu_id: e.gpu_id,
        correlation_id: e.correlation_id,
        name_id: e.name_id,
    }
}

/// The kernels to announce, in host time.
pub open spec fn announced_kernels(
    fits: Map<u128, ClockOffset>,
    events: Seq<Event>,
) -> Seq<LiveKernelEvent>
    decreases events.len(),
{
    if events.len() == 0 {
        Seq::empty()
    } else {
        let before = announced_kernels(fits, events.drop_last());
        if events.last().category == Category::Kernel {
            before.push(announcement(in_host_time(fits, events.last())))
        } else {
            before
        }
    }
}

/// The tails once the metric events have been pushed, at the times they carry.
pub open spec fn metrics_pushed(ring: Map<u128, Tails>, events: Seq<Event>) -> Map<u128, Tails>
    decreases events.len(),
{
    if events.len() == 0 {
        ring
    } else {
        let before = metrics_pushed(ring, events.drop_last());
        let e = events.last();
        match e.payload {
            Some(Payload::Metric(m)) => if e.category == Category::Metric {
                pushed_to(
                    before,
                    SeriesKey { node_id: e.node_id, gpu_id: e.gpu_id, metric_id: m.metric_id },
                    Sample { ts_ns: e.ts_ns, value_bits: m.value_bits },
                )
            } else {
                before
            },
            _ => before,
        }
    }
}

/// What a batch leaves for storage and for live clients.
pub struct Absorbed {
    pub to_sink: Batch,
    pub kernels: Vec<LiveKernelEvent>,
    /// How many events the batch held.
    pub rows: u64,
}

pub(crate) fn gpu_time(c: Category) -> (b: bool)
    ensures
        b == has_gpu_time(c),
{
    c == Category::Kernel || c == Category::ApiCall || c == Category::Memcpy || c
        == Category::Memset
}

fn absorb_offsets(offsets: &Vec<ClockOffsetRecord>, skew: &mut SkewTable)
    requires
        old(skew).wf(),
    ensures
        final(skew).wf(),
        exists|nows: Seq<u64>|
            nows.len() == offsets@.len() && final(skew)@ == #[trigger] fits_after(
                old(skew)@,
                offsets@,
                nows,
            ),
{
    let ghost mut nows: Seq<u64> = Seq::empty();
    let mut i: usize = 0;
    proof {
        assert(offsets@.take(0) =~= Seq::<ClockOffsetRecord>::empty());
    }
    while i < offsets.len()
        invariant
            0 <= i <= offsets.len(),
            skew.wf(),
            nows.len() == i,
            skew@ == fits_after(old(skew)@, offsets@.take(i as int), nows),
        decreases offsets.len() - i,
    {
        let ghost before = skew@;
        let c = offsets[i];
        skew.upsert(&c);
        proof {
            let now = choose|now: u64|
                skew@ == before.insert(gpu_key(c.node_id, c.gpu_id), #[trigger] kept_fit(c, now));
            assert(nows.push(now).drop_last() =~= nows);
            assert(offsets@.take(i + 1).drop_last() =~= offsets@.take(i as int));
            nows = nows.push(now);
        }
        i = i + 1;
    }
    proof {
        assert(offsets@.take(offsets.len() as int) =~= offsets@);
    }
}

fn absorb_frame(f: &MetricFrame, fast: &mut FastRing)
    requires
        old(fast).wf(),
    ensures
        final(fast).wf(),
        final(fast)@ == frame_pushed(old(fast)@, *f, f.points@.len() as int),
        final(fast).published() == old(fast).published(),
        final(fast).published_at() == old(fast).published_at(),
{
    let mut i: usize = 0;
    while i < f.points.len()
        invariant
            0 <= i <= f.points.len(),
            fast.wf(),
            fast@ == frame_pushed(old(fast)@, *f, i as int),
            fast.published() == old(fast).published(),
            fast.published_at() == old(fast).published_at(),
        decreases f.points.len() - i,
    {
        let p = f.points[i];
        fast.push(
            SeriesKey { node_id: f.node_id, gpu_id: f.gpu_id, metric_id: p.metric_id },
            Sample { ts_ns: f.ts_ns, value_bits: p.value_bits },
        );
        i = i + 1;
    }
}

fn absorb_frames(frames: &Vec<MetricFrame>, fast: &mut FastRing)
    requires
        old(fast).wf(),
    ensures
        final(fast).wf(),
        final(fast)@ == frames_pushed(old(fast)@, frames@),
        final(fast).published() == old(fast).published(),
        final(fast).published_at() == old(fast).published_at(),
{
    let mut i: usize = 0;
    proof {
        assert(frames@.take(0) =~= Seq::<MetricFrame>::empty());
    }
    while i < frames.len()
        invariant
            0 <= i <= frames.len(),
            fast.wf(),
            fast@ == frames_pushed(old(fast)@, frames@.take(i as int)),
            fast.published() == old(fast).published(),
            fast.published_at() == old(fast).published_at(),
        decreases frames.len() - i,
    {
        proof {
            assert(frames@.take(i + 1).drop_last() =~= frames@.take(i as int));
            assert(frames@.take(i + 1).last() == frames@[i as int]);
        }
        absorb_frame(&frames[i], fast);
        i = i + 1;
    }
    proof {
        assert(frames@.take(frames.len() as int) =~= frames@);
    }
}

/// Takes in a batch: its fits, then its metric frames, then its events.
pub fn absorb_batch(batch: Batch, skew: &mut SkewTable, fast: &mut FastRing) -> (out: Absorbed)
    requires
        old(skew).wf(),
        old(fast).wf(),
    ensures
        final(skew).wf(),
        final(fast).wf(),
        final(fast).published() == old(fast).published(),
        final(fast).published_at() == old(fast).published_at(),
        exists|nows: Seq<u64>|
            nows.len() == batch.offsets@.len() && final(skew)@ == #[trigger] fits_after(
                old(skew)@,
                batch.offsets@,
                nows,
            ),
        final(fast)@ == metrics_pushed(
            frames_pushed(old(fast)@, batch.metric_frames@),
            batch.events@,
        ),
        out.to_sink.events@ == stored_events(final(skew)@, batch.events@),
        out.to_sink.strings == batch.strings,
        out.to_sink.offsets == batch.offsets,
        out.to_sink.metric_frames@.len() == 0,
        out.kernels@ == announced_kernels(final(skew)@, batch.events@),
        out.rows == batch.events@.len(),
{
    let Batch { events, strings, offsets, metric_frames } = batch;
    let rows: u64 = events.len() as u64;
    absorb_offsets(&offsets, skew);
    absorb_frames(&metric_frames, fast);
    let ghost fits = skew@;
    let ghost ring = fast@;
    let ghost all = events@;
    let mut stored: Vec<Event> = Vec::new();
    let mut kernels: Vec<LiveKernelEvent> = Vec::new();
    proof {
        assert(all.take(0) =~= Seq::<Event>::empty());
    }
    for e in it: events.into_iter()
        invariant
            it.seq() == all,
            skew.wf(),
            skew@ == fits,
            fast.wf(),
            fast.published() == old(fast).published(),
            fast.published_at() == old(fast).published_at(),
            fast@ == metrics_pushed(ring, all.take(it.index())),
            stored@ == stored_events(fits, all.take(it.index())),
            kernels@ == announced_kernels(fits, all.take(it.index())),
    {
        let ghost i = it.index();
        proof {
            assert(all.take(i + 1).drop_last() =~= all.take(i));
            assert(all.take(i + 1).last() == all[i]);
            assert(e == all[i]);
        }
        let mut e = e;
        if gpu_time(e.category) {
            e.ts_ns = skew.map(e.node_id, e.gpu_id, e.ts_ns);
        }
        proof {
            assert(e == in_host_time(fits, all[i]));
        }
        if e.category == Category::Metric {
            if let Some(Payload::Metric(m)) = &e.payload {
                fast.push(
                    SeriesKey { node_id: e.node_id, gpu_id: e.gpu_id, metric_id: m.metric_id },
                    Sample { ts_ns: e.ts_ns, value_bits: m.value_bits },
                );
            }
        } else {
            if e.category == Category::Kernel {
                kernels.push(
                    LiveKernelEvent {
                        ts_ns: e.ts_ns,
                        duration_ns: e.duration_ns,
                        node_id: e.node_id,
                        gpu_id: e.gpu_id,
                        correlation_id: e.correlation_id,
                        name_id: e.name_id,
                    },
                );
            }
            stored.push(e);
        }
    }
    proof {
        assert(all.take(all.len() as int) =~= all);
    }
    Absorbed {
        to_sink: Batch { events: stored, strings, offsets, metric_frames: Vec::new() },
        kernels,
        rows,
    }
}

/// What became of a batch handed to the storage queue.
#[derive(Copy, Clone, Debug, PartialEq, Eq, Structural)]
pub enum QueueOutcome {
    Taken,
    Full,
    Closed,
}

/// What an agent is answered.
#[derive(Copy, Clone, Debug, PartialEq, Eq, Structural)]
pub enum IngestReply {
    Acknowledge(Ack),
    /// Storage is gone; the stream ends.
    Unavailable,
}

/// Running totals of one agent's stream.
#[derive(Copy, Clone, Debug, PartialEq, Eq, Structural)]
pub struct IngestTotals {
    pub accepted: u64,
    pub dropped: u64,
}

/// `n` more, wrapping around.
pub open spec fn counted(total: u64, n: u64) -> u64 {
    ((total + n) % 0x1_0000_0000_0000_0000) as u64
}

/// The totals and the answer after a batch of `rows` events: the whole batch
/// counts as accepted or as dropped, and the answer carries the totals.
pub open spec fn after_batch(
    t: IngestTotals,
    rows: u64,
    outcome: QueueOutcome,
) -> (IngestTotals, IngestReply) {
    match outcome {
        QueueOutcome::Closed => (t, IngestReply::Unavailable),
        _ => {
            let next = if outcome == QueueOutcome::Taken {
                IngestTotals { accepted: counted(t.accepted, rows), ..t }
            } else {
                IngestTotals { dropped: counted(t.dropped, rows), ..t }
            };
            (
                next,
                IngestReply::Acknowledge(Ack { accepted: next.accepted, dropped: next.dropped }),
            )
        },
    }
}

fn count_more(total: u64, n: u64) -> (t: u64)
    ensures
        t == counted(total, n),
{
    total.wrapping_add(n)
}

impl IngestTotals {
    pub fn new() -> (t: Self)
        ensures
            t == (IngestTotals { accepted: 0, dropped: 0 }),
    {
        IngestTotals { accepted: 0, dropped: 0 }
    }

    /// Counts a batch and answers it.
    pub fn settle(&mut self, rows: u64, outcome: QueueOutcome) -> (reply: IngestReply)
        ensures
            (*final(self), reply) == after_batch(*old(self), rows, outcome),
    {
        match outcome {
            QueueOutcome::Closed => {
                return IngestReply::Unavailable;
            },
            QueueOutcome::Taken => {
                self.accepted = count_more(self.accepted, rows);
            },
            QueueOutcome::Full => {
                self.dropped = count_more(self.dropped, rows);
            },
        }
        IngestReply::Acknowledge(Ack { accepted: self.accepted, dropped: self.dropped })
    }
}

/// The totals after a run of batches.
pub open spec fn totals_after(t: IngestTotals, run: Seq<(u64, QueueOutcome)>) -> IngestTotals
    decreases run.len(),
{
    if run.len() == 0 {
        t
    } else {
        after_batch(totals_after(t, run.drop_last()), run.last().0, run.last().1).0
    }
}

/// How many events a run of batches held.
pub open spec fn rows_in(run: Seq<(u64, QueueOutcome)>) -> int
    decreases run.len(),
{
    if run.len() == 0 {
        0
    } else {
        rows_in(run.drop_last()) + run.last().0
    }
}

/// No event goes missing from the totals: as long as storage is there, accepted
/// and dropped together are all the events sent.
pub proof fn every_event_is_accounted_for(run: Seq<(u64, QueueOutcome)>)
    requires
        rows_in(run) <= u64::MAX,
        forall|i: int| 0 <= i < run.len() ==> (#[trigger] run[i]).1 != QueueOutcome::Closed,
    ensures
        ({
            let t = totals_after(IngestTotals { accepted: 0, dropped: 0 }, run);
            t.accepted + t.dropped == rows_in(run)
        }),
    decreases run.len(),
{
    if run.len() > 0 {
        let front = run.drop_last();
        assert forall|i: int| 0 <= i < front.len() implies (#[trigger] front[i]).1
            != QueueOutcome::Closed by {
            assert(front[i] == run[i]);
        }
        lemma_rows_nonnegative(front);
        assert(run.last() == run[run.len() - 1]);
        every_event_is_accounted_for(front);
    }
}

proof fn lemma_rows_nonnegative(run: Seq<(u64, QueueOutcome)>)
    ensures
        rows_in(run) >= 0,
    decreases run.len(),
{
    if run.len() > 0 {
        lemma_rows_nonnegative(run.drop_last());
    }
}

/// How many of the events are metrics.
pub open spec fn metric_count(events: Seq<Event>) -> nat
    decreases events.len(),
{
    if events.len() == 0 {
        0
    } else {
        metric_count(events.drop_last()) + if events.last().category == Category::Metric {
            1nat
        } else {
            0nat
        }
    }
}

/// Every event that is no metric is stored exactly once, in host time and in the
/// order sent, and no metric is stored.
pub proof fn storage_gets_all_but_metrics(fits: Map<u128, ClockOffset>, events: Seq<Event>)
    ensures
        stored_events(fits, events) == without_metrics(events).map_values(
            |e: Event| in_host_time(fits, e),
        ),
        stored_events(fits, events).len() + metric_count(events) == events.len(),
        forall|i: int|
            0 <= i < stored_events(fits, events).len() ==> (#[trigger] stored_events(
                fits,
                events,
            )[i]).category != Category::Metric,
    decreases events.len(),
{
    if events.len() > 0 {
        let front = events.drop_last();
        storage_gets_all_but_metrics(fits, front);
        let host = |e: Event| in_host_time(fits, e);
        assert(without_metrics(front).push(events.last()).map_values(host) =~= without_metrics(
            front,
        ).map_values(host).push(host(events.last())));
    }
}

/// Events of GPUs that no fit has come for are stored with the times they carry.
/// Agents map their own events and send no fits, so these are not mapped twice.
pub proof fn events_without_a_fit_keep_their_times(
    fits: Map<u128, ClockOffset>,
    events: Seq<Event>,
)
    requires
        forall|i: int|
            0 <= i < events.len() ==> !fits.contains_key(
                gpu_key((#[trigger] events[i]).node_id, events[i].gpu_id),
            ),
    ensures
        stored_events(fits, events) == without_metrics(events),
    decreases events.len(),
{
    if events.len() > 0 {
        let front = events.drop_last();
        assert forall|i: int| 0 <= i < front.len() implies !fits.contains_key(
            gpu_key((#[trigger] front[i]).node_id, front[i].gpu_id),
        ) by {
            assert(front[i] == events[i]);
        }
        events_without_a_fit_keep_their_times(fits, front);
        let e = events[events.len() - 1];
        assert(in_host_time(fits, e) == e);
    }
}

/// The kernels announced are those stored, with the same times.
pub proof fn live_kernels_match_storage(fits: Map<u128, ClockOffset>, events: Seq<Event>)
    ensures
        announced_kernels(fits, events) == kernels_of(stored_events(fits, events)),
    decreases events.len(),
{
    if events.len() > 0 {
        let front = events.drop_last();
        live_kernels_match_storage(fits, front);
        if events.last().category != Category::Metric {
            let s = stored_events(fits, front).push(in_host_time(fits, events.last()));
            assert(s.drop_last() =~= stored_events(fits, front));
        }
    }
}

/// Announcements of the kernels among `events`.
pub open spec fn kernels_of(events: Seq<Event>) -> Seq<LiveKernelEvent>
    decreases events.len(),
{
    if events.len() == 0 {
        Seq::empty()
    } else {
        let before = kernels_of(events.drop_last());
        if events.last().category == Category::Kernel {
            before.push(announcement(events.last()))
        } else {
            before
        }
    }
}

/// Until the ids have wrapped around, the next free id is one more than the
/// number of agents that asked for none.
proof fn lemma_next_free_grows(asked: Seq<u32>, i: int, j: int)
    requires
        0 <= i <= j <= asked.len(),
        j < u32::MAX,
    ensures
        1 <= next_free(asked.take(i)) <= next_free(asked.take(j)) <= j + 1,
    decreases j,
{
    let upto = asked.take(j);
    if j > 0 {
        assert(upto.drop_last() =~= asked.take(j - 1));
        if i < j {
            lemma_next_free_grows(asked, i, j - 1);
        } else {
            lemma_next_free_grows(asked, j - 1, j - 1);
        }
    }
}

/// No two agents that ask for no id get the same, and none gets zero, for as
/// many agents as there are ids other than zero.
pub proof fn fresh_ids_are_distinct(asked: Seq<u32>, i: int, j: int)
    requires
        0 <= i < j < asked.len() <= u32::MAX,
        asked[i] == 0,
        asked[j] == 0,
    ensures
        assigned(asked, i) != assigned(asked, j),
        assigned(asked, i) != 0,
        assigned(asked, j) != 0,
{
    assert(asked.take(i + 1).drop_last() =~= asked.take(i));
    lemma_next_free_grows(asked, i, i + 1);
    lemma_next_free_grows(asked, i + 1, j);
}

/// A batch of a stream: the clock readings at which its fits were kept, and what
/// storage answered.
pub ghost struct StreamStep {
    pub batch: Batch,
    pub nows: Seq<u64>,
    pub outcome: QueueOutcome,
}

/// What the batches of a stream leave behind.
pub ghost struct StreamState {
    pub fits: Map<u128, ClockOffset>,
    pub tails: Map<u128, Tails>,
    pub totals: IngestTotals,
    /// The answers to the batches, in order.
    pub replies: Seq<IngestReply>,
    /// The events that storage took.
    pub stored: Seq<Event>,
    /// The kernels announced to live clients.
    pub announced: Seq<LiveKernelEvent>,
}

/// The state after one more batch: it is absorbed, handed to storage and answered.
pub open spec fn stream_next(s: StreamState, step: StreamStep) -> StreamState {
    let events = step.batch.events@;
    let fits = fits_after(s.fits, step.batch.offsets@, step.nows);
    let (totals, reply) = after_batch(s.totals, events.len() as u64, step.outcome);
    StreamState {
        fits,
        tails: metrics_pushed(frames_pushed(s.tails, step.batch.metric_frames@), events),
        totals,
        replies: s.replies.push(reply),
        stored: if step.outcome == QueueOutcome::Taken {
            s.stored + stored_events(fits, events)
        } else {
            s.stored
        },
        announced: s.announced + announced_kernels(fits, events),
    }
}

/// The state after a run of batches.
pub open spec fn stream_after(s: StreamState, steps: Seq<StreamStep>) -> StreamState
    decreases steps.len(),
{
    if steps.len() == 0 {
        s
    } else {
        stream_next(stream_after(s, steps.drop_last()), steps.last())
    }
}

/// The state at the start of a stream.
pub open spec fn stream_start(
    fits: Map<u128, ClockOffset>,
    tails: Map<u128, Tails>,
) -> StreamState {
    StreamState {
        fits,
        tails,
        totals: IngestTotals { accepted: 0, dropped: 0 },
        replies: Seq::empty(),
        stored: Seq::empty(),
        announced: Seq::empty(),
    }
}

/// How many events a run of batches held.
pub open spec fn events_sent(steps: Seq<StreamStep>) -> nat
    decreases steps.len(),
{
    if steps.len() == 0 {
        0
    } else {
        events_sent(steps.drop_last()) + steps.last().batch.events@.len()
    }
}

/// The fits in force for the events of batch `i`.
pub open spec fn fits_of_batch(
    fits: Map<u128, ClockOffset>,
    tails: Map<u128, Tails>,
    steps: Seq<StreamStep>,
    i: int,
) -> Map<u128, ClockOffset> {
    stream_after(stream_start(fits, tails), steps.take(i + 1)).fits
}

/// The events of the first `n` batches that storage took, metrics left out, in
/// host time.
pub open spec fn accepted_events(
    fits: Map<u128, ClockOffset>,
    tails: Map<u128, Tails>,
    steps: Seq<StreamStep>,
    n: int,
) -> Seq<Event>
    decreases n,
{
    if n <= 0 {
        Seq::empty()
    } else {
        let before = accepted_events(fits, tails, steps, n - 1);
        if steps[n - 1].outcome == QueueOutcome::Taken {
            let now = fits_of_batch(fits, tails, steps, n - 1);
            before + without_metrics(steps[n - 1].batch.events@).map_values(
                |e: Event| in_host_time(now, e),
            )
        } else {
            before
        }
    }
}

/// The kernels of the first `n` batches, in host time.
pub open spec fn sent_kernels(
    fits: Map<u128, ClockOffset>,
    tails: Map<u128, Tails>,
    steps: Seq<StreamStep>,
    n: int,
) -> Seq<LiveKernelEvent>
    decreases n,
{
    if n <= 0 {
        Seq::empty()
    } else {
        let now = fits_of_batch(fits, tails, steps, n - 1);
        let events = steps[n - 1].batch.events@;
        sent_kernels(fits, tails, steps, n - 1) + kernels_of(
            without_metrics(events).map_values(|e: Event| in_host_time(now, e)),
        )
    }
}

/// As long as storage is there, a stream is answered batch by batch, each answer
/// counting every event sent so far as accepted or dropped. Storage gets the
/// events of the batches it took, in order, in host time and without metrics; live
/// clients get every kernel once, in host time.
pub proof fn streams_account_for_every_event(
    fits: Map<u128, ClockOffset>,
    tails: Map<u128, Tails>,
    steps: Seq<StreamStep>,
)
    requires
        events_sent(steps) <= u64::MAX,
        forall|i: int|
            0 <= i < steps.len() ==> (#[trigger] steps[i]).outcome != QueueOutcome::Closed,
    ensures
        ({
            let end = stream_after(stream_start(fits, tails), steps);
            &&& end.replies.len() == steps.len()
            &&& forall|i: int|
                0 <= i < steps.len() ==> (#[trigger] end.replies[i] matches IngestReply::Acknowledge(
                    ack,
                ) && ack.accepted + ack.dropped == events_sent(steps.take(i + 1)))
            &&& end.totals.accepted + end.totals.dropped == events_sent(steps)
            &&& end.stored == accepted_events(fits, tails, steps, steps.len() as int)
            &&& end.announced == sent_kernels(fits, tails, steps, steps.len() as int)
        }),
{
    lemma_stream_is_answered(stream_start(fits, tails), steps);
    lemma_stream_reaches_storage(fits, tails, steps);
    lemma_stream_is_announced(fits, tails, steps);
}

proof fn lemma_stream_is_answered(start: StreamState, steps: Seq<StreamStep>)
    requires
        start.totals == (IngestTotals { accepted: 0, dropped: 0 }),
        start.replies.len() == 0,
        events_sent(steps) <= u64::MAX,
        forall|i: int|
            0 <= i < steps.len() ==> (#[trigger] steps[i]).outcome != QueueOutcome::Closed,
    ensures
        ({
            let end = stream_after(start, steps);
            &&& end.replies.len() == steps.len()
            &&& forall|i: int|
                0 <= i < steps.len() ==> (#[trigger] end.replies[i] matches IngestReply::Acknowledge(
                    ack,
                ) && ack.accepted + ack.dropped == events_sent(steps.take(i + 1)))
            &&& end.totals.accepted + end.totals.dropped == events_sent(steps)
        }),
    decreases steps.len(),
{
    if steps.len() > 0 {
        let front = steps.drop_last();
        let n = front.len() as int;
        assert forall|i: int| 0 <= i < front.len() implies (#[trigger] front[i]).outcome
            != QueueOutcome::Closed by {
            assert(front[i] == steps[i]);
        }
        lemma_stream_is_answered(start, front);
        assert(steps.last() == steps[n]);
        let before = stream_after(start, front);
        let end = stream_after(start, steps);
        let rows = steps.last().batch.events@.len() as u64;
        let (totals, reply) = after_batch(before.totals, rows, steps.last().outcome);
        assert(end.totals == totals && end.replies == before.replies.push(reply));
        assert(totals.accepted + totals.dropped == events_sent(steps));
        assert forall|i: int| 0 <= i < steps.len() implies (
        #[trigger] end.replies[i] matches IngestReply::Acknowledge(ack) && ack.accepted
            + ack.dropped == events_sent(steps.take(i + 1))) by {
            if i < n {
                assert(end.replies[i] == before.replies[i]);
                assert(steps.take(i + 1) =~= front.take(i + 1));
            } else {
                assert(steps.take(n + 1) =~= steps);
            }
        }
    }
}

proof fn lemma_stream_reaches_storage(
    fits: Map<u128, ClockOffset>,
    tails: Map<u128, Tails>,
    steps: Seq<StreamStep>,
)
    ensures
        stream_after(stream_start(fits, tails), steps).stored == accepted_events(
            fits,
            tails,
            steps,
            steps.len() as int,
        ),
    decreases steps.len(),
{
    if steps.len() > 0 {
        let n = steps.len() - 1;
        lemma_stream_reaches_storage(fits, tails, steps.drop_last());
        lemma_parts_of_a_longer_stream(fits, tails, steps, n);
        assert(steps.take(n + 1) =~= steps);
        let now = fits_of_batch(fits, tails, steps, n);
        storage_gets_all_but_metrics(now, steps[n].batch.events@);
    }
}

proof fn lemma_stream_is_announced(
    fits: Map<u128, ClockOffset>,
    tails: Map<u128, Tails>,
    steps: Seq<StreamStep>,
)
    ensures
        stream_after(stream_start(fits, tails), steps).announced == sent_kernels(
            fits,
            tails,
            steps,
            steps.len() as int,
        ),
    decreases steps.len(),
{
    if steps.len() > 0 {
        let n = steps.len() - 1;
        lemma_stream_is_announced(fits, tails, steps.drop_last());
        lemma_parts_of_a_longer_stream(fits, tails, steps, n);
        assert(steps.take(n + 1) =~= steps);
        let now = fits_of_batch(fits, tails, steps, n);
        storage_gets_all_but_metrics(now, steps[n].batch.events@);
        live_kernels_match_storage(now, steps[n].batch.events@);
    }
}

/// What the first `n` batches amount to does not hang on the last one.
proof fn lemma_parts_of_a_longer_stream(
    fits: Map<u128, ClockOffset>,
    tails: Map<u128, Tails>,
    steps: Seq<StreamStep>,
    n: int,
)
    requires
        0 <= n < steps.len(),
    ensures
        accepted_events(fits, tails, steps, n) == accepted_events(
            fits,
            tails,
            steps.drop_last(),
            n,
        ),
        sent_kernels(fits, tails, steps, n) == sent_kernels(fits, tails, steps.drop_last(), n),
    decreases n,
{
    if n > 0 {
        lemma_parts_of_a_longer_stream(fits, tails, steps, n - 1);
        assert(steps.take(n) =~= steps.drop_last().take(n));
        assert(steps[n - 1] == steps.drop_last()[n - 1]);
    }
}

} // verus!
