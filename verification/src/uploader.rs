//! The agent's uploader: what it sends, and when it connects again.

use crate::clock::{affine, ClockOffset};
use crate::ingest::{gpu_time, has_gpu_time};
use crate::intern::{known_after, name_id, Interner};
use crate::model::{AgentHello, Batch, Event, Payload, StringIntern};
use crate::ring::EventRing;
use vstd::prelude::*;

verus! {

#[derive(Clone, Debug)]
pub struct UploaderConfig {
    pub collector_url: String,
    pub hostname: String,
    pub node_id: u32,
    pub num_gpus: u32,
    pub max_batch_events: usize,
    pub flush_interval_ms: u64,
    /// Where the server can reach this agent; empty if nowhere.
    pub agent_rpc_addr: String,
}

impl UploaderConfig {
    /// What the agent says of itself when it connects.
    pub fn hello(&self, agent_version: &str) -> (h: AgentHello)
        ensures
            h.node_id == self.node_id,
            h.hostname == self.hostname,
            h.agent_version@ == agent_version@,
            h.num_gpus == self.num_gpus,
            h.agent_rpc_addr == self.agent_rpc_addr,
    {
        AgentHello {
            node_id: self.node_id,
            hostname: self.hostname.clone(),
            agent_version: agent_version.to_string(),
            num_gpus: self.num_gpus,
            agent_rpc_addr: self.agent_rpc_addr.clone(),
        }
    }
}

/// An event as it is sent. Events with GPU time are mapped to host time; metrics
/// come in host time already.
pub open spec fn sent_event(off: ClockOffset, e: Event) -> Event {
    if has_gpu_time(e.category) {
        Event {
            ts_ns: affine(
                off.offset_ns as int,
                off.slope_num as int,
                off.slope_den as int,
                e.ts_ns as int,
            ) as u64,
            ..e
        }
    } else {
        e
    }
}

/// The events as they are sent.
pub open spec fn sent_events(off: ClockOffset, events: Seq<Event>) -> Seq<Event> {
    events.map_values(|e: Event| sent_event(off, e))
}

/// The fit maps the GPU times among the events.
pub open spec fn can_send(off: ClockOffset, events: Seq<Event>) -> bool {
    forall|i: int|
        0 <= i < events.len() && has_gpu_time((#[trigger] events[i]).category) ==> off.can_map(
            events[i].ts_ns as int,
        )
}

/// Up to `max` events, oldest first.
pub open spec fn first_events(events: Seq<Event>, max: usize) -> Seq<Event> {
    if events.len() < max {
        events
    } else {
        events.take(max as int)
    }
}

/// The unit of a metric event, unless it is empty.
pub open spec fn unit_of(e: Event) -> Option<Seq<char>> {
    match e.payload {
        Some(Payload::Metric(m)) => if m.unit@.len() > 0 {
            Some(m.unit@)
        } else {
            None
        },
        _ => None,
    }
}

/// The metric units among the events, in order.
pub open spec fn units(events: Seq<Event>) -> Seq<Seq<char>>
    decreases events.len(),
{
    if events.len() == 0 {
        Seq::empty()
    } else {
        match unit_of(events.last()) {
            Some(unit) => units(events.drop_last()).push(unit),
            None => units(events.drop_last()),
        }
    }
}

/// The announcements made when `texts` are recorded in turn by an interner that
/// has announced `seen`.
pub open spec fn announcements(seen: Set<u64>, texts: Seq<Seq<char>>) -> Seq<(u64, Seq<char>)>
    decreases texts.len(),
{
    if texts.len() == 0 {
        Seq::empty()
    } else {
        let before = announcements(seen, texts.drop_last());
        let id = name_id(texts.last());
        if known_after(seen, texts.drop_last()).contains(id) {
            before
        } else {
            before.push((id, texts.last()))
        }
    }
}

/// Announcements as ids and texts.
pub open spec fn string_views(strings: Seq<StringIntern>) -> Seq<(u64, Seq<char>)> {
    strings.map_values(|s: StringIntern| (s.id, s.text@))
}

fn correct_events(off: &ClockOffset, events: Vec<Event>) -> (out: Vec<Event>)
    requires
        can_send(*off, events@),
    ensures
        out@ == sent_events(*off, events@),
{
    let ghost all = events@;
    let mut out: Vec<Event> = Vec::new();
    for e in it: events.into_iter()
        invariant
            it.seq() == all,
            can_send(*off, all),
            out@ == sent_events(*off, all.take(it.index())),
    {
        let ghost i = it.index();
        let mut e = e;
        if gpu_time(e.category) {
            e.ts_ns = off.map(e.ts_ns);
        }
        out.push(e);
        proof {
            assert(e == sent_event(*off, all[i]));
            assert(out@ =~= sent_events(*off, all.take(i + 1)));
        }
    }
    proof {
        assert(all.take(all.len() as int) =~= all);
    }
    out
}

fn announce_units(events: &Vec<Event>, interner: &mut Interner) -> (strings: Vec<StringIntern>)
    ensures
        string_views(strings@) == announcements(old(interner)@, units(events@)),
        final(interner)@ == known_after(old(interner)@, units(events@)),
{
    let mut strings: Vec<StringIntern> = Vec::new();
    let mut i: usize = 0;
    proof {
        assert(events@.take(0) =~= Seq::<Event>::empty());
        assert(string_views(strings@) =~= Seq::<(u64, Seq<char>)>::empty());
    }
    while i < events.len()
        invariant
            0 <= i <= events.len(),
            string_views(strings@) == announcements(
                old(interner)@,
                units(events@.take(i as int)),
            ),
            interner@ == known_after(old(interner)@, units(events@.take(i as int))),
        decreases events.len() - i,
    {
        proof {
            assert(events@.take(i + 1).drop_last() =~= events@.take(i as int));
            assert(events@.take(i + 1).last() == events@[i as int]);
        }
        if let Some(Payload::Metric(m)) = &events[i].payload {
            if !m.unit.as_str().is_empty() {
                let ghost so_far = units(events@.take(i as int));
                let ghost before = strings@;
                proof {
                    assert(so_far.push(m.unit@).drop_last() =~= so_far);
                }
                let (id, rec) = interner.record(m.unit.as_str());
                if let Some(r) = rec {
                    strings.push(r);
                    proof {
                        assert(string_views(strings@) =~= string_views(before).push(
                            (id, m.unit@),
                        ));
                    }
                }
            }
        }
        i = i + 1;
    }
    proof {
        assert(events@.take(events.len() as int) =~= events@);
    }
    strings
}

/// The next batch to send: up to `max_events` events mapped to host time, every
/// metric frame, and the units not announced yet. `None` if nothing waits.
pub fn next_batch(
    ring: &mut EventRing,
    off: &ClockOffset,
    interner: &mut Interner,
    max_events: usize,
) -> (batch: Option<Batch>)
    requires
        old(ring).wf(),
        can_send(*off, first_events(old(ring).events(), max_events)),
    ensures
        final(ring).wf(),
        final(ring).capacity() == old(ring).capacity(),
        final(ring).frame_capacity() == old(ring).frame_capacity(),
        final(ring).dropped() == old(ring).dropped(),
        final(ring).dropped_frames() == old(ring).dropped_frames(),
        ({
            let taken = first_events(old(ring).events(), max_events);
            let n = taken.len() as int;
            &&& final(ring).events() == old(ring).events().skip(n)
            &&& final(ring).frames().len() == 0
            &&& batch is None <==> n == 0 && old(ring).frames().len() == 0
            &&& batch matches Some(b) ==> {
                &&& b.events@ == sent_events(*off, taken)
                &&& b.metric_frames@ == old(ring).frames()
                &&& b.offsets@.len() == 0
                &&& string_views(b.strings@) == announcements(
                    old(interner)@,
                    units(sent_events(*off, taken)),
                )
            }
            &&& final(interner)@ == known_after(old(interner)@, units(sent_events(*off, taken)))
        }),
{
    let events = ring.drain_up_to(max_events);
    let metric_frames = ring.drain_frames();
    let ghost taken = events@;
    let empty = events.len() == 0 && metric_frames.len() == 0;
    let events = correct_events(off, events);
    let strings = announce_units(&events, interner);
    if empty {
        None
    } else {
        Some(Batch { events, strings, offsets: Vec::new(), metric_frames })
    }
}

/// The first pause after a failed connection.
pub const MIN_BACKOFF_MS: u64 = 250;

/// The longest pause after a failed connection.
pub const MAX_BACKOFF_MS: u64 = 10_000;

/// The pause after a session that broke.
pub const SESSION_PAUSE_MS: u64 = 500;

/// What happened to the uploader's connection.
#[derive(Copy, Clone, Debug, PartialEq, Eq, Structural)]
pub enum UploadEvent {
    ConnectFailed,
    Connected,
    SessionFailed,
    SessionEnded,
}

/// What the uploader does next.
#[derive(Copy, Clone, Debug, PartialEq, Eq, Structural)]
pub enum UploadAction {
    /// Pause, then connect.
    PauseMs(u64),
    /// Run a session on the new connection.
    RunSession,
    /// Forget what was announced, pause, then connect: the collector may have
    /// been restarted.
    ForgetAndPauseMs(u64),
    /// Stop.
    Stop,
}

/// The uploader's reconnection.
#[derive(Copy, Clone, Debug, PartialEq, Eq, Structural)]
pub struct Reconnection {
    pub backoff_ms: u64,
}

/// A pause twice as long, up to the maximum.
pub open spec fn longer_pause(ms: int) -> int {
    if ms * 2 <= MAX_BACKOFF_MS {
        ms * 2
    } else {
        MAX_BACKOFF_MS as int
    }
}

/// The state and the action after an event. Pauses grow while connecting fails
/// and start over once it succeeds.
pub open spec fn reconnection_after(
    r: Reconnection,
    e: UploadEvent,
) -> (Reconnection, UploadAction) {
    match e {
        UploadEvent::ConnectFailed => (
            Reconnection { backoff_ms: longer_pause(r.backoff_ms as int) as u64 },
            UploadAction::PauseMs(r.backoff_ms),
        ),
        UploadEvent::Connected => (
            Reconnection { backoff_ms: MIN_BACKOFF_MS },
            UploadAction::RunSession,
        ),
        UploadEvent::SessionFailed => (r, UploadAction::ForgetAndPauseMs(SESSION_PAUSE_MS)),
        UploadEvent::SessionEnded => (r, UploadAction::Stop),
    }
}

impl Reconnection {
    pub fn new() -> (r: Self)
        ensures
            r.backoff_ms == MIN_BACKOFF_MS,
    {
        Reconnection { backoff_ms: MIN_BACKOFF_MS }
    }

    pub fn after(&mut self, e: UploadEvent) -> (action: UploadAction)
        ensures
            (*final(self), action) == reconnection_after(*old(self), e),
    {
        match e {
            UploadEvent::ConnectFailed => {
                let ms: u64 = self.backoff_ms;
                self.backoff_ms = if ms <= MAX_BACKOFF_MS / 2 {
                    ms * 2
                } else {
                    MAX_BACKOFF_MS
                };
                UploadAction::PauseMs(ms)
            },
            UploadEvent::Connected => {
                self.backoff_ms = MIN_BACKOFF_MS;
                UploadAction::RunSession
            },
            UploadEvent::SessionFailed => UploadAction::ForgetAndPauseMs(SESSION_PAUSE_MS),
            UploadEvent::SessionEnded => UploadAction::Stop,
        }
    }
}

/// The reconnection state after a run of events.
pub open spec fn reconnection_run(r: Reconnection, events: Seq<UploadEvent>) -> Reconnection
    decreases events.len(),
{
    if events.len() == 0 {
        r
    } else {
        reconnection_after(reconnection_run(r, events.drop_last()), events.last()).0
    }
}

/// Whatever happens, pauses stay between the first and the longest.
pub proof fn pauses_stay_bounded(events: Seq<UploadEvent>)
    ensures
        MIN_BACKOFF_MS <= reconnection_run(
            Reconnection { backoff_ms: MIN_BACKOFF_MS },
            events,
        ).backoff_ms <= MAX_BACKOFF_MS,
    decreases events.len(),
{
    if events.len() > 0 {
        pauses_stay_bounded(events.drop_last());
    }
}

/// An event whose category carries no GPU time is sent exactly as it was sampled.
pub proof fn metrics_are_sent_as_sampled(off: ClockOffset, events: Seq<Event>, i: int)
    requires
        0 <= i < events.len(),
        !has_gpu_time(events[i].category),
    ensures
        sent_events(off, events)[i] == events[i],
{
}

/// Pauses double from a quarter of a second to ten seconds while connecting fails,
/// start over once it succeeds, and a broken session makes the agent announce its
/// names anew.
pub proof fn reconnection_backs_off(r: Reconnection)
    requires
        250 <= r.backoff_ms <= 10_000,
    ensures
        reconnection_after(r, UploadEvent::ConnectFailed).1 == UploadAction::PauseMs(r.backoff_ms),
        r.backoff_ms <= 5_000 ==> reconnection_after(r, UploadEvent::ConnectFailed).0.backoff_ms
            == 2 * r.backoff_ms,
        r.backoff_ms > 5_000 ==> reconnection_after(r, UploadEvent::ConnectFailed).0.backoff_ms
            == 10_000,
        reconnection_after(r, UploadEvent::Connected).0.backoff_ms == 250,
        reconnection_after(r, UploadEvent::Connected).1 == UploadAction::RunSession,
        reconnection_after(r, UploadEvent::SessionFailed).1 == UploadAction::ForgetAndPauseMs(500),
        reconnection_after(r, UploadEvent::SessionEnded).1 == UploadAction::Stop,
{
}

} // verus!
