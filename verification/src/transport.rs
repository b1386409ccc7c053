//! Transport of batches from the target process to the agent: length-prefixed
//! messages over a local socket, with bounded reconnection.

use crate::activity::u32_at;
use vstd::prelude::*;

verus! {

/// How long initialization waits for the agent to come up.
pub const INIT_BUDGET_NS: u64 = 10_000_000_000;

/// The first pause between connection attempts.
pub const MIN_BACKOFF_NS: u64 = 50_000_000;

/// The longest pause between connection attempts.
pub const MAX_BACKOFF_NS: u64 = 500_000_000;

/// How long shipping waits for a connection that was never made.
pub const LATE_CONNECT_BUDGET_NS: u64 = 200_000_000;

/// How long shipping waits to replace a connection that broke.
pub const RECONNECT_BUDGET_NS: u64 = 500_000_000;

/// The largest message accepted.
pub const MAX_FRAME_BYTES: usize = 67_108_864;

/// The four bytes of `n`, least significant first.
pub open spec fn le_bytes(n: u32) -> Seq<u8> {
    seq![
        (n % 256) as u8,
        (n / 256 % 256) as u8,
        (n / 65536 % 256) as u8,
        (n / 16777216) as u8,
    ]
}

/// A message on the wire: its length, then its bytes.
pub open spec fn framed(payload: Seq<u8>) -> Seq<u8> {
    le_bytes(payload.len() as u32) + payload
}

/// Puts the length in front of a message.
pub fn frame(payload: &Vec<u8>) -> (out: Vec<u8>)
    requires
        payload.len() <= u32::MAX,
    ensures
        out@ == framed(payload@),
{
    let n: u32 = payload.len() as u32;
    let mut out: Vec<u8> = Vec::new();
    out.push((n % 256) as u8);
    out.push((n / 256 % 256) as u8);
    out.push((n / 65536 % 256) as u8);
    out.push((n / 16777216) as u8);
    assert(out@ =~= le_bytes(n));
    let mut i: usize = 0;
    while i < payload.len()
        invariant
            0 <= i <= payload.len(),
            out@ == le_bytes(n) + payload@.take(i as int),
        decreases payload.len() - i,
    {
        out.push(payload[i]);
        i = i + 1;
        assert(out@ =~= le_bytes(n) + payload@.take(i as int));
    }
    assert(payload@.take(payload.len() as int) =~= payload@);
    out
}

/// The length of the message behind a prefix, or `None` if it is larger than
/// what is accepted: the connection is then given up.
pub fn frame_len(prefix: &[u8; 4]) -> (len: Option<usize>)
    ensures
        len == if u32_at(prefix@, 0) > MAX_FRAME_BYTES {
            None
        } else {
            Some(u32_at(prefix@, 0) as usize)
        },
{
    let n: u32 = (prefix[0] as u32) + 0x100 * (prefix[1] as u32) + 0x1_0000 * (prefix[2] as u32)
        + 0x100_0000 * (prefix[3] as u32);
    if n as usize > MAX_FRAME_BYTES {
        None
    } else {
        Some(n as usize)
    }
}

/// A message that was framed is read back whole: the prefix gives its length,
/// and the bytes behind it are the message.
pub proof fn framing_round_trips(payload: Seq<u8>)
    requires
        payload.len() <= MAX_FRAME_BYTES,
    ensures
        u32_at(framed(payload).take(4), 0) == payload.len(),
        framed(payload).skip(4) == payload,
{
    let n = payload.len() as u32;
    assert(framed(payload).take(4) =~= le_bytes(n));
    assert(framed(payload).skip(4) =~= payload);
}

/// Messages that follow each other do not run together.
pub proof fn frames_do_not_run_together(payload: Seq<u8>, later: Seq<u8>)
    requires
        payload.len() <= MAX_FRAME_BYTES,
    ensures
        u32_at((framed(payload) + later).take(4), 0) == payload.len(),
        (framed(payload) + later).subrange(4, 4 + payload.len() as int) == payload,
        (framed(payload) + later).skip(4 + payload.len() as int) == later,
{
    framing_round_trips(payload);
    let all = framed(payload) + later;
    assert(all.take(4) =~= framed(payload).take(4));
    assert(all.subrange(4, 4 + payload.len() as int) =~= payload);
    assert(all.skip(4 + payload.len() as int) =~= later);
}

/// The pause after one of length `pause`: twice as long, up to the maximum.
pub open spec fn longer_pause(pause: int) -> int {
    if pause * 2 <= MAX_BACKOFF_NS {
        pause * 2
    } else {
        MAX_BACKOFF_NS as int
    }
}

/// The pause after `failures` failed attempts.
pub open spec fn pause_after(failures: nat) -> int
    decreases failures,
{
    if failures == 0 {
        MIN_BACKOFF_NS as int
    } else {
        longer_pause(pause_after((failures - 1) as nat))
    }
}

/// What to do after a failed attempt to connect.
#[derive(Debug)]
pub enum Retry<E> {
    /// Try again after this many nanoseconds.
    PauseNs(u64),
    /// Stop, with this error.
    GiveUp(E),
}

/// Attempts to connect within a time budget, with growing pauses.
pub struct Connecting<E> {
    budget_ns: u64,
    pause_ns: u64,
    last_err: Option<E>,
    failures: Ghost<nat>,
}

impl<E> Connecting<E> {
    pub closed spec fn budget(self) -> int {
        self.budget_ns as int
    }

    /// How many attempts have failed so far.
    pub closed spec fn failures(self) -> nat {
        self.failures@
    }

    /// The error of the attempt before, if there was one.
    pub closed spec fn last_error(self) -> Option<E> {
        self.last_err
    }

    pub closed spec fn wf(self) -> bool {
        &&& self.pause_ns == pause_after(self.failures@)
        &&& MIN_BACKOFF_NS <= self.pause_ns <= MAX_BACKOFF_NS
    }

    pub fn within(budget_ns: u64) -> (c: Self)
        ensures
            c.wf(),
            c.budget() == budget_ns,
            c.failures() == 0,
            c.last_error() is None,
    {
        Connecting { budget_ns, pause_ns: MIN_BACKOFF_NS, last_err: None, failures: Ghost(0) }
    }

    /// An attempt failed with `e`, `elapsed_ns` after the first began. Past the
    /// budget the error of the attempt before is given up with, or `e` if there
    /// was none; until then the next attempt waits, at most to the end of the
    /// budget.
    pub fn failed(&mut self, elapsed_ns: u64, e: E) -> (next: Retry<E>)
        requires
            old(self).wf(),
        ensures
            final(self).wf(),
            final(self).budget() == old(self).budget(),
            elapsed_ns >= old(self).budget() ==> {
                &&& next == Retry::GiveUp(
                    match old(self).last_error() {
                        Some(earlier) => earlier,
                        None => e,
                    },
                )
                &&& final(self).last_error() is None
                &&& final(self).failures() == old(self).failures()
            },
            elapsed_ns < old(self).budget() ==> {
                &&& next matches Retry::PauseNs(ns) && ns == if pause_after(old(self).failures())
                    <= old(self).budget() - elapsed_ns {
                    pause_after(old(self).failures())
                } else {
                    old(self).budget() - elapsed_ns
                }
                &&& final(self).last_error() == Some(e)
                &&& final(self).failures() == old(self).failures() + 1
            },
    {
        if elapsed_ns >= self.budget_ns {
            return match self.last_err.take() {
                Some(earlier) => Retry::GiveUp(earlier),
                None => Retry::GiveUp(e),
            };
        }
        self.last_err = Some(e);
        let left: u64 = self.budget_ns - elapsed_ns;
        let pause: u64 = if self.pause_ns <= left {
            self.pause_ns
        } else {
            left
        };
        self.pause_ns = if self.pause_ns * 2 <= MAX_BACKOFF_NS {
            self.pause_ns * 2
        } else {
            MAX_BACKOFF_NS
        };
        self.failures = Ghost((self.failures@ + 1) as nat);
        Retry::PauseNs(pause)
    }
}

/// Pauses never shrink and stay between the first and the longest.
pub proof fn pauses_grow_to_the_maximum(failures: nat)
    ensures
        MIN_BACKOFF_NS <= pause_after(failures) <= pause_after(failures + 1) <= MAX_BACKOFF_NS,
        failures >= 4 ==> pause_after(failures) == MAX_BACKOFF_NS,
    decreases failures,
{
    if failures > 0 {
        pauses_grow_to_the_maximum((failures - 1) as nat);
    }
    reveal_with_fuel(pause_after, 6);
}

/// What shipping a batch asks for next.
#[derive(Copy, Clone, Debug, PartialEq, Eq, Structural)]
pub enum ShipAction {
    /// Connect within this many nanoseconds.
    Connect(u64),
    /// Write the framed batch to the connection.
    Write,
    /// Nothing is left to do for this batch.
    Done,
}

/// How the last action went.
#[derive(Copy, Clone, Debug, PartialEq, Eq, Structural)]
pub enum ShipEvent {
    Connected,
    Unreachable,
    Written,
    WriteFailed,
}

/// How far shipping of the current batch has got.
#[derive(Copy, Clone, Debug, PartialEq, Eq, Structural)]
pub enum ShipPhase {
    Idle,
    Opening,
    Writing,
    Reopening,
    Rewriting,
}

/// Ships batches to the agent one at a time: connects late if need be, and
/// after a failed write reconnects and writes once more.
#[derive(Copy, Clone, Debug, PartialEq, Eq, Structural)]
pub struct Shipper {
    pub connected: bool,
    pub phase: ShipPhase,
    /// Batches that were given up.
    pub dropped_batches: u64,
}

/// What shipping a batch starts with.
pub open spec fn ship_start(s: Shipper) -> (Shipper, ShipAction) {
    if s.connected {
        (Shipper { phase: ShipPhase::Writing, ..s }, ShipAction::Write)
    } else {
        (
            Shipper { phase: ShipPhase::Opening, ..s },
            ShipAction::Connect(LATE_CONNECT_BUDGET_NS),
        )
    }
}

/// One more dropped batch; the counter wraps around.
pub open spec fn one_more_dropped(n: u64) -> u64 {
    if n == u64::MAX {
        0
    } else {
        (n + 1) as u64
    }
}

/// What comes after an action. Events that do not answer the action asked for
/// end the batch.
pub open spec fn ship_next(s: Shipper, e: ShipEvent) -> (Shipper, ShipAction) {
    match (s.phase, e) {
        (ShipPhase::Opening, ShipEvent::Connected) => (
            Shipper { connected: true, phase: ShipPhase::Writing, ..s },
            ShipAction::Write,
        ),
        (ShipPhase::Opening, ShipEvent::Unreachable) => (
            Shipper {
                phase: ShipPhase::Idle,
                dropped_batches: one_more_dropped(s.dropped_batches),
                ..s
            },
            ShipAction::Done,
        ),
        (ShipPhase::Writing, ShipEvent::WriteFailed) => (
            Shipper { phase: ShipPhase::Reopening, ..s },
            ShipAction::Connect(RECONNECT_BUDGET_NS),
        ),
        (ShipPhase::Reopening, ShipEvent::Connected) => (
            Shipper { phase: ShipPhase::Rewriting, ..s },
            ShipAction::Write,
        ),
        (ShipPhase::Reopening, ShipEvent::Unreachable) => (
            Shipper {
                phase: ShipPhase::Idle,
                dropped_batches: one_more_dropped(s.dropped_batches),
                ..s
            },
            ShipAction::Done,
        ),
        (ShipPhase::Rewriting, ShipEvent::WriteFailed) => (
            Shipper {
                phase: ShipPhase::Idle,
                dropped_batches: one_more_dropped(s.dropped_batches),
                ..s
            },
            ShipAction::Done,
        ),
        _ => (Shipper { phase: ShipPhase::Idle, ..s }, ShipAction::Done),
    }
}

impl Shipper {
    pub fn new(connected: bool) -> (s: Self)
        ensures
            s == (Shipper { connected, phase: ShipPhase::Idle, dropped_batches: 0 }),
    {
        Shipper { connected, phase: ShipPhase::Idle, dropped_batches: 0 }
    }

    /// Begins to ship a batch.
    pub fn ship(&mut self) -> (action: ShipAction)
        ensures
            (*final(self), action) == ship_start(*old(self)),
    {
        if self.connected {
            self.phase = ShipPhase::Writing;
            ShipAction::Write
        } else {
            self.phase = ShipPhase::Opening;
            ShipAction::Connect(LATE_CONNECT_BUDGET_NS)
        }
    }

    /// Goes on after the last action went as `event` says.
    pub fn after(&mut self, event: ShipEvent) -> (action: ShipAction)
        ensures
            (*final(self), action) == ship_next(*old(self), event),
    {
        match (self.phase, event) {
            (ShipPhase::Opening, ShipEvent::Connected) => {
                self.connected = true;
                self.phase = ShipPhase::Writing;
                ShipAction::Write
            },
            (ShipPhase::Opening, ShipEvent::Unreachable) => {
                self.phase = ShipPhase::Idle;
                self.dropped_batches = self.dropped_batches.wrapping_add(1);
                ShipAction::Done
            },
            (ShipPhase::Writing, ShipEvent::WriteFailed) => {
                self.phase = ShipPhase::Reopening;
                ShipAction::Connect(RECONNECT_BUDGET_NS)
            },
            (ShipPhase::Reopening, ShipEvent::Connected) => {
                self.phase = ShipPhase::Rewriting;
                ShipAction::Write
            },
            (ShipPhase::Reopening, ShipEvent::Unreachable)
            | (ShipPhase::Rewriting, ShipEvent::WriteFailed) => {
                self.phase = ShipPhase::Idle;
                self.dropped_batches = self.dropped_batches.wrapping_add(1);
                ShipAction::Done
            },
            _ => {
                self.phase = ShipPhase::Idle;
                ShipAction::Done
            },
        }
    }
}

/// The state and the next action once the events have come in.
pub open spec fn ship_run(s: Shipper, events: Seq<ShipEvent>) -> (Shipper, ShipAction)
    decreases events.len(),
{
    if events.len() == 0 {
        ship_start(s)
    } else {
        ship_next(ship_run(s, events.drop_last()).0, events.last())
    }
}

/// Shipping a batch is over after at most four events, and counts the batch at
/// most once, whatever happens.
pub proof fn shipping_is_bounded(s: Shipper, a: ShipEvent, b: ShipEvent, c: ShipEvent, d: ShipEvent)
    requires
        s.phase == ShipPhase::Idle,
    ensures
        ship_run(s, seq![a, b, c, d]).1 == ShipAction::Done,
        ship_run(s, seq![a, b, c, d]).0.phase == ShipPhase::Idle,
        ship_run(s, seq![a, b, c, d]).0.dropped_batches == s.dropped_batches || ship_run(
            s,
            seq![a, b, c, d],
        ).0.dropped_batches == one_more_dropped(s.dropped_batches),
{
    let all = seq![a, b, c, d];
    assert(all.drop_last() =~= seq![a, b, c]);
    assert(seq![a, b, c].drop_last() =~= seq![a, b]);
    assert(seq![a, b].drop_last() =~= seq![a]);
    assert(seq![a].drop_last() =~= Seq::<ShipEvent>::empty());
    reveal_with_fuel(ship_run, 5);
}

/// The event is one of those that the action can end in.
pub open spec fn answers(action: ShipAction, e: ShipEvent) -> bool {
    match action {
        ShipAction::Connect(_) => e == ShipEvent::Connected || e == ShipEvent::Unreachable,
        ShipAction::Write => e == ShipEvent::Written || e == ShipEvent::WriteFailed,
        ShipAction::Done => false,
    }
}

/// Each event answers the action before it.
pub open spec fn is_exchange(s: Shipper, events: Seq<ShipEvent>) -> bool
    decreases events.len(),
{
    events.len() == 0 || is_exchange(s, events.drop_last()) && answers(
        ship_run(s, events.drop_last()).1,
        events.last(),
    )
}

proof fn lemma_nothing_is_counted_early(s: Shipper, events: Seq<ShipEvent>)
    requires
        is_exchange(s, events),
        ship_run(s, events).1 != ShipAction::Done,
    ensures
        ({
            let (t, action) = ship_run(s, events);
            &&& t.dropped_batches == s.dropped_batches
            &&& action is Connect ==> t.phase == ShipPhase::Opening || t.phase
                == ShipPhase::Reopening
            &&& action is Write ==> t.phase == ShipPhase::Writing || t.phase
                == ShipPhase::Rewriting
        }),
    decreases events.len(),
{
    if events.len() > 0 {
        lemma_nothing_is_counted_early(s, events.drop_last());
    }
}

/// A batch counts as dropped, once, if it was given up, and not if it was
/// written, be it at the second attempt.
pub proof fn only_lost_batches_are_counted(s: Shipper, events: Seq<ShipEvent>)
    requires
        is_exchange(s, events),
        ship_run(s, events).1 == ShipAction::Done,
    ensures
        events.len() > 0,
        ship_run(s, events).0.dropped_batches == if events.last() == ShipEvent::Written {
            s.dropped_batches
        } else {
            one_more_dropped(s.dropped_batches)
        },
{
    assert(events.len() > 0);
    lemma_nothing_is_counted_early(s, events.drop_last());
}

} // verus!
