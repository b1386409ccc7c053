//! The agent's ring: samplers push, one uploader drains.
//!
//! Two bounded lanes, one for events and one for metric frames. A push never
//! waits: when its lane is full the item is dropped and counted.

use crate::model::{Event, MetricFrame};
use crossbeam_channel::{Receiver, Sender};
use vstd::prelude::*;

verus! {

/// What a lane carries.
pub enum RingItem {
    Event(Event),
    Frame(MetricFrame),
}

/// The sending side of a channel.
#[verifier::external_type_specification]
#[verifier::external_body]
#[verifier::reject_recursive_types(T)]
pub struct ExSender<T>(Sender<T>);

/// The receiving side of a channel.
#[verifier::external_type_specification]
#[verifier::external_body]
#[verifier::reject_recursive_types(T)]
pub struct ExReceiver<T>(Receiver<T>);

/// The two are the sides of one channel.
pub uninterp spec fn linked(tx: Sender<RingItem>, rx: Receiver<RingItem>) -> bool;

/// What waits in the channel of these two sides, oldest first.
pub uninterp spec fn queued(tx: Sender<RingItem>, rx: Receiver<RingItem>) -> Seq<RingItem>;

/// How much the channel of these two sides can hold.
pub uninterp spec fn room(tx: Sender<RingItem>, rx: Receiver<RingItem>) -> nat;

/// The largest capacity of a lane: its slots have to fit the address space, at a
/// kilobyte each.
pub open spec fn fits_memory(capacity: usize) -> bool {
    capacity <= isize::MAX / 1024
}

/// `crossbeam_channel::bounded` makes an empty channel of that capacity and gives
/// its two sides. It panics on capacities too large for memory.
#[verifier::external_body]
fn new_lane(capacity: usize) -> (lane: (Sender<RingItem>, Receiver<RingItem>))
    requires
        fits_memory(capacity),
    ensures
        linked(lane.0, lane.1),
        queued(lane.0, lane.1).len() == 0,
        room(lane.0, lane.1) == capacity,
{
    crossbeam_channel::bounded(capacity)
}

/// `Sender::try_send` on one side of a channel, while nothing else holds either
/// side: the message goes to the end of the queue if there is room, and nowhere if
/// there is none.
#[verifier::external_body]
fn try_send(tx: &mut Sender<RingItem>, rx: &mut Receiver<RingItem>, item: RingItem) -> (sent: bool)
    requires
        linked(*old(tx), *old(rx)),
    ensures
        linked(*final(tx), *final(rx)),
        sent == (queued(*old(tx), *old(rx)).len() < room(*old(tx), *old(rx))),
        queued(*final(tx), *final(rx)) == if sent {
            queued(*old(tx), *old(rx)).push(item)
        } else {
            queued(*old(tx), *old(rx))
        },
        room(*final(tx), *final(rx)) == room(*old(tx), *old(rx)),
{
    tx.try_send(item).is_ok()
}

/// `Receiver::try_recv` on one side of a channel, while nothing else holds either
/// side: the oldest message, if any waits.
#[verifier::external_body]
fn try_recv(tx: &mut Sender<RingItem>, rx: &mut Receiver<RingItem>) -> (item: Option<RingItem>)
    requires
        linked(*old(tx), *old(rx)),
    ensures
        linked(*final(tx), *final(rx)),
        item is None <==> queued(*old(tx), *old(rx)).len() == 0,
        item matches Some(x) ==> x == queued(*old(tx), *old(rx))[0],
        queued(*final(tx), *final(rx)) == if item is Some {
            queued(*old(tx), *old(rx)).skip(1)
        } else {
            queued(*old(tx), *old(rx))
        },
        room(*final(tx), *final(rx)) == room(*old(tx), *old(rx)),
{
    rx.try_recv().ok()
}

/// `Receiver::is_empty` on one side of a channel, while nothing else holds either
/// side: whether nothing waits.
#[verifier::external_body]
fn is_empty(tx: &Sender<RingItem>, rx: &Receiver<RingItem>) -> (b: bool)
    requires
        linked(*tx, *rx),
    ensures
        b == (queued(*tx, *rx).len() == 0),
{
    rx.is_empty()
}

/// The events among the items of a lane, which all are.
pub open spec fn events_in(items: Seq<RingItem>) -> Seq<Event> {
    items.map_values(|i: RingItem| i->Event_0)
}

/// The frames among the items of a lane, which all are.
pub open spec fn frames_in(items: Seq<RingItem>) -> Seq<MetricFrame> {
    items.map_values(|i: RingItem| i->Frame_0)
}

/// A lane as far as its users see it: what waits, and how many items were
/// dropped.
pub struct Lane<T> {
    pub waiting: Seq<T>,
    pub dropped: nat,
}

/// The lane after a push: the item waits at the end if there is room, and is
/// counted as dropped if there is none.
pub open spec fn lane_pushed<T>(lane: Lane<T>, capacity: int, x: T) -> Lane<T> {
    if lane.waiting.len() < capacity {
        Lane { waiting: lane.waiting.push(x), ..lane }
    } else {
        Lane { dropped: lane.dropped + 1, ..lane }
    }
}

/// A count kept in 64 bits, which wraps around.
pub open spec fn wrapped(n: nat) -> u64 {
    (n % 0x1_0000_0000_0000_0000) as u64
}

/// Room for metric frames beside that many events. Frames are far rarer.
pub open spec fn frame_room(capacity: int) -> int {
    capacity / 32 + 256
}

pub struct EventRing {
    tx: Sender<RingItem>,
    rx: Receiver<RingItem>,
    frame_tx: Sender<RingItem>,
    frame_rx: Receiver<RingItem>,
    dropped: u64,
    dropped_frames: u64,
}

impl EventRing {
    /// The events that wait, oldest first.
    pub closed spec fn events(self) -> Seq<Event> {
        events_in(queued(self.tx, self.rx))
    }

    /// The metric frames that wait, oldest first.
    pub closed spec fn frames(self) -> Seq<MetricFrame> {
        frames_in(queued(self.frame_tx, self.frame_rx))
    }

    pub closed spec fn capacity(self) -> nat {
        room(self.tx, self.rx)
    }

    pub closed spec fn frame_capacity(self) -> nat {
        room(self.frame_tx, self.frame_rx)
    }

    /// Events dropped since the count was last taken.
    pub closed spec fn dropped(self) -> u64 {
        self.dropped
    }

    /// Frames dropped since the count was last taken.
    pub closed spec fn dropped_frames(self) -> u64 {
        self.dropped_frames
    }

    pub open spec fn event_lane(self) -> Lane<Event> {
        Lane { waiting: self.events(), dropped: self.dropped() as nat }
    }

    pub open spec fn frame_lane(self) -> Lane<MetricFrame> {
        Lane { waiting: self.frames(), dropped: self.dropped_frames() as nat }
    }

    /// Each lane is one channel; it carries its own kind of item, and no more than
    /// it has room for.
    pub closed spec fn wf(self) -> bool {
        &&& linked(self.tx, self.rx)
        &&& linked(self.frame_tx, self.frame_rx)
        &&& queued(self.tx, self.rx).len() <= room(self.tx, self.rx)
        &&& queued(self.frame_tx, self.frame_rx).len() <= room(self.frame_tx, self.frame_rx)
        &&& forall|i: int|
            0 <= i < queued(self.tx, self.rx).len() ==> #[trigger] queued(self.tx, self.rx)[i]
                is Event
        &&& forall|i: int|
            0 <= i < queued(self.frame_tx, self.frame_rx).len() ==> #[trigger] queued(
                self.frame_tx,
                self.frame_rx,
            )[i] is Frame
    }

    /// The event lane of one ring is that of another.
    pub open spec fn same_events(self, other: Self) -> bool {
        &&& self.events() == other.events()
        &&& self.capacity() == other.capacity()
        &&& self.dropped() == other.dropped()
    }

    /// The frame lane of one ring is that of another.
    pub open spec fn same_frames(self, other: Self) -> bool {
        &&& self.frames() == other.frames()
        &&& self.frame_capacity() == other.frame_capacity()
        &&& self.dropped_frames() == other.dropped_frames()
    }

    pub fn new(capacity: usize) -> (r: Self)
        requires
            fits_memory(capacity),
        ensures
            r.wf(),
            r.events().len() == 0,
            r.frames().len() == 0,
            r.capacity() == capacity,
            r.frame_capacity() == frame_room(capacity as int),
            r.dropped() == 0,
            r.dropped_frames() == 0,
    {
        let (tx, rx) = new_lane(capacity);
        let (frame_tx, frame_rx) = new_lane(capacity / 32 + 256);
        EventRing { tx, rx, frame_tx, frame_rx, dropped: 0, dropped_frames: 0 }
    }

    /// Pushes an event, or drops and counts it. Never waits.
    pub fn push(&mut self, e: Event)
        requires
            old(self).wf(),
        ensures
            final(self).wf(),
            final(self).same_frames(*old(self)),
            final(self).capacity() == old(self).capacity(),
            final(self).events() == lane_pushed(
                old(self).event_lane(),
                old(self).capacity() as int,
                e,
            ).waiting,
            final(self).dropped() == wrapped(
                lane_pushed(old(self).event_lane(), old(self).capacity() as int, e).dropped,
            ),
    {
        let ghost before = queued(self.tx, self.rx);
        let sent = try_send(&mut self.tx, &mut self.rx, RingItem::Event(e));
        if !sent {
            self.dropped = self.dropped.wrapping_add(1);
        } else {
            assert(events_in(before.push(RingItem::Event(e))) =~= events_in(before).push(e));
        }
    }

    /// Pushes a metric frame, or drops and counts it. Never waits.
    pub fn push_frame(&mut self, f: MetricFrame)
        requires
            old(self).wf(),
        ensures
            final(self).wf(),
            final(self).same_events(*old(self)),
            final(self).frame_capacity() == old(self).frame_capacity(),
            final(self).frames() == lane_pushed(
                old(self).frame_lane(),
                old(self).frame_capacity() as int,
                f,
            ).waiting,
            final(self).dropped_frames() == wrapped(
                lane_pushed(old(self).frame_lane(), old(self).frame_capacity() as int, f).dropped,
            ),
    {
        let ghost before = queued(self.frame_tx, self.frame_rx);
        let sent = try_send(&mut self.frame_tx, &mut self.frame_rx, RingItem::Frame(f));
        if !sent {
            self.dropped_frames = self.dropped_frames.wrapping_add(1);
        } else {
            assert(frames_in(before.push(RingItem::Frame(f))) =~= frames_in(before).push(f));
        }
    }

    /// Takes up to `max` events, oldest first.
    pub fn drain_up_to(&mut self, max: usize) -> (out: Vec<Event>)
        requires
            old(self).wf(),
        ensures
            final(self).wf(),
            final(self).same_frames(*old(self)),
            final(self).capacity() == old(self).capacity(),
            final(self).dropped() == old(self).dropped(),
            out.len() == if old(self).events().len() < max {
                old(self).events().len()
            } else {
                max as nat
            },
            out@ == old(self).events().take(out.len() as int),
            final(self).events() == old(self).events().skip(out.len() as int),
    {
        let mut out: Vec<Event> = Vec::new();
        proof {
            assert(self.events().skip(0) =~= self.events());
            assert(self.events().take(0) =~= Seq::<Event>::empty());
        }
        while out.len() < max
            invariant
                self.wf(),
                self.same_frames(*old(self)),
                self.capacity() == old(self).capacity(),
                self.dropped() == old(self).dropped(),
                out.len() <= max,
                out.len() <= old(self).events().len(),
                out@ == old(self).events().take(out.len() as int),
                self.events() == old(self).events().skip(out.len() as int),
            ensures
                out.len() == max || out.len() == old(self).events().len(),
            decreases max - out.len(),
        {
            let ghost before = queued(self.tx, self.rx);
            let ghost taken = out@;
            match try_recv(&mut self.tx, &mut self.rx) {
                Some(item) => {
                    proof {
                        assert(item == before[0]);
                        assert(events_in(before)[0] == item->Event_0);
                        assert(events_in(before.skip(1)) =~= events_in(before).skip(1));
                        assert(old(self).events().skip(taken.len() as int)[0] == old(
                            self,
                        ).events()[taken.len() as int]);
                    }
                    if let RingItem::Event(e) = item {
                        out.push(e);
                        proof {
                            assert(old(self).events().take(taken.len() as int + 1) =~= old(
                                self,
                            ).events().take(taken.len() as int).push(e));
                            assert(old(self).events().skip(taken.len() as int).skip(1) =~= old(
                                self,
                            ).events().skip(taken.len() as int + 1));
                        }
                    }
                },
                None => {
                    assert(events_in(before).len() == before.len());
                    break;
                },
            }
        }
        out
    }

    /// Takes every metric frame, oldest first.
    pub fn drain_frames(&mut self) -> (out: Vec<MetricFrame>)
        requires
            old(self).wf(),
        ensures
            final(self).wf(),
            final(self).same_events(*old(self)),
            final(self).frame_capacity() == old(self).frame_capacity(),
            final(self).dropped_frames() == old(self).dropped_frames(),
            out@ == old(self).frames(),
            final(self).frames().len() == 0,
    {
        let mut out: Vec<MetricFrame> = Vec::new();
        proof {
            assert(self.frames().skip(0) =~= self.frames());
            assert(self.frames().take(0) =~= Seq::<MetricFrame>::empty());
        }
        loop
            invariant
                self.wf(),
                self.same_events(*old(self)),
                self.frame_capacity() == old(self).frame_capacity(),
                self.dropped_frames() == old(self).dropped_frames(),
                out.len() <= old(self).frames().len(),
                out@ == old(self).frames().take(out.len() as int),
                self.frames() == old(self).frames().skip(out.len() as int),
            ensures
                out.len() == old(self).frames().len(),
            decreases old(self).frames().len() - out.len(),
        {
            let ghost before = queued(self.frame_tx, self.frame_rx);
            let ghost taken = out@;
            match try_recv(&mut self.frame_tx, &mut self.frame_rx) {
                Some(item) => {
                    proof {
                        assert(item == before[0]);
                        assert(frames_in(before)[0] == item->Frame_0);
                        assert(frames_in(before.skip(1)) =~= frames_in(before).skip(1));
                        assert(old(self).frames().skip(taken.len() as int)[0] == old(
                            self,
                        ).frames()[taken.len() as int]);
                    }
                    if let RingItem::Frame(f) = item {
                        out.push(f);
                        proof {
                            assert(old(self).frames().take(taken.len() as int + 1) =~= old(
                                self,
                            ).frames().take(taken.len() as int).push(f));
                            assert(old(self).frames().skip(taken.len() as int).skip(1) =~= old(
                                self,
                            ).frames().skip(taken.len() as int + 1));
                        }
                    }
                },
                None => {
                    assert(frames_in(before).len() == before.len());
                    break;
                },
            }
        }
        proof {
            assert(old(self).frames().take(old(self).frames().len() as int) =~= old(self).frames());
        }
        out
    }

    /// Whether an event waits to be drained.
    pub fn has_events(&self) -> (b: bool)
        requires
            self.wf(),
        ensures
            b == (self.events().len() > 0),
    {
        !is_empty(&self.tx, &self.rx)
    }

    pub fn dropped_count(&self) -> (n: u64)
        ensures
            n == self.dropped(),
    {
        self.dropped
    }

    /// Takes the count of dropped events and starts it anew.
    pub fn take_dropped(&mut self) -> (n: u64)
        requires
            old(self).wf(),
        ensures
            final(self).wf(),
            final(self).same_frames(*old(self)),
            final(self).events() == old(self).events(),
            final(self).capacity() == old(self).capacity(),
            n == old(self).dropped(),
            final(self).dropped() == 0,
    {
        let n: u64 = self.dropped;
        self.dropped = 0;
        n
    }

    /// Takes the count of dropped frames and starts it anew.
    pub fn take_dropped_frames(&mut self) -> (n: u64)
        requires
            old(self).wf(),
        ensures
            final(self).wf(),
            final(self).same_events(*old(self)),
            final(self).frames() == old(self).frames(),
            final(self).frame_capacity() == old(self).frame_capacity(),
            n == old(self).dropped_frames(),
            final(self).dropped_frames() == 0,
    {
        let n: u64 = self.dropped_frames;
        self.dropped_frames = 0;
        n
    }
}

/// The lane after a run of pushes.
pub open spec fn lane_after<T>(lane: Lane<T>, capacity: int, xs: Seq<T>) -> Lane<T>
    decreases xs.len(),
{
    if xs.len() == 0 {
        lane
    } else {
        lane_pushed(lane_after(lane, capacity, xs.drop_last()), capacity, xs.last())
    }
}

/// Nothing is lost unseen and nothing overtakes: of a run of pushes the first
/// that fit wait, in order, behind what waited before, and the rest are counted
/// as dropped.
pub proof fn pushes_wait_in_order_or_are_counted<T>(lane: Lane<T>, capacity: int, xs: Seq<T>)
    requires
        lane.waiting.len() <= capacity,
    ensures
        ({
            let after = lane_after(lane, capacity, xs);
            let free = capacity - lane.waiting.len();
            let fit = if xs.len() <= free {
                xs.len() as int
            } else {
                free
            };
            &&& after.waiting == lane.waiting + xs.take(fit)
            &&& after.dropped == lane.dropped + xs.len() - fit
            &&& after.waiting.len() <= capacity
        }),
    decreases xs.len(),
{
    if xs.len() == 0 {
        assert(lane.waiting + xs.take(0) =~= lane.waiting);
    } else {
        let front = xs.drop_last();
        pushes_wait_in_order_or_are_counted(lane, capacity, front);
        let free = capacity - lane.waiting.len();
        if xs.len() <= free {
            assert(lane.waiting + xs.take(xs.len() as int) =~= (lane.waiting + front.take(
                front.len() as int,
            )).push(xs.last()));
        } else {
            let fit = free;
            assert(xs.take(fit) =~= front.take(fit));
        }
    }
}

} // verus!
