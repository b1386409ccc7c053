//! In-memory metric tails for the live plane.
//!
//! Each series keeps two tails: the last hundred samples as they came, and one
//! sample a second for two minutes. Readers see an immutable snapshot, published
//! ten times a second, and never the tails being written.

use crate::clock::host_realtime_ns;
use crate::keyed::{ascending_keys, lists_keys};
use std::collections::HashMap;
use std::sync::Arc;
use vstd::prelude::*;

verus! {

broadcast use vstd::std_specs::hash::group_hash_axioms;

pub const SLOW_HZ: u64 = 1;

pub const FAST_HZ: u64 = 10;

pub const SLOW_WINDOW_S: u64 = 120;

pub const FAST_WINDOW_S: u64 = 10;

/// Samples in the slow tail: its window times its rate.
pub const SLOW_CAPACITY: usize = 120;

/// Samples in the fast tail: its window times its rate.
pub const FAST_CAPACITY: usize = 100;

/// Least time between two samples of the slow tail. A little under a second, so
/// that a sample that comes slightly early still counts.
pub const SLOW_SPACING_NS: u64 = 950_000_000;

/// Time between snapshots.
pub const SNAPSHOT_PERIOD_MS: u64 = 100;

/// Identifies a series. Metric ids are hashes of the metric's name.
#[derive(Copy, Clone, Debug, PartialEq, Eq, Hash, Structural)]
pub struct SeriesKey {
    pub node_id: u32,
    pub gpu_id: u32,
    pub metric_id: u64,
}

impl SeriesKey {
    /// The key as one number that orders by node, then GPU, then metric.
    pub open spec fn packed_spec(self) -> u128 {
        (self.node_id * 0x1_0000_0000_0000_0000_0000_0000 + self.gpu_id * 0x1_0000_0000_0000_0000
            + self.metric_id) as u128
    }

    pub fn packed(&self) -> (n: u128)
        ensures
            n == self.packed_spec(),
    {
        (self.node_id as u128) * 0x1_0000_0000_0000_0000_0000_0000 + (self.gpu_id as u128)
            * 0x1_0000_0000_0000_0000 + self.metric_id as u128
    }

    /// The key that packs to `n`.
    pub open spec fn unpacked_spec(n: u128) -> Self {
        SeriesKey {
            node_id: (n / 0x1_0000_0000_0000_0000_0000_0000) as u32,
            gpu_id: (n / 0x1_0000_0000_0000_0000 % 0x1_0000_0000) as u32,
            metric_id: (n % 0x1_0000_0000_0000_0000) as u64,
        }
    }

    pub fn unpacked(n: u128) -> (k: Self)
        ensures
            k == Self::unpacked_spec(n),
    {
        SeriesKey {
            node_id: (n / 0x1_0000_0000_0000_0000_0000_0000) as u32,
            gpu_id: (n / 0x1_0000_0000_0000_0000 % 0x1_0000_0000) as u32,
            metric_id: (n % 0x1_0000_0000_0000_0000) as u64,
        }
    }
}

/// Packing loses nothing.
pub proof fn packing_round_trips(k: SeriesKey)
    ensures
        SeriesKey::unpacked_spec(k.packed_spec()) == k,
{
    let (a, b, c) = (k.node_id as int, k.gpu_id as int, k.metric_id as int);
    let n = k.packed_spec() as int;
    assert(n == a * 0x1_0000_0000_0000_0000_0000_0000 + b * 0x1_0000_0000_0000_0000 + c);
}

/// Every number is the packing of its unpacking.
pub proof fn unpacking_round_trips(n: u128)
    ensures
        SeriesKey::unpacked_spec(n).packed_spec() == n,
{
    let k = SeriesKey::unpacked_spec(n);
    assert(n / 0x1_0000_0000_0000_0000_0000_0000 <= u32::MAX);
    assert(k.node_id == n / 0x1_0000_0000_0000_0000_0000_0000);
    assert(k.gpu_id == n / 0x1_0000_0000_0000_0000 % 0x1_0000_0000);
    assert(k.metric_id == n % 0x1_0000_0000_0000_0000);
}

/// A value at a time. The value is carried as the bits of a double.
#[derive(Copy, Clone, Debug, PartialEq, Eq, Structural)]
pub struct Sample {
    pub ts_ns: u64,
    pub value_bits: u64,
}

/// The last `n` elements of `s`, or all of them if there are fewer.
pub open spec fn keep_last<T>(s: Seq<T>, n: int) -> Seq<T> {
    if s.len() <= n {
        s
    } else {
        s.skip(s.len() - n)
    }
}

/// The last samples pushed, up to a fixed number.
#[derive(Clone, Debug)]
pub struct Tail {
    buf: Vec<Sample>,
    head: usize,
    cap: usize,
}

impl View for Tail {
    type V = Seq<Sample>;

    /// The samples, oldest first.
    closed spec fn view(&self) -> Seq<Sample> {
        self.buf@.skip(self.head as int) + self.buf@.take(self.head as int)
    }
}

impl Tail {
    pub closed spec fn wf(self) -> bool {
        &&& self.cap > 0
        &&& self.buf.len() <= self.cap
        &&& self.head < self.cap
        &&& self.buf.len() < self.cap ==> self.head == 0
    }

    /// The most samples it holds.
    pub closed spec fn capacity(self) -> nat {
        self.cap as nat
    }

    pub fn with_capacity(cap: usize) -> (t: Self)
        requires
            cap > 0,
        ensures
            t.wf(),
            t.capacity() == cap,
            t@ == Seq::<Sample>::empty(),
    {
        let t = Tail { buf: Vec::new(), head: 0, cap };
        assert(t@ =~= Seq::<Sample>::empty());
        t
    }

    pub fn push(&mut self, s: Sample)
        requires
            old(self).wf(),
        ensures
            final(self).wf(),
            final(self).capacity() == old(self).capacity(),
            final(self)@ == keep_last(old(self)@.push(s), old(self).capacity() as int),
    {
        if self.buf.len() < self.cap {
            self.buf.push(s);
            assert(self@ =~= old(self)@.push(s));
        } else {
            self.buf.set(self.head, s);
            self.head = if self.head + 1 == self.cap {
                0
            } else {
                self.head + 1
            };
            assert(self@ =~= old(self)@.push(s).skip(1));
        }
    }

    /// The samples, oldest first.
    pub fn to_vec(&self) -> (out: Vec<Sample>)
        requires
            self.wf(),
        ensures
            out@ == self@,
    {
        let mut out: Vec<Sample> = Vec::new();
        let mut i: usize = self.head;
        while i < self.buf.len()
            invariant
                self.wf(),
                self.head <= i,
                i <= self.buf.len() || i == self.head,
                self.head <= self.buf.len(),
                out@ == self.buf@.subrange(self.head as int, i as int),
            decreases self.buf.len() - i,
        {
            out.push(self.buf[i]);
            i = i + 1;
            assert(out@ =~= self.buf@.subrange(self.head as int, i as int));
        }
        assert(out@ =~= self.buf@.skip(self.head as int));
        let mut j: usize = 0;
        while j < self.head
            invariant
                self.wf(),
                0 <= j <= self.head <= self.buf.len(),
                out@ == self.buf@.skip(self.head as int) + self.buf@.take(j as int),
            decreases self.head - j,
        {
            out.push(self.buf[j]);
            j = j + 1;
            assert(out@ =~= self.buf@.skip(self.head as int) + self.buf@.take(j as int));
        }
        out
    }
}

/// Both tails of a series, oldest sample first.
pub struct Tails {
    pub slow: Seq<Sample>,
    pub fast: Seq<Sample>,
}

/// A series that has seen nothing.
pub open spec fn no_tails() -> Tails {
    Tails { slow: Seq::empty(), fast: Seq::empty() }
}

/// Whether the slow tail takes a sample: its first always, and later ones when
/// enough time has passed since the one before.
pub open spec fn slow_takes(slow: Seq<Sample>, s: Sample) -> bool {
    slow.len() == 0 || s.ts_ns >= slow.last().ts_ns + SLOW_SPACING_NS
}

/// The tails once `s` has been pushed.
pub open spec fn pushed(t: Tails, s: Sample) -> Tails {
    Tails {
        slow: if slow_takes(t.slow, s) {
            keep_last(t.slow.push(s), SLOW_CAPACITY as int)
        } else {
            t.slow
        },
        fast: keep_last(t.fast.push(s), FAST_CAPACITY as int),
    }
}

/// The tails once every sample of `samples` has been pushed.
pub open spec fn pushed_all(t: Tails, samples: Seq<Sample>) -> Tails
    decreases samples.len(),
{
    if samples.len() == 0 {
        t
    } else {
        pushed(pushed_all(t, samples.drop_last()), samples.last())
    }
}

/// The writable tails of one series.
#[derive(Clone, Debug)]
pub struct SeriesRing {
    slow: Tail,
    fast: Tail,
    last_slow_ns: Option<u64>,
}

impl View for SeriesRing {
    type V = Tails;

    closed spec fn view(&self) -> Tails {
        Tails { slow: self.slow@, fast: self.fast@ }
    }
}

impl SeriesRing {
    pub closed spec fn wf(self) -> bool {
        &&& self.slow.wf()
        &&& self.slow.capacity() == SLOW_CAPACITY
        &&& self.fast.wf()
        &&& self.fast.capacity() == FAST_CAPACITY
        &&& self.last_slow_ns == if self.slow@.len() == 0 {
            None
        } else {
            Some(self.slow@.last().ts_ns)
        }
    }

    pub fn new() -> (r: Self)
        ensures
            r.wf(),
            r@ == no_tails(),
    {
        SeriesRing {
            slow: Tail::with_capacity(SLOW_CAPACITY),
            fast: Tail::with_capacity(FAST_CAPACITY),
            last_slow_ns: None,
        }
    }

    pub fn push(&mut self, s: Sample)
        requires
            old(self).wf(),
        ensures
            final(self).wf(),
            final(self)@ == pushed(old(self)@, s),
    {
        self.fast.push(s);
        let due = match self.last_slow_ns {
            Some(last) => s.ts_ns >= last && s.ts_ns - last >= SLOW_SPACING_NS,
            None => true,
        };
        if due {
            self.slow.push(s);
            self.last_slow_ns = Some(s.ts_ns);
        }
    }

    pub fn snapshot(&self) -> (out: SeriesSnapshot)
        requires
            self.wf(),
        ensures
            out@ == self@,
    {
        SeriesSnapshot { slow: self.slow.to_vec(), fast: self.fast.to_vec() }
    }
}

/// The tails of one series at the time of a snapshot.
#[derive(Clone, Debug)]
pub struct SeriesSnapshot {
    /// One sample a second, oldest first.
    pub slow: Vec<Sample>,
    /// Every sample, oldest first.
    pub fast: Vec<Sample>,
}

impl View for SeriesSnapshot {
    type V = Tails;

    open spec fn view(&self) -> Tails {
        Tails { slow: self.slow@, fast: self.fast@ }
    }
}

/// Every series at one time. It never changes.
pub struct FastRingSnapshot {
    pub series: HashMap<u128, SeriesSnapshot>,
    pub published_at_ns: u64,
}

impl View for FastRingSnapshot {
    type V = Map<u128, Tails>;

    /// The tails of each series, by packed key.
    open spec fn view(&self) -> Map<u128, Tails> {
        self.series@.map_values(|s: SeriesSnapshot| s@)
    }
}

impl FastRingSnapshot {
    /// The tails of one series.
    pub fn get(&self, key: &SeriesKey) -> (r: Option<&SeriesSnapshot>)
        ensures
            match r {
                Some(s) => self@.contains_key(key.packed_spec()) && s@
                    == self@[key.packed_spec()],
                None => !self@.contains_key(key.packed_spec()),
            },
    {
        let packed = key.packed();
        self.series.get(&packed)
    }

    /// The keys of every series, in ascending order.
    pub fn keys(&self) -> (keys: Vec<SeriesKey>)
        ensures
            exists|packed: Seq<u128>| #[trigger]
                lists_keys(packed, self@.dom()) && keys@ == packed.map_values(
                    |n: u128| SeriesKey::unpacked_spec(n),
                ),
    {
        let packed = ascending_keys(&self.series);
        let mut keys: Vec<SeriesKey> = Vec::new();
        let mut i: usize = 0;
        while i < packed.len()
            invariant
                0 <= i <= packed.len(),
                keys.len() == i,
                forall|k: int|
                    0 <= k < i ==> #[trigger] keys@[k] == SeriesKey::unpacked_spec(packed@[k]),
            decreases packed.len() - i,
        {
            keys.push(SeriesKey::unpacked(packed[i]));
            i = i + 1;
        }
        proof {
            assert(self.series@.dom() =~= self@.dom());
            assert(lists_keys(packed@, self@.dom()));
            assert(keys@ =~= packed@.map_values(|n: u128| SeriesKey::unpacked_spec(n)));
        }
        keys
    }
}

/// The tails of every series, and the last snapshot of them.
pub struct FastRing {
    writer: HashMap<u128, SeriesRing>,
    snapshot: Arc<FastRingSnapshot>,
}

impl View for FastRing {
    type V = Map<u128, Tails>;

    /// The tails being written, by packed key.
    closed spec fn view(&self) -> Map<u128, Tails> {
        self.writer@.map_values(|r: SeriesRing| r@)
    }
}

impl FastRing {
    pub closed spec fn wf(self) -> bool {
        forall|k: u128| #[trigger] self.writer@.contains_key(k) ==> self.writer@[k].wf()
    }

    /// What readers see.
    pub closed spec fn published(self) -> Map<u128, Tails> {
        self.snapshot@
    }

    /// When the snapshot that readers see was published.
    pub closed spec fn published_at(self) -> u64 {
        self.snapshot.published_at_ns
    }

    /// The tails of one series; empty if it has no samples.
    pub open spec fn tails(self, key: SeriesKey) -> Tails {
        if self@.contains_key(key.packed_spec()) {
            self@[key.packed_spec()]
        } else {
            no_tails()
        }
    }

    pub fn new() -> (r: Self)
        ensures
            r.wf(),
            r@ == Map::<u128, Tails>::empty(),
            r.published() == Map::<u128, Tails>::empty(),
            r.published_at() == 0,
    {
        let snapshot = FastRingSnapshot { series: HashMap::new(), published_at_ns: 0 };
        assert(snapshot@ =~= Map::<u128, Tails>::empty());
        let r = FastRing { writer: HashMap::new(), snapshot: Arc::new(snapshot) };
        assert(r@ =~= Map::<u128, Tails>::empty());
        r
    }

    /// Appends a sample to a series. Readers do not see it before the next
    /// snapshot.
    pub fn push(&mut self, key: SeriesKey, s: Sample)
        requires
            old(self).wf(),
        ensures
            final(self).wf(),
            final(self)@ == old(self)@.insert(key.packed_spec(), pushed(old(self).tails(key), s)),
            final(self).published() == old(self).published(),
            final(self).published_at() == old(self).published_at(),
    {
        let packed = key.packed();
        let mut ring = match self.writer.remove(&packed) {
            Some(ring) => ring,
            None => SeriesRing::new(),
        };
        ring.push(s);
        self.writer.insert(packed, ring);
        assert(self@ =~= old(self)@.insert(
            key.packed_spec(),
            pushed(old(self).tails(key), s),
        ));
    }

    /// Makes a snapshot of every series and shows it to readers.
    pub fn publish(&mut self)
        requires
            old(self).wf(),
        ensures
            final(self).wf(),
            final(self)@ == old(self)@,
            final(self).published() == old(self)@,
    {
        self.publish_at(host_realtime_ns());
    }

    /// Makes a snapshot of every series at `now_ns` and shows it to readers.
    pub fn publish_at(&mut self, now_ns: u64)
        requires
            old(self).wf(),
        ensures
            final(self).wf(),
            final(self)@ == old(self)@,
            final(self).published() == old(self)@,
            final(self).published_at() == now_ns,
    {
        let keys = ascending_keys(&self.writer);
        let mut series: HashMap<u128, SeriesSnapshot> = HashMap::new();
        let mut i: usize = 0;
        while i < keys.len()
            invariant
                self.wf(),
                *self == *old(self),
                0 <= i <= keys.len(),
                lists_keys(keys@, self.writer@.dom()),
                forall|k: u128| #[trigger]
                    series@.contains_key(k) <==> keys@.take(i as int).contains(k),
                forall|k: u128| #[trigger]
                    series@.contains_key(k) ==> series@[k]@ == self.writer@[k]@,
            decreases keys.len() - i,
        {
            let key: u128 = keys[i];
            proof {
                assert(keys@.contains(key));
                lemma_take_contains(keys@, i as int);
            }
            if let Some(ring) = self.writer.get(&key) {
                series.insert(key, ring.snapshot());
            }
            i = i + 1;
        }
        let snapshot = FastRingSnapshot { series, published_at_ns: now_ns };
        proof {
            assert(keys@.take(keys.len() as int) =~= keys@);
            assert forall|k: u128| #[trigger] snapshot@.contains_key(k) <==> self@.contains_key(
                k,
            ) by {
                assert(series@.contains_key(k) <==> keys@.contains(k));
            }
            assert(snapshot@ =~= self@);
        }
        self.snapshot = Arc::new(snapshot);
    }

    /// The last snapshot that was published.
    pub fn snapshot(&self) -> (s: Arc<FastRingSnapshot>)
        ensures
            s@ == self.published(),
            s.published_at_ns == self.published_at(),
    {
        self.snapshot.clone()
    }
}

proof fn lemma_take_contains(keys: Seq<u128>, i: int)
    requires
        0 <= i < keys.len(),
    ensures
        forall|k: u128| #[trigger]
            keys.take(i + 1).contains(k) <==> keys.take(i).contains(k) || k == keys[i],
{
    let (short, long) = (keys.take(i), keys.take(i + 1));
    assert forall|k: u128| #[trigger] long.contains(k) <==> short.contains(k) || k == keys[i] by {
        if short.contains(k) {
            let j = choose|j: int| 0 <= j < short.len() && short[j] == k;
            assert(long[j] == k);
        }
        assert(long[i] == keys[i]);
        if long.contains(k) {
            let j = choose|j: int| 0 <= j < long.len() && long[j] == k;
            if j < i {
                assert(short[j] == k);
            }
        }
    }
}

/// The fast tail is the last hundred samples pushed, in the order they came.
pub proof fn fast_tail_is_the_last_samples(samples: Seq<Sample>)
    ensures
        pushed_all(no_tails(), samples).fast == keep_last(samples, FAST_CAPACITY as int),
    decreases samples.len(),
{
    if samples.len() > 0 {
        let front = samples.drop_last();
        fast_tail_is_the_last_samples(front);
        assert(samples =~= front.push(samples.last()));
        assert(keep_last(keep_last(front, FAST_CAPACITY as int).push(samples.last()), FAST_CAPACITY as int)
            =~= keep_last(samples, FAST_CAPACITY as int));
    } else {
        assert(keep_last(samples, FAST_CAPACITY as int) =~= Seq::<Sample>::empty());
    }
}

/// Samples of a slow tail are far enough apart.
pub open spec fn spaced(slow: Seq<Sample>) -> bool {
    forall|i: int, j: int|
        0 <= i < j < slow.len() ==> (#[trigger] slow[i]).ts_ns + SLOW_SPACING_NS <= (
        #[trigger] slow[j]).ts_ns
}

/// However fast samples come, those of the slow tail are at least the spacing
/// apart, and neither tail outgrows its capacity.
pub proof fn slow_tail_is_decimated(t: Tails, samples: Seq<Sample>)
    requires
        spaced(t.slow),
        t.slow.len() <= SLOW_CAPACITY,
        t.fast.len() <= FAST_CAPACITY,
    ensures
        spaced(pushed_all(t, samples).slow),
        pushed_all(t, samples).slow.len() <= SLOW_CAPACITY,
        pushed_all(t, samples).fast.len() <= FAST_CAPACITY,
    decreases samples.len(),
{
    if samples.len() > 0 {
        slow_tail_is_decimated(t, samples.drop_last());
        let before = pushed_all(t, samples.drop_last());
        let s = samples.last();
        if slow_takes(before.slow, s) {
            let all = before.slow.push(s);
            assert forall|i: int, j: int| 0 <= i < j < all.len() implies (
            #[trigger] all[i]).ts_ns + SLOW_SPACING_NS <= (#[trigger] all[j]).ts_ns by {
                if j == before.slow.len() && i < before.slow.len() - 1 {
                    assert(before.slow[i].ts_ns <= before.slow.last().ts_ns);
                }
            }
        }
    }
}

/// The fast tail of a series holds its newest hundred samples, or all if there are
/// fewer, each as it was pushed.
pub proof fn fast_tails_hold_the_newest(samples: Seq<Sample>)
    ensures
        ({
            let fast = pushed_all(no_tails(), samples).fast;
            &&& samples.len() <= 100 ==> fast.len() == samples.len()
            &&& samples.len() > 100 ==> fast.len() == 100
            &&& forall|i: int|
                0 <= i < fast.len() ==> #[trigger] fast[i] == samples[samples.len() - fast.len()
                    + i]
        }),
{
    fast_tail_is_the_last_samples(samples);
}

/// What one push does to the slow tail. A sample that comes within nineteen
/// twentieths of a second of the newest leaves it alone; any other becomes its
/// newest, and the oldest goes once there are more than a hundred and twenty.
pub proof fn slow_tails_take_one_a_second(t: Tails, s: Sample)
    requires
        t.slow.len() <= 120,
    ensures
        ({
            let slow = pushed(t, s).slow;
            let early = t.slow.len() > 0 && s.ts_ns < t.slow[t.slow.len() - 1].ts_ns + 950_000_000;
            &&& early ==> slow == t.slow
            &&& !early ==> {
                &&& slow[slow.len() - 1] == s
                &&& t.slow.len() < 120 ==> slow.len() == t.slow.len() + 1
                &&& t.slow.len() == 120 ==> slow.len() == 120
                &&& forall|i: int|
                    0 <= i < slow.len() - 1 ==> #[trigger] slow[i] == t.slow[i + t.slow.len() + 1
                        - slow.len()]
            }
        }),
{
}

/// Tails hold nothing that was not pushed, and the newest sample pushed is the
/// newest of the fast tail.
pub proof fn tails_hold_what_was_pushed(samples: Seq<Sample>)
    ensures
        ({
            let t = pushed_all(no_tails(), samples);
            &&& forall|i: int| 0 <= i < t.slow.len() ==> samples.contains(#[trigger] t.slow[i])
            &&& samples.len() > 0 ==> t.fast.len() > 0 && t.fast[t.fast.len() - 1]
                == samples[samples.len() - 1]
            &&& samples.len() > 0 ==> t.slow.len() > 0
        }),
    decreases samples.len(),
{
    if samples.len() > 0 {
        let front = samples.drop_last();
        tails_hold_what_was_pushed(front);
        let before = pushed_all(no_tails(), front);
        let t = pushed_all(no_tails(), samples);
        let s = samples[samples.len() - 1];
        assert(samples.last() == s);
        assert forall|i: int| 0 <= i < t.slow.len() implies samples.contains(
            #[trigger] t.slow[i],
        ) by {
            let x = t.slow[i];
            if slow_takes(before.slow, s) && i == t.slow.len() - 1 {
                assert(x == s);
                assert(samples[samples.len() - 1] == x);
            } else {
                let j = i + (if slow_takes(before.slow, s) {
                    before.slow.len() + 1 - t.slow.len()
                } else {
                    0
                });
                assert(x == before.slow[j]);
                let k = choose|k: int| 0 <= k < front.len() && front[k] == x;
                assert(samples[k] == x);
            }
        }
    }
}

/// Keys order series by node, then GPU, then metric, and no two series share one.
pub proof fn packed_keys_order_series(a: SeriesKey, b: SeriesKey)
    ensures
        a.packed_spec() < b.packed_spec() <==> (a.node_id < b.node_id || a.node_id == b.node_id && (
        a.gpu_id < b.gpu_id || a.gpu_id == b.gpu_id && a.metric_id < b.metric_id)),
        a.packed_spec() == b.packed_spec() <==> a == b,
{
    packing_round_trips(a);
    packing_round_trips(b);
}

} // verus!
