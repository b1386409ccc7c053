//! What an agent owes to the collector, and what live clients and replays get.

use crate::callback::{translated, NvtxDomainRangePushExParams};
use crate::clock::ClockOffset;
use crate::fast_ring::{SeriesKey, Tails};
use crate::intern::{known_after, name_id};
use crate::live::{grouped, latest_bits, GpuPoints};
use crate::model::{AgentHello, Bound, Category, Event, MetricPoint, Payload};
use crate::pm::{bound_of, card_of, mean, total, PmSample};
use crate::replay::{entry_of, replay_target_of, AgentEntry, ReplayError};
use crate::uploader::{announcements, first_events, sent_events, units};
use vstd::prelude::*;

verus! {

/// `host_ns` is what the fit makes of `ts_ns`: the offset plus the slope times the
/// timestamp, rounded toward zero, and zero if that is less.
pub open spec fn is_mapped(c: ClockOffset, ts_ns: u64, host_ns: u64) -> bool {
    let product = c.slope_num * ts_ns;
    let whole: int = if product >= 0 {
        product / (c.slope_den as int)
    } else {
        -((-product) / (c.slope_den as int))
    };
    let host = c.offset_ns + whole;
    &&& c.slope_den > 0 && host < 0 ==> host_ns == 0
    &&& c.slope_den > 0 && 0 <= host <= u64::MAX ==> host_ns == host
}

/// An agent sends every event it takes, in order and unchanged but for its time:
/// kernels, API calls, copies and fills are mapped to host time, and everything
/// else is sent at the time it carries.
pub proof fn events_are_sent_in_host_time(off: ClockOffset, events: Seq<Event>, i: int)
    requires
        0 <= i < events.len(),
    ensures
        sent_events(off, events).len() == events.len(),
        ({
            let (e, sent) = (events[i], sent_events(off, events)[i]);
            &&& crate::ingest_laws::same_but_for_time(e, sent)
            &&& e.category == Category::Kernel ==> is_mapped(off, e.ts_ns, sent.ts_ns)
            &&& e.category == Category::ApiCall ==> is_mapped(off, e.ts_ns, sent.ts_ns)
            &&& e.category == Category::Memcpy ==> is_mapped(off, e.ts_ns, sent.ts_ns)
            &&& e.category == Category::Memset ==> is_mapped(off, e.ts_ns, sent.ts_ns)
            &&& e.category != Category::Kernel && e.category != Category::ApiCall && e.category
                != Category::Memcpy && e.category != Category::Memset ==> sent.ts_ns == e.ts_ns
        }),
{
}

/// A batch takes the oldest events: all of them if they are no more than the most
/// allowed, else exactly as many as allowed.
pub proof fn batches_take_the_oldest(events: Seq<Event>, max: usize)
    ensures
        events.len() <= max ==> first_events(events, max) == events,
        events.len() > max ==> first_events(events, max).len() == max,
        forall|i: int|
            0 <= i < first_events(events, max).len() ==> #[trigger] first_events(events, max)[i]
                == events[i],
{
    if events.len() == max {
        assert(events.take(max as int) =~= events);
    }
}

/// The units of a batch are those of its metric events that have one, in order.
pub proof fn units_come_from_metrics(events: Seq<Event>)
    ensures
        ({
            let with = events.filter(
                |e: Event| e.payload matches Some(Payload::Metric(m)) && m.unit@.len() > 0,
            );
            &&& units(events).len() == with.len()
            &&& forall|i: int|
                0 <= i < with.len() ==> ((#[trigger] with[i]).payload matches Some(
                    Payload::Metric(m),
                ) && units(events)[i] == m.unit@)
        }),
    decreases events.len(),
{
    reveal(Seq::filter);
    if events.len() > 0 {
        units_come_from_metrics(events.drop_last());
    }
}

/// Each text recorded for the first time is announced once, under the hash of the
/// text, and none is announced that was known.
pub proof fn new_names_are_announced(seen: Set<u64>, texts: Seq<Seq<char>>)
    ensures
        ({
            let told = announcements(seen, texts);
            &&& forall|i: int|
                0 <= i < told.len() ==> {
                    &&& (#[trigger] told[i]).0 == name_id(told[i].1)
                    &&& texts.contains(told[i].1)
                    &&& !seen.contains(told[i].0)
                }
            &&& forall|i: int, j: int|
                0 <= i < j < told.len() ==> (#[trigger] told[i]).0 != (#[trigger] told[j]).0
            &&& forall|id: u64| #[trigger]
                known_after(seen, texts).contains(id) <==> seen.contains(id) || exists|i: int|
                    0 <= i < told.len() && (#[trigger] told[i]).0 == id
        }),
    decreases texts.len(),
{
    if texts.len() > 0 {
        let front = texts.drop_last();
        new_names_are_announced(seen, front);
        let before = announcements(seen, front);
        let told = announcements(seen, texts);
        let last = texts.last();
        let id = name_id(last);
        let known = known_after(seen, front);
        assert(texts[texts.len() - 1] == last);
        assert forall|i: int| 0 <= i < told.len() implies {
            &&& (#[trigger] told[i]).0 == name_id(told[i].1)
            &&& texts.contains(told[i].1)
            &&& !seen.contains(told[i].0)
        } by {
            if i < before.len() {
                assert(told[i] == before[i]);
                let k = choose|k: int| 0 <= k < front.len() && front[k] == before[i].1;
                assert(texts[k] == told[i].1);
            } else {
                assert(told[i] == (id, last));
                assert(!known.contains(id));
            }
        }
        assert forall|i: int, j: int| 0 <= i < j < told.len() implies (#[trigger] told[i]).0 != (
        #[trigger] told[j]).0 by {
            assert(told[i] == before[i]);
            if j < before.len() {
                assert(told[j] == before[j]);
            } else {
                assert(before[i].0 == told[i].0);
                assert(known.contains(before[i].0));
            }
        }
        assert forall|x: u64| #[trigger] known_after(seen, texts).contains(x) <==> seen.contains(x)
            || exists|i: int| 0 <= i < told.len() && (#[trigger] told[i]).0 == x by {
            assert(known.contains(x) <==> seen.contains(x) || exists|i: int|
                0 <= i < before.len() && (#[trigger] before[i]).0 == x);
            if exists|i: int| 0 <= i < before.len() && (#[trigger] before[i]).0 == x {
                let i = choose|i: int| 0 <= i < before.len() && (#[trigger] before[i]).0 == x;
                assert(told[i] == before[i]);
            }
            if exists|i: int| 0 <= i < told.len() && (#[trigger] told[i]).0 == x {
                let i = choose|i: int| 0 <= i < told.len() && (#[trigger] told[i]).0 == x;
                if i < before.len() {
                    assert(before[i].0 == x);
                }
            }
            if x == id && !known.contains(id) {
                assert(told[before.len() as int].0 == x);
            }
        }
    }
}

/// Every point of a live frame, with its GPU.
pub open spec fn points_listed(groups: Seq<GpuPoints>) -> Seq<(u32, u32, u64, u64)>
    decreases groups.len(),
{
    if groups.len() == 0 {
        Seq::empty()
    } else {
        let g = groups.last();
        points_listed(groups.drop_last()) + g.metrics.map_values(
            |p: MetricPoint| (g.node_id, g.gpu_id, p.metric_id, p.value_bits),
        )
    }
}

/// A live frame holds one point for each series, under the series' own GPU and with
/// its newest value.
pub proof fn frames_hold_every_series(series: Map<u128, Tails>, keys: Seq<u128>)
    ensures
        ({
            let all = points_listed(grouped(series, keys));
            &&& all.len() == keys.len()
            &&& forall|i: int|
                0 <= i < keys.len() ==> {
                    let (node, gpu, metric, bits) = #[trigger] all[i];
                    let t = series[keys[i]];
                    &&& (SeriesKey { node_id: node, gpu_id: gpu, metric_id: metric }).packed_spec()
                        == keys[i]
                    &&& t.fast.len() > 0 ==> bits == t.fast[t.fast.len() - 1].value_bits
                    &&& t.fast.len() == 0 && t.slow.len() > 0 ==> bits == t.slow[t.slow.len()
                        - 1].value_bits
                }
        }),
    decreases keys.len(),
{
    if keys.len() > 0 {
        let front = keys.drop_last();
        frames_hold_every_series(series, front);
        let before = grouped(series, front);
        let after = grouped(series, keys);
        let k = SeriesKey::unpacked_spec(keys.last());
        crate::fast_ring::unpacking_round_trips(keys.last());
        let bits = latest_bits(series[keys.last()]);
        let listed = points_listed(before);
        let point = (k.node_id, k.gpu_id, k.metric_id, bits);
        let more = before.len() > 0 && before.last().node_id == k.node_id && before.last().gpu_id
            == k.gpu_id;
        if more {
            assert(after.drop_last() =~= before.drop_last());
        } else {
            assert(after.drop_last() =~= before);
        }
        assert(points_listed(after) =~= listed.push(point));
        assert forall|i: int| 0 <= i < keys.len() implies {
            let (node, gpu, metric, bits) = #[trigger] points_listed(after)[i];
            let t = series[keys[i]];
            &&& (SeriesKey { node_id: node, gpu_id: gpu, metric_id: metric }).packed_spec()
                == keys[i]
            &&& t.fast.len() > 0 ==> bits == t.fast[t.fast.len() - 1].value_bits
            &&& t.fast.len() == 0 && t.slow.len() > 0 ==> bits == t.slow[t.slow.len()
                - 1].value_bits
        } by {
            if i < front.len() {
                assert(points_listed(after)[i] == listed[i]);
                assert(front[i] == keys[i]);
            }
        }
    }
}

/// A replay goes to the address that the node's agent gave, and is refused if no
/// agent registered or it gave none. A registration concerns its own node only.
pub proof fn replays_reach_their_node(
    agents: Map<u128, AgentEntry>,
    node_id: u32,
    other: u32,
    hello: AgentHello,
)
    ensures
        entry_of(node_id, hello).node_id == node_id,
        entry_of(node_id, hello).hostname == hello.hostname,
        !agents.contains_key(other as u128) ==> replay_target_of(agents, other) == Err::<
            String,
            ReplayError,
        >(ReplayError::NotRegistered { node_id: other }),
        agents.contains_key(other as u128) && agents[other as u128].rpc_addr is Some
            ==> replay_target_of(agents, other) == Ok::<String, ReplayError>(
            agents[other as u128].rpc_addr->0,
        ),
        other != node_id ==> replay_target_of(
            agents.insert(node_id as u128, entry_of(node_id, hello)),
            other,
        ) == replay_target_of(agents, other),
{
}

/// Marks and pushes become markers at the time and on the GPU given, named by
/// their message; other calls, and calls without attributes, become nothing.
pub proof fn marks_become_markers(
    function: Seq<char>,
    p: NvtxDomainRangePushExParams,
    ts_ns: u64,
    node_id: u32,
    gpu_id: u32,
)
    ensures
        translated(function, None, ts_ns, node_id, gpu_id) is None,
        p.event_attr is None ==> translated(function, Some(p), ts_ns, node_id, gpu_id) is None,
        function != "nvtxMarkEx"@ && function != "nvtxRangePushEx"@ && function
            != "nvtxDomainMarkEx"@ && function != "nvtxDomainRangePushEx"@ ==> translated(
            function,
            Some(p),
            ts_ns,
            node_id,
            gpu_id,
        ) is None,
        (function == "nvtxMarkEx"@ || function == "nvtxRangePushEx"@ || function
            == "nvtxDomainMarkEx"@ || function == "nvtxDomainRangePushEx"@) ==> (
        p.event_attr matches Some(attr) ==> (translated(function, Some(p), ts_ns, node_id, gpu_id)
            matches Some(e) && {
            &&& e.category == Category::Marker
            &&& e.ts_ns == ts_ns && e.duration_ns == 0
            &&& e.node_id == node_id && e.gpu_id == gpu_id
            &&& attr.message matches Some(text) ==> e.name_id == name_id(text@)
            &&& attr.message is None ==> e.name_id == name_id("<nvtx>"@)
            &&& e.payload matches Some(Payload::Marker(m)) && m.color_argb == attr.color_argb
                && m.message_id == e.name_id && (function == "nvtxMarkEx"@ || function
                == "nvtxRangePushEx"@ ==> m.domain_id == 0)
        })),
{
}

/// The sum of a counter takes every reading in once.
pub proof fn totals_take_every_reading(
    readings: Seq<PmSample>,
    s: PmSample,
    counter: spec_fn(PmSample) -> u32,
)
    ensures
        total(Seq::empty(), counter) == 0,
        total(readings.push(s), counter) == total(readings, counter) + counter(s),
{
    assert(readings.push(s).drop_last() =~= readings);
}

/// A mean lies between the bounds of the readings, and is off the exact mean by
/// less than one.
pub proof fn means_are_means(
    readings: Seq<PmSample>,
    counter: spec_fn(PmSample) -> u32,
    low: u32,
    high: u32,
)
    requires
        readings.len() > 0,
        forall|i: int|
            0 <= i < readings.len() ==> low <= counter(#[trigger] readings[i]) <= high,
    ensures
        low <= mean(readings, counter) <= high,
        mean(readings, counter) * readings.len() <= total(readings, counter) < (mean(
            readings,
            counter,
        ) + 1) * readings.len(),
{
    lemma_total_between(readings, counter, low, high);
    let (t, n) = (total(readings, counter), readings.len() as int);
    vstd::arithmetic::div_mod::lemma_fundamental_div_mod(t, n);
    let q = t / n;
    assert(low <= q <= high && q * n <= t < (q + 1) * n) by (nonlinear_arith)
        requires
            n > 0,
            t == n * q + t % n,
            0 <= t % n < n,
            low * n <= t <= high * n,
    ;
}

proof fn lemma_total_between(
    readings: Seq<PmSample>,
    counter: spec_fn(PmSample) -> u32,
    low: u32,
    high: u32,
)
    requires
        forall|i: int|
            0 <= i < readings.len() ==> low <= counter(#[trigger] readings[i]) <= high,
    ensures
        low * readings.len() <= total(readings, counter) <= high * readings.len(),
    decreases readings.len(),
{
    if readings.len() > 0 {
        let front = readings.drop_last();
        assert forall|i: int| 0 <= i < front.len() implies low <= counter(#[trigger] front[i])
            <= high by {
            assert(front[i] == readings[i]);
        }
        lemma_total_between(front, counter, low, high);
        assert(low <= counter(readings[readings.len() - 1]) <= high);
        let n = front.len() as int;
        assert(low * (n + 1) == low * n + low && high * (n + 1) == high * n + high)
            by (nonlinear_arith);
    }
}

/// A card holds the mean of each counter, and is made of five readings or more.
pub proof fn cards_hold_the_means(readings: Seq<PmSample>, corr: u64)
    ensures
        readings.len() < 5 ==> card_of(readings, corr) is None,
        readings.len() >= 5 ==> (card_of(readings, corr) matches Some(c) && {
            &&& c.correlation_id == corr
            &&& c.sm_active == mean(readings, |s: PmSample| s.sm_active)
            &&& c.achieved_occupancy == mean(readings, |s: PmSample| s.occupancy)
            &&& c.dram_bw == mean(readings, |s: PmSample| s.dram_bw)
            &&& c.inst_throughput == mean(readings, |s: PmSample| s.inst_tp)
        }),
{
}

/// What bounds a kernel, in millionths of a percent: latency exactly if nothing
/// reaches thirty percent; else memory or compute if one leads by ten points.
pub proof fn bounds_follow_the_leader(sm: int, dram: int, fill: int)
    ensures
        ({
            let b = bound_of(sm, dram, fill);
            let idle = sm < 30_000_000 && dram < 30_000_000 && fill < 30_000_000;
            &&& b == Bound::Latency <==> idle
            &&& b == Bound::Memory <==> !idle && dram - sm >= 10_000_000 && dram - fill
                >= 10_000_000
            &&& b == Bound::Compute <==> !idle && (sm - dram >= 10_000_000 || fill - dram
                >= 10_000_000)
        }),
{
}

} // verus!
