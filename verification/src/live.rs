//! The live plane: what goes out to connected clients every second.

use crate::fast_ring::{FastRingSnapshot, SeriesKey, Tails};
use crate::keyed::lists_keys;
use crate::model::MetricPoint;
use vstd::prelude::*;

verus! {

/// A kernel as it is announced to clients.
#[derive(Copy, Clone, Debug, PartialEq, Eq, Structural)]
pub struct LiveKernelEvent {
    pub ts_ns: u64,
    pub duration_ns: u64,
    pub node_id: u32,
    pub gpu_id: u32,
    pub correlation_id: u64,
    pub name_id: u64,
}

/// The latest value of every metric of one GPU.
#[derive(Clone, Debug)]
pub struct GpuFrame {
    pub node_id: u32,
    pub gpu_id: u32,
    pub metrics: Vec<MetricPoint>,
}

/// The latest value of every metric.
#[derive(Clone, Debug)]
pub struct MetricFrame {
    pub ts_ns: u64,
    pub gpus: Vec<GpuFrame>,
}

/// A GPU and its metric points.
pub struct GpuPoints {
    pub node_id: u32,
    pub gpu_id: u32,
    pub metrics: Seq<MetricPoint>,
}

impl View for GpuFrame {
    type V = GpuPoints;

    open spec fn view(&self) -> GpuPoints {
        GpuPoints { node_id: self.node_id, gpu_id: self.gpu_id, metrics: self.metrics@ }
    }
}

impl MetricFrame {
    pub open spec fn points(self) -> Seq<GpuPoints> {
        self.gpus@.map_values(|g: GpuFrame| g@)
    }
}

/// The latest value of a series: of the fast tail, else of the slow one, else
/// zero.
pub open spec fn latest_bits(t: Tails) -> u64 {
    if t.fast.len() > 0 {
        t.fast.last().value_bits
    } else if t.slow.len() > 0 {
        t.slow.last().value_bits
    } else {
        0
    }
}

/// The groups once one more series has been put in: into the last group if that
/// is its GPU's, else into a new one.
pub open spec fn grouped_with(groups: Seq<GpuPoints>, k: SeriesKey, bits: u64) -> Seq<GpuPoints> {
    let point = MetricPoint { metric_id: k.metric_id, value_bits: bits };
    if groups.len() > 0 && groups.last().node_id == k.node_id && groups.last().gpu_id
        == k.gpu_id {
        groups.drop_last().push(
            GpuPoints { metrics: groups.last().metrics.push(point), ..groups.last() },
        )
    } else {
        groups.push(GpuPoints { node_id: k.node_id, gpu_id: k.gpu_id, metrics: seq![point] })
    }
}

/// The latest values of the listed series, grouped by GPU.
pub open spec fn grouped(series: Map<u128, Tails>, keys: Seq<u128>) -> Seq<GpuPoints>
    decreases keys.len(),
{
    if keys.len() == 0 {
        Seq::empty()
    } else {
        grouped_with(
            grouped(series, keys.drop_last()),
            SeriesKey::unpacked_spec(keys.last()),
            latest_bits(series[keys.last()]),
        )
    }
}

/// Collects the latest value of every series, grouped by GPU; GPUs are in order
/// of node and id.
pub fn build_metric_frame(snap: &FastRingSnapshot) -> (frame: MetricFrame)
    ensures
        frame.ts_ns == snap.published_at_ns,
        exists|keys: Seq<u128>| #[trigger]
            lists_keys(keys, snap@.dom()) && frame.points() == grouped(snap@, keys),
{
    let keys = snap.keys();
    let ghost packed = choose|packed: Seq<u128>| #[trigger]
        lists_keys(packed, snap@.dom()) && keys@ == packed.map_values(
            |n: u128| SeriesKey::unpacked_spec(n),
        );
    let mut gpus: Vec<GpuFrame> = Vec::new();
    let mut i: usize = 0;
    proof {
        assert(gpus@.map_values(|g: GpuFrame| g@) =~= grouped(snap@, packed.take(0)));
    }
    while i < keys.len()
        invariant
            0 <= i <= keys.len(),
            lists_keys(packed, snap@.dom()),
            keys@ == packed.map_values(|n: u128| SeriesKey::unpacked_spec(n)),
            gpus@.map_values(|g: GpuFrame| g@) == grouped(snap@, packed.take(i as int)),
        decreases keys.len() - i,
    {
        let k = keys[i];
        let ghost before = gpus@.map_values(|g: GpuFrame| g@);
        proof {
            crate::fast_ring::unpacking_round_trips(packed[i as int]);
            assert(packed.contains(packed[i as int]));
            let upto = packed.take(i + 1);
            assert(upto.drop_last() =~= packed.take(i as int));
            assert(upto.last() == packed[i as int]);
        }
        let bits: u64 = match snap.get(&k) {
            Some(s) => if s.fast.len() > 0 {
                s.fast[s.fast.len() - 1].value_bits
            } else if s.slow.len() > 0 {
                s.slow[s.slow.len() - 1].value_bits
            } else {
                0
            },
            None => 0,
        };
        let point = MetricPoint { metric_id: k.metric_id, value_bits: bits };
        let same = gpus.len() > 0 && gpus[gpus.len() - 1].node_id == k.node_id && gpus[gpus.len()
            - 1].gpu_id == k.gpu_id;
        if same {
            match gpus.pop() {
                Some(g) => {
                    let mut g = g;
                    g.metrics.push(point);
                    gpus.push(g);
                },
                None => {},
            }
        } else {
            let mut metrics: Vec<MetricPoint> = Vec::new();
            metrics.push(point);
            proof {
                assert(metrics@ =~= seq![point]);
            }
            gpus.push(GpuFrame { node_id: k.node_id, gpu_id: k.gpu_id, metrics });
        }
        proof {
            assert(gpus@.map_values(|g: GpuFrame| g@) =~= grouped_with(before, k, bits));
        }
        i = i + 1;
    }
    proof {
        assert(packed.take(packed.len() as int) =~= packed);
    }
    MetricFrame { ts_ns: snap.published_at_ns, gpus }
}

/// Groups are in strictly ascending order of node, then GPU.
pub open spec fn groups_ascend(groups: Seq<GpuPoints>) -> bool {
    forall|i: int, j: int|
        0 <= i < j < groups.len() ==> comes_before(#[trigger] groups[i], #[trigger] groups[j])
}

pub open spec fn comes_before(a: GpuPoints, b: GpuPoints) -> bool {
    a.node_id < b.node_id || (a.node_id == b.node_id && a.gpu_id < b.gpu_id)
}

/// How many points the groups hold.
pub open spec fn point_count(groups: Seq<GpuPoints>) -> nat
    decreases groups.len(),
{
    if groups.len() == 0 {
        0
    } else {
        point_count(groups.drop_last()) + groups.last().metrics.len()
    }
}

/// A frame lists each GPU once, in order, and each series once.
pub proof fn frames_list_each_gpu_once(series: Map<u128, Tails>, keys: Seq<u128>)
    requires
        lists_keys(keys, series.dom()),
    ensures
        groups_ascend(grouped(series, keys)),
        point_count(grouped(series, keys)) == keys.len(),
{
    lemma_groups(series, keys);
}

proof fn lemma_groups(series: Map<u128, Tails>, keys: Seq<u128>)
    requires
        forall|i: int, j: int|
            0 <= i < j < keys.len() ==> #[trigger] keys[i] < #[trigger] keys[j],
    ensures
        groups_ascend(grouped(series, keys)),
        point_count(grouped(series, keys)) == keys.len(),
        keys.len() > 0 ==> {
            &&& grouped(series, keys).len() > 0
            &&& grouped(series, keys).last().node_id == SeriesKey::unpacked_spec(
                keys.last(),
            ).node_id
            &&& grouped(series, keys).last().gpu_id == SeriesKey::unpacked_spec(keys.last()).gpu_id
        },
        keys.len() == 0 ==> grouped(series, keys).len() == 0,
    decreases keys.len(),
{
    if keys.len() > 0 {
        let front = keys.drop_last();
        lemma_groups(series, front);
        let before = grouped(series, front);
        let k = SeriesKey::unpacked_spec(keys.last());
        let after = grouped(series, keys);
        if before.len() > 0 && before.last().node_id == k.node_id && before.last().gpu_id
            == k.gpu_id {
            assert(after.drop_last() =~= before.drop_last());
            assert(groups_ascend(after)) by {
                assert forall|i: int, j: int| 0 <= i < j < after.len() implies comes_before(
                    #[trigger] after[i],
                    #[trigger] after[j],
                ) by {
                    assert(comes_before(before[i], before[j]));
                }
            }
        } else {
            assert(after.drop_last() =~= before);
            assert forall|i: int, j: int| 0 <= i < j < after.len() implies comes_before(
                #[trigger] after[i],
                #[trigger] after[j],
            ) by {
                if j < before.len() {
                    assert(comes_before(before[i], before[j]));
                } else {
                    let prev = SeriesKey::unpacked_spec(front.last());
                    assert(front.last() < keys.last());
                    lemma_packed_order(front.last(), keys.last());
                    if i < before.len() - 1 {
                        assert(comes_before(before[i], before.last()));
                    }
                }
            }
        }
    }
}

/// Packed keys order by node, then GPU.
proof fn lemma_packed_order(a: u128, b: u128)
    requires
        a < b,
    ensures
        ({
            let (x, y) = (SeriesKey::unpacked_spec(a), SeriesKey::unpacked_spec(b));
            x.node_id < y.node_id || (x.node_id == y.node_id && x.gpu_id <= y.gpu_id)
        }),
{
    let (x, y) = (SeriesKey::unpacked_spec(a), SeriesKey::unpacked_spec(b));
    assert(x.node_id == a / 0x1_0000_0000_0000_0000_0000_0000);
    assert(y.node_id == b / 0x1_0000_0000_0000_0000_0000_0000);
    assert(x.gpu_id == a / 0x1_0000_0000_0000_0000 % 0x1_0000_0000);
    assert(y.gpu_id == b / 0x1_0000_0000_0000_0000 % 0x1_0000_0000);
}

} // verus!
