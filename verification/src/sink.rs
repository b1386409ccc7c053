//! Rows for the database, and the buffers they wait in.
//!
//! Rows gather until there are many or a timer runs out, and are then inserted
//! table by table. If an insert fails everything stays buffered for the next
//! try: nothing is dropped silently.

use crate::clock::host_realtime_ns;
use crate::model::{
    Batch, Category, ClockOffsetRecord, Event, KernelSol, MemcpyKind, Payload, StallCount,
    StringIntern,
};
use vstd::prelude::*;

verus! {

#[derive(Clone, Debug)]
pub struct SinkConfig {
    pub url: String,
    pub user: String,
    pub password: String,
    pub database: String,
    pub max_batch_rows: usize,
    pub max_batch_ms: u64,
}

impl Default for SinkConfig {
    fn default() -> (c: Self)
        ensures
            c.url@ == "http://127.0.0.1:8123"@,
            c.user@ == "default"@,
            c.password@ == Seq::<char>::empty(),
            c.database@ == "default"@,
            c.max_batch_rows == 50_000,
            c.max_batch_ms == 500,
    {
        SinkConfig {
            url: "http://127.0.0.1:8123".to_string(),
            user: "default".to_string(),
            password: String::new(),
            database: "default".to_string(),
            max_batch_rows: 50_000,
            max_batch_ms: 500,
        }
    }
}

/// A row of the `events` table, in column order.
#[derive(Clone, Debug)]
pub struct EventRow {
    pub ts_ns: u64,
    pub duration_ns: u64,
    pub node_id: u32,
    pub gpu_id: u8,
    pub pid: u32,
    pub tid: u32,
    pub ctx_id: u32,
    pub stream_id: u32,
    pub category: i8,
    pub name_id: u64,
    pub correlation_id: u64,
    pub parent_id: u64,
    pub metric_id: u64,
    pub metric_value_bits: u64,
    pub metric_unit: String,
    pub grid_x: u32,
    pub grid_y: u32,
    pub grid_z: u32,
    pub block_x: u32,
    pub block_y: u32,
    pub block_z: u32,
    pub shared_static: u32,
    pub shared_dynamic: u32,
    pub registers: u32,
    pub local_mem: u32,
    pub launch_cbid: u32,
    pub memcpy_kind: i8,
    pub memcpy_bytes: u64,
    pub memcpy_src: u32,
    pub memcpy_dst: u32,
    pub api_cbid: u32,
    pub api_status: u32,
    pub marker_domain_id: u64,
    pub marker_color: u32,
    pub marker_message_id: u64,
}

/// The number that the `category` column holds. Cards are stored elsewhere and
/// count as kernels here.
pub open spec fn category_code(c: Category) -> i8 {
    match c {
        Category::Unspecified => 1,
        Category::Metric => 1,
        Category::ApiCall => 2,
        Category::Kernel => 3,
        Category::Memcpy => 4,
        Category::Memset => 5,
        Category::Sync => 6,
        Category::Overhead => 7,
        Category::Marker => 8,
        Category::Sol => 3,
    }
}

pub fn category_to_i8(c: Category) -> (n: i8)
    ensures
        n == category_code(c),
{
    match c {
        Category::Unspecified => 1,
        Category::Metric => 1,
        Category::ApiCall => 2,
        Category::Kernel => 3,
        Category::Memcpy => 4,
        Category::Memset => 5,
        Category::Sync => 6,
        Category::Overhead => 7,
        Category::Marker => 8,
        Category::Sol => 3,
    }
}

/// The number that the `memcpy_kind` column holds.
pub open spec fn memcpy_kind_code(k: MemcpyKind) -> i8 {
    match k {
        MemcpyKind::Unknown => 0,
        MemcpyKind::H2d => 1,
        MemcpyKind::D2h => 2,
        MemcpyKind::D2d => 3,
        MemcpyKind::H2h => 4,
        MemcpyKind::P2p => 5,
    }
}

pub fn memcpy_kind_to_i8(k: MemcpyKind) -> (n: i8)
    ensures
        n == memcpy_kind_code(k),
{
    match k {
        MemcpyKind::Unknown => 0,
        MemcpyKind::H2d => 1,
        MemcpyKind::D2h => 2,
        MemcpyKind::D2d => 3,
        MemcpyKind::H2h => 4,
        MemcpyKind::P2p => 5,
    }
}

/// The columns that every event fills. The GPU id is cut to a byte.
pub open spec fn common_columns(e: Event, row: EventRow) -> bool {
    &&& row.ts_ns == e.ts_ns
    &&& row.duration_ns == e.duration_ns
    &&& row.node_id == e.node_id
    &&& row.gpu_id == e.gpu_id as u8
    &&& row.pid == e.pid
    &&& row.tid == e.tid
    &&& row.ctx_id == e.ctx_id
    &&& row.stream_id == e.stream_id
    &&& row.category == category_code(e.category)
    &&& row.name_id == e.name_id
    &&& row.correlation_id == e.correlation_id
    &&& row.parent_id == e.parent_id
}

pub open spec fn metric_columns(payload: Option<Payload>, row: EventRow) -> bool {
    match payload {
        Some(Payload::Metric(m)) => {
            &&& row.metric_id == m.metric_id
            &&& row.metric_value_bits == m.value_bits
            &&& row.metric_unit@ == m.unit@
        },
        _ => {
            &&& row.metric_id == 0
            &&& row.metric_value_bits == 0
            &&& row.metric_unit@.len() == 0
        },
    }
}

pub open spec fn kernel_columns(payload: Option<Payload>, row: EventRow) -> bool {
    match payload {
        Some(Payload::Kernel(k)) => {
            &&& row.grid_x == k.grid_x
            &&& row.grid_y == k.grid_y
            &&& row.grid_z == k.grid_z
            &&& row.block_x == k.block_x
            &&& row.block_y == k.block_y
            &&& row.block_z == k.block_z
            &&& row.shared_static == k.static_shared_mem_bytes
            &&& row.shared_dynamic == k.dynamic_shared_mem_bytes
            &&& row.registers == k.registers_per_thread
            &&& row.local_mem == k.local_mem_per_thread
            &&& row.launch_cbid == k.launch_cbid
        },
        _ => {
            &&& row.grid_x == 0
            &&& row.grid_y == 0
            &&& row.grid_z == 0
            &&& row.block_x == 0
            &&& row.block_y == 0
            &&& row.block_z == 0
            &&& row.shared_static == 0
            &&& row.shared_dynamic == 0
            &&& row.registers == 0
            &&& row.local_mem == 0
            &&& row.launch_cbid == 0
        },
    }
}

pub open spec fn memcpy_columns(payload: Option<Payload>, row: EventRow) -> bool {
    match payload {
        Some(Payload::Memcpy(m)) => {
            &&& row.memcpy_kind == memcpy_kind_code(m.kind)
            &&& row.memcpy_bytes == m.bytes
            &&& row.memcpy_src == m.src_device
            &&& row.memcpy_dst == m.dst_device
        },
        _ => {
            &&& row.memcpy_kind == 0
            &&& row.memcpy_bytes == 0
            &&& row.memcpy_src == 0
            &&& row.memcpy_dst == 0
        },
    }
}

pub open spec fn api_columns(payload: Option<Payload>, row: EventRow) -> bool {
    match payload {
        Some(Payload::Api(a)) => row.api_cbid == a.cbid && row.api_status == a.status,
        _ => row.api_cbid == 0 && row.api_status == 0,
    }
}

pub open spec fn marker_columns(payload: Option<Payload>, row: EventRow) -> bool {
    match payload {
        Some(Payload::Marker(m)) => {
            &&& row.marker_domain_id == m.domain_id
            &&& row.marker_color == m.color_argb
            &&& row.marker_message_id == m.message_id
        },
        _ => {
            &&& row.marker_domain_id == 0
            &&& row.marker_color == 0
            &&& row.marker_message_id == 0
        },
    }
}

/// `row` is the row of event `e`: the columns of the payload it has, and zero or
/// empty in those of the payloads it has not.
pub open spec fn is_row_of(e: Event, row: EventRow) -> bool {
    &&& common_columns(e, row)
    &&& metric_columns(e.payload, row)
    &&& kernel_columns(e.payload, row)
    &&& memcpy_columns(e.payload, row)
    &&& api_columns(e.payload, row)
    &&& marker_columns(e.payload, row)
}

impl EventRow {
    /// The row of an event.
    pub fn from(e: Event) -> (row: Self)
        ensures
            is_row_of(e, row),
    {
        let mut row = EventRow {
            ts_ns: e.ts_ns,
            duration_ns: e.duration_ns,
            node_id: e.node_id,
            gpu_id: e.gpu_id as u8,
            pid: e.pid,
            tid: e.tid,
            ctx_id: e.ctx_id,
            stream_id: e.stream_id,
            category: category_to_i8(e.category),
            name_id: e.name_id,
            correlation_id: e.correlation_id,
            parent_id: e.parent_id,
            metric_id: 0,
            metric_value_bits: 0,
            metric_unit: String::new(),
            grid_x: 0,
            grid_y: 0,
            grid_z: 0,
            block_x: 0,
            block_y: 0,
            block_z: 0,
            shared_static: 0,
            shared_dynamic: 0,
            registers: 0,
            local_mem: 0,
            launch_cbid: 0,
            memcpy_kind: 0,
            memcpy_bytes: 0,
            memcpy_src: 0,
            memcpy_dst: 0,
            api_cbid: 0,
            api_status: 0,
            marker_domain_id: 0,
            marker_color: 0,
            marker_message_id: 0,
        };
        match e.payload {
            Some(Payload::Metric(m)) => {
                row.metric_id = m.metric_id;
                row.metric_value_bits = m.value_bits;
                row.metric_unit = m.unit;
            },
            Some(Payload::Kernel(k)) => {
                row.grid_x = k.grid_x;
                row.grid_y = k.grid_y;
                row.grid_z = k.grid_z;
                row.block_x = k.block_x;
                row.block_y = k.block_y;
                row.block_z = k.block_z;
                row.shared_static = k.static_shared_mem_bytes;
                row.shared_dynamic = k.dynamic_shared_mem_bytes;
                row.registers = k.registers_per_thread;
                row.local_mem = k.local_mem_per_thread;
                row.launch_cbid = k.launch_cbid;
            },
            Some(Payload::Memcpy(m)) => {
                row.memcpy_kind = memcpy_kind_to_i8(m.kind);
                row.memcpy_bytes = m.bytes;
                row.memcpy_src = m.src_device;
                row.memcpy_dst = m.dst_device;
            },
            Some(Payload::Api(a)) => {
                row.api_cbid = a.cbid;
                row.api_status = a.status;
            },
            Some(Payload::Marker(m)) => {
                row.marker_domain_id = m.domain_id;
                row.marker_color = m.color_argb;
                row.marker_message_id = m.message_id;
            },
            Some(Payload::Sol(_)) | None => {},
        }
        row
    }
}

/// A row of the `strings` table.
#[derive(Clone, Debug)]
pub struct StringRow {
    pub id: u64,
    pub text: String,
}

/// A row of the `clock_offsets` table.
#[derive(Copy, Clone, Debug, PartialEq, Eq, Structural)]
pub struct OffsetRow {
    pub fitted_at_ns: u64,
    pub node_id: u32,
    pub gpu_id: u8,
    pub offset_ns: i64,
    pub slope_num: i64,
    pub slope_den: i64,
    pub residual_max_ns: u64,
}

/// `row` is the row of clock fit `o`, whenever it was made.
pub open spec fn is_offset_row(o: ClockOffsetRecord, row: OffsetRow) -> bool {
    row == OffsetRow {
        fitted_at_ns: row.fitted_at_ns,
        node_id: o.node_id,
        gpu_id: o.gpu_id as u8,
        offset_ns: o.offset_ns,
        slope_num: o.slope_num,
        slope_den: o.slope_den,
        residual_max_ns: o.residual_max_ns,
    }
}

impl OffsetRow {
    /// The row of a clock fit, made at `now_ns`.
    pub fn at(o: &ClockOffsetRecord, now_ns: u64) -> (row: Self)
        ensures
            is_offset_row(*o, row),
            row.fitted_at_ns == now_ns,
    {
        OffsetRow {
            fitted_at_ns: now_ns,
            node_id: o.node_id,
            gpu_id: o.gpu_id as u8,
            offset_ns: o.offset_ns,
            slope_num: o.slope_num,
            slope_den: o.slope_den,
            residual_max_ns: o.residual_max_ns,
        }
    }
}

/// A row of the `kernel_sol` table; percentages and rates are single-precision
/// bits.
#[derive(Clone, Debug)]
pub struct KernelSolRow {
    pub ts_ns: u64,
    pub node_id: u32,
    pub gpu_id: u8,
    pub correlation_id: u64,
    pub sm_active_pct: u32,
    pub achieved_occupancy_pct: u32,
    pub dram_bw_pct: u32,
    pub l1_bw_pct: u32,
    pub l2_bw_pct: u32,
    pub inst_throughput_pct: u32,
    pub theoretical_occupancy_pct: u32,
    pub arithmetic_intensity: u32,
    pub achieved_gflops: u32,
    pub bound: i8,
    pub confidence: i8,
    pub source: i8,
    pub stall_reasons: Vec<u32>,
    pub stall_counts: Vec<u32>,
}

/// `row` is the row of card `s` from node `node_id`, whenever it was made.
pub open spec fn is_sol_row(node_id: u32, s: KernelSol, row: KernelSolRow) -> bool {
    &&& row.node_id == node_id
    &&& row.gpu_id == 0
    &&& row.correlation_id == s.correlation_id
    &&& row.sm_active_pct == s.sm_active_pct
    &&& row.achieved_occupancy_pct == s.achieved_occupancy_pct
    &&& row.dram_bw_pct == s.dram_bw_pct
    &&& row.l1_bw_pct == s.l1_bw_pct
    &&& row.l2_bw_pct == s.l2_bw_pct
    &&& row.inst_throughput_pct == s.inst_throughput_pct
    &&& row.theoretical_occupancy_pct == s.theoretical_occupancy_pct
    &&& row.arithmetic_intensity == s.arithmetic_intensity
    &&& row.achieved_gflops == s.achieved_gflops
    &&& row.bound == s.bound.code_spec()
    &&& row.confidence == s.confidence.code_spec()
    &&& row.source == s.source.code_spec()
    &&& row.stall_reasons@ == s.stalls@.map_values(|c: StallCount| c.reason_id)
    &&& row.stall_counts@ == s.stalls@.map_values(|c: StallCount| c.count)
}

impl KernelSolRow {
    pub fn from_proto(node_id: u32, s: KernelSol) -> (row: Self)
        ensures
            is_sol_row(node_id, s, row),
    {
        Self::from_proto_at(node_id, s, host_realtime_ns())
    }

    /// The row of a card, made at `now_ns`.
    pub fn from_proto_at(node_id: u32, s: KernelSol, now_ns: u64) -> (row: Self)
        ensures
            is_sol_row(node_id, s, row),
            row.ts_ns == now_ns,
    {
        let mut stall_reasons: Vec<u32> = Vec::new();
        let mut stall_counts: Vec<u32> = Vec::new();
        let mut i: usize = 0;
        while i < s.stalls.len()
            invariant
                0 <= i <= s.stalls.len(),
                stall_reasons@ == s.stalls@.take(i as int).map_values(
                    |c: StallCount| c.reason_id,
                ),
                stall_counts@ == s.stalls@.take(i as int).map_values(|c: StallCount| c.count),
            decreases s.stalls.len() - i,
        {
            stall_reasons.push(s.stalls[i].reason_id);
            stall_counts.push(s.stalls[i].count);
            i = i + 1;
            proof {
                assert(stall_reasons@ =~= s.stalls@.take(i as int).map_values(
                    |c: StallCount| c.reason_id,
                ));
                assert(stall_counts@ =~= s.stalls@.take(i as int).map_values(
                    |c: StallCount| c.count,
                ));
            }
        }
        proof {
            assert(s.stalls@.take(s.stalls.len() as int) =~= s.stalls@);
        }
        KernelSolRow {
            ts_ns: now_ns,
            node_id,
            gpu_id: 0,
            correlation_id: s.correlation_id,
            sm_active_pct: s.sm_active_pct,
            achieved_occupancy_pct: s.achieved_occupancy_pct,
            dram_bw_pct: s.dram_bw_pct,
            l1_bw_pct: s.l1_bw_pct,
            l2_bw_pct: s.l2_bw_pct,
            inst_throughput_pct: s.inst_throughput_pct,
            theoretical_occupancy_pct: s.theoretical_occupancy_pct,
            arithmetic_intensity: s.arithmetic_intensity,
            achieved_gflops: s.achieved_gflops,
            bound: s.bound.code(),
            confidence: s.confidence.code(),
            source: s.source.code(),
            stall_reasons,
            stall_counts,
        }
    }
}

/// A row of the `spikes` table; values are the bits of doubles.
#[derive(Copy, Clone, Debug, PartialEq, Eq, Structural)]
pub struct SpikeRow {
    pub bucket_start_ns: u64,
    pub bucket_width_ns: u64,
    pub node_id: u32,
    pub gpu_id: u8,
    pub metric_id: u64,
    pub value_bits: u64,
    pub median_bits: u64,
    pub mad_bits: u64,
    pub z_mad_bits: u64,
}

/// What is handed to storage.
#[derive(Clone, Debug)]
pub enum SinkMsg {
    Batch(Batch),
    KernelSol { node_id: u32, sol: KernelSol },
    Spike(SpikeRow),
}

/// The tables written, in the order in which they are written. Strings come
/// first so that no event refers to a name that is not there yet.
#[derive(Copy, Clone, Debug, PartialEq, Eq, Structural)]
pub enum SinkTable {
    Strings,
    Events,
    ClockOffsets,
    KernelSol,
    Spikes,
}

impl SinkTable {
    pub open spec fn rank(self) -> int {
        match self {
            SinkTable::Strings => 0,
            SinkTable::Events => 1,
            SinkTable::ClockOffsets => 2,
            SinkTable::KernelSol => 3,
            SinkTable::Spikes => 4,
        }
    }

    /// The table's name in the database.
    pub fn name(self) -> (s: &'static str)
        ensures
            s@ == match self {
                SinkTable::Strings => "strings"@,
                SinkTable::Events => "events"@,
                SinkTable::ClockOffsets => "clock_offsets"@,
                SinkTable::KernelSol => "kernel_sol"@,
                SinkTable::Spikes => "spikes"@,
            },
    {
        match self {
            SinkTable::Strings => "strings",
            SinkTable::Events => "events",
            SinkTable::ClockOffsets => "clock_offsets",
            SinkTable::KernelSol => "kernel_sol",
            SinkTable::Spikes => "spikes",
        }
    }
}

/// What a flush does next.
#[derive(Copy, Clone, Debug, PartialEq, Eq, Structural)]
pub enum FlushAction {
    /// Insert every buffered row of this table.
    Insert(SinkTable),
    /// Everything has been inserted and the buffers are empty.
    Flushed,
    /// An insert failed; every row stays for the next flush.
    Kept,
}

/// Rows that wait to be inserted.
pub struct Pending {
    pub events: Vec<EventRow>,
    pub strings: Vec<StringRow>,
    pub offsets: Vec<OffsetRow>,
    pub sol: Vec<KernelSolRow>,
    pub spikes: Vec<SpikeRow>,
}

/// `rows` are the rows of `events`, one for one, in order.
pub open spec fn are_rows_of(events: Seq<Event>, rows: Seq<EventRow>) -> bool {
    &&& rows.len() == events.len()
    &&& forall|i: int| 0 <= i < rows.len() ==> is_row_of(events[i], #[trigger] rows[i])
}

/// The events that go to the `events` table: all but metrics.
pub open spec fn without_metrics(events: Seq<Event>) -> Seq<Event>
    decreases events.len(),
{
    if events.len() == 0 {
        Seq::empty()
    } else if events.last().category == Category::Metric {
        without_metrics(events.drop_last())
    } else {
        without_metrics(events.drop_last()).push(events.last())
    }
}

/// `rows` are the rows of the announcements, in order.
pub open spec fn are_string_rows(strings: Seq<StringIntern>, rows: Seq<StringRow>) -> bool {
    &&& rows.len() == strings.len()
    &&& forall|i: int|
        0 <= i < rows.len() ==> (#[trigger] rows[i]).id == strings[i].id && rows[i].text@
            == strings[i].text@
}

/// `rows` are the rows of the clock fits, in order.
pub open spec fn are_offset_rows(offsets: Seq<ClockOffsetRecord>, rows: Seq<OffsetRow>) -> bool {
    &&& rows.len() == offsets.len()
    &&& forall|i: int| 0 <= i < rows.len() ==> is_offset_row(offsets[i], #[trigger] rows[i])
}

/// `after` is `before` with the rows of a batch at its end, where `kept` are the
/// events that are stored.
pub open spec fn absorbed(before: Pending, batch: Batch, kept: Seq<Event>, after: Pending) -> bool {
    &&& after.events@.len() >= before.events@.len()
    &&& after.events@.take(before.events@.len() as int) == before.events@
    &&& are_rows_of(kept, after.events@.skip(before.events@.len() as int))
    &&& after.strings@.len() >= before.strings@.len()
    &&& after.strings@.take(before.strings@.len() as int) == before.strings@
    &&& are_string_rows(batch.strings@, after.strings@.skip(before.strings@.len() as int))
    &&& after.offsets@.len() >= before.offsets@.len()
    &&& after.offsets@.take(before.offsets@.len() as int) == before.offsets@
    &&& are_offset_rows(batch.offsets@, after.offsets@.skip(before.offsets@.len() as int))
    &&& after.sol == before.sol
    &&& after.spikes == before.spikes
}

fn push_rows(events: Vec<Event>, rows: &mut Vec<EventRow>, with_metrics: bool)
    ensures
        final(rows)@.len() >= old(rows)@.len(),
        final(rows)@.take(old(rows)@.len() as int) == old(rows)@,
        are_rows_of(
            if with_metrics {
                events@
            } else {
                without_metrics(events@)
            },
            final(rows)@.skip(old(rows)@.len() as int),
        ),
{
    let ghost all = events@;
    let ghost n = rows@.len() as int;
    proof {
        assert(all.take(0) =~= Seq::<Event>::empty());
        assert(rows@.take(n) =~= rows@);
        assert(rows@.skip(n) =~= Seq::<EventRow>::empty());
    }
    for e in it: events.into_iter()
        invariant
            it.seq() == all,
            n == old(rows)@.len(),
            rows@.len() >= n,
            rows@.take(n) == old(rows)@,
            are_rows_of(
                if with_metrics {
                    all.take(it.index())
                } else {
                    without_metrics(all.take(it.index()))
                },
                rows@.skip(n),
            ),
    {
        let ghost i = it.index();
        let ghost before = rows@;
        proof {
            assert(all.take(i + 1).drop_last() =~= all.take(i));
            assert(all.take(i + 1) =~= all.take(i).push(all[i]));
            assert(e == all[i]);
        }
        if with_metrics || e.category != Category::Metric {
            rows.push(EventRow::from(e));
            proof {
                assert(rows@.take(n) =~= before.take(n));
                assert(rows@.skip(n) =~= before.skip(n).push(rows@.last()));
            }
        }
    }
    proof {
        assert(all.take(all.len() as int) =~= all);
    }
}

fn push_strings(strings: Vec<StringIntern>, rows: &mut Vec<StringRow>)
    ensures
        final(rows)@.len() >= old(rows)@.len(),
        final(rows)@.take(old(rows)@.len() as int) == old(rows)@,
        are_string_rows(strings@, final(rows)@.skip(old(rows)@.len() as int)),
{
    let ghost all = strings@;
    let ghost n = rows@.len() as int;
    proof {
        assert(rows@.take(n) =~= rows@);
        assert(rows@.skip(n) =~= Seq::<StringRow>::empty());
    }
    for s in it: strings.into_iter()
        invariant
            it.seq() == all,
            n == old(rows)@.len(),
            rows@.len() == n + it.index(),
            rows@.take(n) == old(rows)@,
            are_string_rows(all.take(it.index()), rows@.skip(n)),
    {
        let ghost before = rows@;
        rows.push(StringRow { id: s.id, text: s.text });
        proof {
            assert(rows@.take(n) =~= before.take(n));
            assert(rows@.skip(n) =~= before.skip(n).push(rows@.last()));
        }
    }
    proof {
        assert(all.take(all.len() as int) =~= all);
    }
}

fn push_offsets(offsets: &Vec<ClockOffsetRecord>, rows: &mut Vec<OffsetRow>)
    ensures
        final(rows)@.len() >= old(rows)@.len(),
        final(rows)@.take(old(rows)@.len() as int) == old(rows)@,
        are_offset_rows(offsets@, final(rows)@.skip(old(rows)@.len() as int)),
{
    let ghost n = rows@.len() as int;
    proof {
        assert(rows@.take(n) =~= rows@);
        assert(rows@.skip(n) =~= Seq::<OffsetRow>::empty());
    }
    let mut i: usize = 0;
    while i < offsets.len()
        invariant
            0 <= i <= offsets.len(),
            n == old(rows)@.len(),
            rows@.len() == n + i,
            rows@.take(n) == old(rows)@,
            are_offset_rows(offsets@.take(i as int), rows@.skip(n)),
        decreases offsets.len() - i,
    {
        let o = offsets[i];
        let ghost before = rows@;
        rows.push(OffsetRow::at(&o, host_realtime_ns()));
        i = i + 1;
        proof {
            assert(rows@.take(n) =~= before.take(n));
            assert(rows@.skip(n) =~= before.skip(n).push(rows@.last()));
        }
    }
    proof {
        assert(offsets@.take(offsets.len() as int) =~= offsets@);
    }
}

impl Pending {
    /// How many rows of a table wait.
    pub open spec fn waiting(self, t: SinkTable) -> nat {
        match t {
            SinkTable::Strings => self.strings@.len(),
            SinkTable::Events => self.events@.len(),
            SinkTable::ClockOffsets => self.offsets@.len(),
            SinkTable::KernelSol => self.sol@.len(),
            SinkTable::Spikes => self.spikes@.len(),
        }
    }

    /// Nothing waits.
    pub open spec fn is_drained(self) -> bool {
        &&& self.events@.len() == 0
        &&& self.strings@.len() == 0
        &&& self.offsets@.len() == 0
        &&& self.sol@.len() == 0
        &&& self.spikes@.len() == 0
    }

    pub fn new() -> (p: Self)
        ensures
            p.is_drained(),
    {
        Pending {
            events: Vec::new(),
            strings: Vec::new(),
            offsets: Vec::new(),
            sol: Vec::new(),
            spikes: Vec::new(),
        }
    }

    /// Buffers a batch. Metric events are left out: they live in memory only.
    pub fn absorb(&mut self, b: Batch)
        ensures
            absorbed(*old(self), b, without_metrics(b.events@), *final(self)),
    {
        let Batch { events, strings, offsets, metric_frames: _ } = b;
        push_rows(events, &mut self.events, false);
        push_strings(strings, &mut self.strings);
        push_offsets(&offsets, &mut self.offsets);
    }

    /// Buffers a batch, metric events included: for a collector without live
    /// tails.
    pub fn absorb_all(&mut self, b: Batch)
        ensures
            absorbed(*old(self), b, b.events@, *final(self)),
    {
        let Batch { events, strings, offsets, metric_frames: _ } = b;
        push_rows(events, &mut self.events, true);
        push_strings(strings, &mut self.strings);
        push_offsets(&offsets, &mut self.offsets);
    }

    /// Buffers what was handed to storage, and says whether enough events wait
    /// for a flush. `with_metrics` is for a collector without live tails.
    pub fn receive(&mut self, msg: SinkMsg, max_batch_rows: usize, with_metrics: bool) -> (flush:
        bool)
        ensures
            flush <==> final(self).events@.len() >= max_batch_rows,
            match msg {
                SinkMsg::Batch(b) => absorbed(
                    *old(self),
                    b,
                    if with_metrics {
                        b.events@
                    } else {
                        without_metrics(b.events@)
                    },
                    *final(self),
                ),
                SinkMsg::KernelSol { node_id, sol } => {
                    &&& final(self).sol@.len() == old(self).sol@.len() + 1
                    &&& final(self).sol@.drop_last() == old(self).sol@
                    &&& is_sol_row(node_id, sol, final(self).sol@.last())
                    &&& final(self).events == old(self).events
                    &&& final(self).strings == old(self).strings
                    &&& final(self).offsets == old(self).offsets
                    &&& final(self).spikes == old(self).spikes
                },
                SinkMsg::Spike(row) => {
                    &&& final(self).spikes@ == old(self).spikes@.push(row)
                    &&& final(self).events == old(self).events
                    &&& final(self).strings == old(self).strings
                    &&& final(self).offsets == old(self).offsets
                    &&& final(self).sol == old(self).sol
                },
            },
    {
        match msg {
            SinkMsg::Batch(b) => {
                if with_metrics {
                    self.absorb_all(b);
                } else {
                    self.absorb(b);
                }
            },
            SinkMsg::KernelSol { node_id, sol } => {
                self.sol.push(KernelSolRow::from_proto(node_id, sol));
                assert(self.sol@.drop_last() =~= old(self).sol@);
            },
            SinkMsg::Spike(row) => {
                self.spikes.push(row);
            },
        }
        self.events.len() >= max_batch_rows
    }

    /// Whether anything waits when the timer runs out.
    pub fn flush_due(&self) -> (due: bool)
        ensures
            due <==> !self.is_drained(),
    {
        self.events.len() > 0 || self.strings.len() > 0 || self.offsets.len() > 0 || self.sol.len()
            > 0 || self.spikes.len() > 0
    }

    /// The first table at or after `rank` with rows waiting.
    pub open spec fn next_table(self, rank: int) -> Option<SinkTable> {
        if rank <= 0 && self.strings@.len() > 0 {
            Some(SinkTable::Strings)
        } else if rank <= 1 && self.events@.len() > 0 {
            Some(SinkTable::Events)
        } else if rank <= 2 && self.offsets@.len() > 0 {
            Some(SinkTable::ClockOffsets)
        } else if rank <= 3 && self.sol@.len() > 0 {
            Some(SinkTable::KernelSol)
        } else if rank <= 4 && self.spikes@.len() > 0 {
            Some(SinkTable::Spikes)
        } else {
            None
        }
    }

    fn table_from(&self, rank: u8) -> (t: Option<SinkTable>)
        ensures
            t == self.next_table(rank as int),
    {
        if rank <= 0 && self.strings.len() > 0 {
            Some(SinkTable::Strings)
        } else if rank <= 1 && self.events.len() > 0 {
            Some(SinkTable::Events)
        } else if rank <= 2 && self.offsets.len() > 0 {
            Some(SinkTable::ClockOffsets)
        } else if rank <= 3 && self.sol.len() > 0 {
            Some(SinkTable::KernelSol)
        } else if rank <= 4 && self.spikes.len() > 0 {
            Some(SinkTable::Spikes)
        } else {
            None
        }
    }

    fn insert_or_finish(&mut self, rank: u8) -> (action: FlushAction)
        ensures
            match old(self).next_table(rank as int) {
                Some(t) => action == FlushAction::Insert(t) && *final(self) == *old(self),
                None => action == FlushAction::Flushed && final(self).is_drained(),
            },
    {
        match self.table_from(rank) {
            Some(t) => FlushAction::Insert(t),
            None => {
                self.events.clear();
                self.strings.clear();
                self.offsets.clear();
                self.sol.clear();
                self.spikes.clear();
                FlushAction::Flushed
            },
        }
    }

    /// Begins a flush.
    pub fn begin_flush(&mut self) -> (action: FlushAction)
        ensures
            match old(self).next_table(0) {
                Some(t) => action == FlushAction::Insert(t) && *final(self) == *old(self),
                None => action == FlushAction::Flushed && final(self).is_drained(),
            },
    {
        self.insert_or_finish(0)
    }

    /// Goes on with a flush after the insert into `table` went as `ok` says.
    pub fn after_insert(&mut self, table: SinkTable, ok: bool) -> (action: FlushAction)
        ensures
            !ok ==> action == FlushAction::Kept && *final(self) == *old(self),
            ok ==> match old(self).next_table(table.rank() + 1) {
                Some(t) => action == FlushAction::Insert(t) && *final(self) == *old(self),
                None => action == FlushAction::Flushed && final(self).is_drained(),
            },
    {
        if !ok {
            return FlushAction::Kept;
        }
        let rank: u8 = match table {
            SinkTable::Strings => 1,
            SinkTable::Events => 2,
            SinkTable::ClockOffsets => 3,
            SinkTable::KernelSol => 4,
            SinkTable::Spikes => 5,
        };
        self.insert_or_finish(rank)
    }
}

/// The tables that a flush inserts when every insert goes well, from `rank` on.
pub open spec fn inserts_from(p: Pending, rank: int) -> Seq<SinkTable>
    decreases 5 - rank,
{
    if rank >= 5 {
        Seq::empty()
    } else {
        match p.next_table(rank) {
            None => Seq::empty(),
            Some(t) => if t.rank() >= rank {
                seq![t] + inserts_from(p, t.rank() + 1)
            } else {
                Seq::empty()
            },
        }
    }
}

/// A flush that succeeds inserts every table with rows waiting, each once,
/// strings before events.
pub proof fn flush_reaches_every_table(p: Pending, rank: int, t: SinkTable)
    requires
        0 <= rank,
    ensures
        inserts_from(p, rank).contains(t) <==> t.rank() >= rank && p.waiting(t) > 0,
        forall|i: int, j: int|
            0 <= i < j < inserts_from(p, rank).len() ==> (#[trigger] inserts_from(
                p,
                rank,
            )[i]).rank() < (#[trigger] inserts_from(p, rank)[j]).rank(),
        forall|i: int|
            0 <= i < inserts_from(p, rank).len() ==> (#[trigger] inserts_from(p, rank)[i]).rank()
                >= rank,
    decreases 5 - rank,
{
    if rank < 5 {
        if let Some(first) = p.next_table(rank) {
            let rest = inserts_from(p, first.rank() + 1);
            flush_reaches_every_table(p, first.rank() + 1, t);
            let all = seq![first] + rest;
            assert(all[0] == first);
            assert forall|i: int, j: int| 0 <= i < j < all.len() implies (#[trigger] all[i]).rank()
                < (#[trigger] all[j]).rank() by {
                assert(all[j] == rest[j - 1]);
                if i > 0 {
                    assert(all[i] == rest[i - 1]);
                }
            }
            assert forall|i: int| 0 <= i < all.len() implies (#[trigger] all[i]).rank() >= rank by {
                if i > 0 {
                    assert(all[i] == rest[i - 1]);
                }
            }
            if rest.contains(t) {
                let k = choose|k: int| 0 <= k < rest.len() && rest[k] == t;
                assert(all[k + 1] == t);
            }
            if all.contains(t) && t != first {
                let k = choose|k: int| 0 <= k < all.len() && all[k] == t;
                assert(rest[k - 1] == t);
            }
        }
    }
}

} // verus!
