//! What storage keeps of what it is given.

use crate::model::{
    Batch, Category, ClockOffsetRecord, Event, KernelSol, MemcpyKind, Payload,
};
use crate::sink::{
    absorbed, category_code, is_offset_row, is_row_of, is_sol_row, without_metrics, EventRow,
    KernelSolRow, OffsetRow, Pending, SinkTable,
};
use vstd::prelude::*;

verus! {

/// The row of an event holds what the event says: when, where and what it was, and
/// the correlation id that ties calls to kernels.
pub proof fn rows_say_what_events_said(e: Event, row: EventRow)
    requires
        is_row_of(e, row),
    ensures
        row.ts_ns == e.ts_ns,
        row.duration_ns == e.duration_ns,
        row.node_id == e.node_id,
        e.gpu_id <= 255 ==> row.gpu_id == e.gpu_id,
        row.pid == e.pid,
        row.tid == e.tid,
        row.ctx_id == e.ctx_id,
        row.stream_id == e.stream_id,
        row.name_id == e.name_id,
        row.correlation_id == e.correlation_id,
        row.parent_id == e.parent_id,
        e.payload matches Some(Payload::Metric(m)) ==> row.metric_id == m.metric_id
            && row.metric_value_bits == m.value_bits && row.metric_unit@ == m.unit@,
        e.payload matches Some(Payload::Kernel(k)) ==> {
            &&& row.grid_x == k.grid_x && row.grid_y == k.grid_y && row.grid_z == k.grid_z
            &&& row.block_x == k.block_x && row.block_y == k.block_y && row.block_z == k.block_z
            &&& row.shared_static == k.static_shared_mem_bytes
            &&& row.shared_dynamic == k.dynamic_shared_mem_bytes
            &&& row.registers == k.registers_per_thread
            &&& row.local_mem == k.local_mem_per_thread
            &&& row.launch_cbid == k.launch_cbid
        },
        e.payload matches Some(Payload::Memcpy(m)) ==> {
            &&& row.memcpy_bytes == m.bytes
            &&& row.memcpy_src == m.src_device
            &&& row.memcpy_dst == m.dst_device
            &&& m.kind == MemcpyKind::Unknown <==> row.memcpy_kind == 0
            &&& m.kind == MemcpyKind::H2d <==> row.memcpy_kind == 1
            &&& m.kind == MemcpyKind::D2h <==> row.memcpy_kind == 2
            &&& m.kind == MemcpyKind::D2d <==> row.memcpy_kind == 3
            &&& m.kind == MemcpyKind::H2h <==> row.memcpy_kind == 4
            &&& m.kind == MemcpyKind::P2p <==> row.memcpy_kind == 5
        },
        e.payload matches Some(Payload::Api(a)) ==> row.api_cbid == a.cbid && row.api_status
            == a.status,
        e.payload matches Some(Payload::Marker(m)) ==> {
            &&& row.marker_domain_id == m.domain_id
            &&& row.marker_color == m.color_argb
            &&& row.marker_message_id == m.message_id
        },
        !(e.payload matches Some(Payload::Metric(_))) ==> row.metric_id == 0
            && row.metric_value_bits == 0 && row.metric_unit@.len() == 0,
        !(e.payload matches Some(Payload::Kernel(_))) ==> row.grid_x == 0 && row.block_x == 0
            && row.registers == 0 && row.shared_static == 0 && row.shared_dynamic == 0
            && row.local_mem == 0 && row.launch_cbid == 0,
        !(e.payload matches Some(Payload::Memcpy(_))) ==> row.memcpy_kind == 0
            && row.memcpy_bytes == 0 && row.memcpy_src == 0 && row.memcpy_dst == 0,
        !(e.payload matches Some(Payload::Api(_))) ==> row.api_cbid == 0 && row.api_status == 0,
{
    assert(e.gpu_id <= 255 ==> e.gpu_id as u8 == e.gpu_id);
}

/// The categories of a timeline are told apart in storage.
pub proof fn stored_categories_are_told_apart(c: Category)
    ensures
        c == Category::ApiCall <==> category_code(c) == 2,
        c == Category::Memcpy <==> category_code(c) == 4,
        c == Category::Memset <==> category_code(c) == 5,
        c == Category::Sync <==> category_code(c) == 6,
        c == Category::Overhead <==> category_code(c) == 7,
        c == Category::Marker <==> category_code(c) == 8,
        c == Category::Kernel || c == Category::Sol <==> category_code(c) == 3,
        c == Category::Metric || c == Category::Unspecified <==> category_code(c) == 1,
{
}

/// Events stored are those that are no metrics, in order.
pub proof fn all_but_metrics_are_stored(events: Seq<Event>)
    ensures
        without_metrics(events) == events.filter(|e: Event| e.category != Category::Metric),
    decreases events.len(),
{
    reveal(Seq::filter);
    if events.len() > 0 {
        all_but_metrics_are_stored(events.drop_last());
    }
}

/// Taking a batch in loses nothing that waited: each table keeps its rows and gets
/// one more for every event kept, every announcement and every fit, in order.
pub proof fn batches_are_added_at_the_end(
    before: Pending,
    batch: Batch,
    kept: Seq<Event>,
    after: Pending,
)
    requires
        absorbed(before, batch, kept, after),
    ensures
        after.events@.len() == before.events@.len() + kept.len(),
        after.strings@.len() == before.strings@.len() + batch.strings@.len(),
        after.offsets@.len() == before.offsets@.len() + batch.offsets@.len(),
        after.sol@ == before.sol@,
        after.spikes@ == before.spikes@,
        forall|i: int|
            0 <= i < before.events@.len() ==> #[trigger] after.events@[i] == before.events@[i],
        forall|i: int|
            0 <= i < before.strings@.len() ==> #[trigger] after.strings@[i] == before.strings@[i],
        forall|i: int|
            0 <= i < before.offsets@.len() ==> #[trigger] after.offsets@[i] == before.offsets@[i],
        forall|i: int|
            before.events@.len() <= i < after.events@.len() ==> {
                let row = #[trigger] after.events@[i];
                let e = kept[i - before.events@.len()];
                row.ts_ns == e.ts_ns && row.correlation_id == e.correlation_id && row.name_id
                    == e.name_id && row.duration_ns == e.duration_ns
            },
        forall|i: int|
            before.strings@.len() <= i < after.strings@.len() ==> {
                let row = #[trigger] after.strings@[i];
                let s = batch.strings@[i - before.strings@.len()];
                row.id == s.id && row.text@ == s.text@
            },
        forall|i: int|
            before.offsets@.len() <= i < after.offsets@.len() ==> {
                let row = #[trigger] after.offsets@[i];
                let o = batch.offsets@[i - before.offsets@.len()];
                row.node_id == o.node_id && row.offset_ns == o.offset_ns && row.slope_num
                    == o.slope_num && row.slope_den == o.slope_den && row.residual_max_ns
                    == o.residual_max_ns
            },
{
    let (n, m, k) = (
        before.events@.len() as int,
        before.strings@.len() as int,
        before.offsets@.len() as int,
    );
    assert forall|i: int| 0 <= i < n implies #[trigger] after.events@[i] == before.events@[i] by {
        assert(after.events@.take(n)[i] == after.events@[i]);
    }
    assert forall|i: int| 0 <= i < m implies #[trigger] after.strings@[i] == before.strings@[i] by {
        assert(after.strings@.take(m)[i] == after.strings@[i]);
    }
    assert forall|i: int| 0 <= i < k implies #[trigger] after.offsets@[i] == before.offsets@[i] by {
        assert(after.offsets@.take(k)[i] == after.offsets@[i]);
    }
    assert forall|i: int| n <= i < after.events@.len() implies ({
        let row = #[trigger] after.events@[i];
        let e = kept[i - n];
        row.ts_ns == e.ts_ns && row.correlation_id == e.correlation_id && row.name_id == e.name_id
            && row.duration_ns == e.duration_ns
    }) by {
        assert(after.events@.skip(n)[i - n] == after.events@[i]);
    }
    assert forall|i: int| m <= i < after.strings@.len() implies ({
        let row = #[trigger] after.strings@[i];
        let s = batch.strings@[i - m];
        row.id == s.id && row.text@ == s.text@
    }) by {
        assert(after.strings@.skip(m)[i - m] == after.strings@[i]);
    }
    assert forall|i: int| k <= i < after.offsets@.len() implies ({
        let row = #[trigger] after.offsets@[i];
        let o = batch.offsets@[i - k];
        row.node_id == o.node_id && row.offset_ns == o.offset_ns && row.slope_num == o.slope_num
            && row.slope_den == o.slope_den && row.residual_max_ns == o.residual_max_ns
    }) by {
        assert(after.offsets@.skip(k)[i - k] == after.offsets@[i]);
    }
}

/// The row of a clock fit holds the fit.
pub proof fn fits_are_stored_as_sent(o: ClockOffsetRecord, row: OffsetRow)
    requires
        is_offset_row(o, row),
    ensures
        row.node_id == o.node_id,
        o.gpu_id <= 255 ==> row.gpu_id == o.gpu_id,
        row.offset_ns == o.offset_ns,
        row.slope_num == o.slope_num,
        row.slope_den == o.slope_den,
        row.residual_max_ns == o.residual_max_ns,
{
    assert(o.gpu_id <= 255 ==> o.gpu_id as u8 == o.gpu_id);
}

/// The row of a card holds the card, and its stalls side by side.
pub proof fn cards_are_stored_as_made(node_id: u32, s: KernelSol, row: KernelSolRow)
    requires
        is_sol_row(node_id, s, row),
    ensures
        row.node_id == node_id,
        row.correlation_id == s.correlation_id,
        row.sm_active_pct == s.sm_active_pct,
        row.achieved_occupancy_pct == s.achieved_occupancy_pct,
        row.dram_bw_pct == s.dram_bw_pct,
        row.l1_bw_pct == s.l1_bw_pct,
        row.l2_bw_pct == s.l2_bw_pct,
        row.inst_throughput_pct == s.inst_throughput_pct,
        row.theoretical_occupancy_pct == s.theoretical_occupancy_pct,
        row.arithmetic_intensity == s.arithmetic_intensity,
        row.achieved_gflops == s.achieved_gflops,
        row.stall_reasons@.len() == s.stalls@.len(),
        row.stall_counts@.len() == s.stalls@.len(),
        forall|i: int|
            0 <= i < s.stalls@.len() ==> (#[trigger] s.stalls@[i]).reason_id
                == row.stall_reasons@[i] && s.stalls@[i].count == row.stall_counts@[i],
{
}

/// A flush writes strings first, then events, fits, cards and spikes, and passes
/// over none that has rows.
pub proof fn flushes_go_in_order(p: Pending, rank: int)
    requires
        0 <= rank,
    ensures
        p.next_table(rank) == Some(SinkTable::Strings) <==> rank == 0 && p.strings@.len() > 0,
        p.next_table(rank) == Some(SinkTable::Events) ==> p.events@.len() > 0 && (rank == 0
            ==> p.strings@.len() == 0),
        rank <= 1 && p.events@.len() > 0 ==> p.next_table(rank) == Some(SinkTable::Events)
            || p.next_table(rank) == Some(SinkTable::Strings),
        rank <= 2 && p.offsets@.len() > 0 ==> p.next_table(rank) is Some,
        rank <= 3 && p.sol@.len() > 0 ==> p.next_table(rank) is Some,
        rank <= 4 && p.spikes@.len() > 0 ==> p.next_table(rank) is Some,
        p.next_table(rank) matches Some(t) ==> p.waiting(t) > 0,
        rank == 0 && p.next_table(rank) is None ==> p.events@.len() == 0 && p.strings@.len() == 0
            && p.offsets@.len() == 0 && p.sol@.len() == 0 && p.spikes@.len() == 0,
{
}

} // verus!
