use perfweave::fast_ring::{FastRing, Sample, SeriesKey, FAST_CAPACITY, SLOW_CAPACITY};
use perfweave::ingest::{absorb_batch, IngestReply, IngestTotals, NodeIds, QueueOutcome};
use perfweave::live::build_metric_frame;
use perfweave::migrations::{preview, split_statements, statement_to_send};
use perfweave::model::{
    Ack, AgentHello, ApiCallDetail, Batch, Bound, Category, ClockOffsetRecord, Confidence, Event,
    KernelDetail, KernelSol, MarkerDetail, MemcpyDetail, MemcpyKind, MetricFrame, MetricPoint,
    MetricSample, Payload, Source, StallCount, StringIntern,
};
use perfweave::replay::AgentRegistry;
use perfweave::sink::{
    category_to_i8, memcpy_kind_to_i8, EventRow, FlushAction, KernelSolRow, OffsetRow, Pending,
    SinkConfig, SinkMsg, SinkTable, SpikeRow,
};
use perfweave::skew::SkewTable;
use perfweave::spike_detect::{
    candidates, escalates, median_of, recent_values, Reading, SpikeEvent, SpikeGate,
};

#[test]
fn basic_push_and_snapshot() {
    let mut r = FastRing::new();
    let k = SeriesKey { node_id: 0, gpu_id: 0, metric_id: 42 };
    for i in 0..5u64 {
        r.push(k, Sample { ts_ns: i * 1_000_000_000, value_bits: (i as f64).to_bits() });
    }
    r.publish();
    let snap = r.snapshot();
    let s = snap.get(&k).expect("series present");
    assert_eq!(s.fast.len(), 5);
    assert_eq!(s.slow.len(), 5);
    assert_eq!(f64::from_bits(s.fast.first().unwrap().value_bits), 0.0);
    assert_eq!(f64::from_bits(s.fast.last().unwrap().value_bits), 4.0);
}

#[test]
fn slow_ring_decimates_high_rate_inputs() {
    let mut r = FastRing::new();
    let k = SeriesKey { node_id: 0, gpu_id: 0, metric_id: 1 };
    for i in 0..2_000u64 {
        r.push(k, Sample { ts_ns: i * 1_000_000, value_bits: (i as f64).to_bits() });
    }
    r.publish();
    let snap = r.snapshot();
    let s = snap.get(&k).unwrap();
    assert!(s.slow.len() >= 2 && s.slow.len() <= 3, "got {}", s.slow.len());
    assert_eq!(s.fast.len(), FAST_CAPACITY);
}

#[test]
fn tails_keep_the_newest_samples_in_order() {
    let mut r = FastRing::new();
    let k = SeriesKey { node_id: 1, gpu_id: 2, metric_id: 3 };
    for i in 0..250u64 {
        r.push(k, Sample { ts_ns: i * 1_000_000_000, value_bits: i });
    }
    assert!(r.snapshot().get(&k).is_none());
    r.publish();
    let snap = r.snapshot();
    let s = snap.get(&k).unwrap();
    let fast: Vec<u64> = s.fast.iter().map(|x| x.value_bits).collect();
    assert_eq!(fast, (150..250).collect::<Vec<u64>>());
    assert_eq!(s.slow.len(), SLOW_CAPACITY);
    assert_eq!(s.slow[0].value_bits, 130);
    assert_eq!(snap.keys(), vec![k]);
}

#[test]
fn series_keys_pack_and_unpack() {
    let k = SeriesKey { node_id: 7, gpu_id: u32::MAX, metric_id: 0x1234_5678_9ABC_DEF0 };
    assert_eq!(SeriesKey::unpacked(k.packed()), k);
    let other = SeriesKey { node_id: 8, ..k };
    assert_ne!(k.packed(), other.packed());
}

fn event(category: Category, ts_ns: u64, gpu_id: u32, payload: Option<Payload>) -> Event {
    Event {
        ts_ns,
        duration_ns: 10,
        node_id: 1,
        gpu_id,
        pid: 2,
        tid: 3,
        ctx_id: 4,
        stream_id: 5,
        category,
        name_id: 6,
        correlation_id: 7,
        parent_id: 8,
        payload,
    }
}

fn metric(ts_ns: u64, metric_id: u64, value: f64) -> Event {
    let m = MetricSample { metric_id, value_bits: value.to_bits(), unit: "pct".to_string() };
    event(Category::Metric, ts_ns, 0, Some(Payload::Metric(m)))
}

fn offset(offset_ns: i64, slope_num: i64, slope_den: i64) -> ClockOffsetRecord {
    ClockOffsetRecord {
        node_id: 1,
        gpu_id: 0,
        offset_ns,
        slope_num,
        slope_den,
        residual_max_ns: 9,
    }
}

#[test]
fn timestamps_wait_for_a_fit() {
    let mut t = SkewTable::new();
    assert_eq!(t.map(1, 0, 5), 5);
    assert_eq!(t.latest_residual_ns(), None);
    assert_eq!(t.newest_update_host_ns(), None);
    t.upsert(&offset(1_000, 2, 1));
    assert_eq!(t.map(1, 0, 5), 1_010);
    assert_eq!(t.map(1, 1, 5), 5);
    assert_eq!(t.map(2, 0, 5), 5);
    assert_eq!(t.latest_residual_ns(), Some(9));
    assert!(t.newest_update_host_ns().unwrap() > 1_500_000_000_000_000_000);
}

#[test]
fn times_are_kept_with_what_was_made() {
    let mut t = SkewTable::new();
    t.upsert_at(&offset(1_000, 1, 1), 42);
    assert_eq!(t.newest_update_host_ns(), Some(42));
    let mut fast = FastRing::new();
    assert_eq!(fast.snapshot().published_at_ns, 0);
    fast.publish_at(43);
    assert_eq!(fast.snapshot().published_at_ns, 43);
    fast.publish();
    assert!(fast.snapshot().published_at_ns > 1_500_000_000_000_000_000);
    assert_eq!(KernelSolRow::from_proto_at(9, card(), 44).ts_ns, 44);
    let row = OffsetRow::at(&offset(1_000, 2, 1), 45);
    assert_eq!((row.fitted_at_ns, row.offset_ns, row.slope_num), (45, 1_000, 2));
}

#[test]
fn later_fits_replace_earlier_ones() {
    let mut t = SkewTable::new();
    t.upsert(&offset(1_000, 1, 1));
    t.upsert(&offset(-3, 1, 0));
    assert_eq!(t.map(1, 0, 5), 2);
    assert_eq!(t.map(1, 0, 1), 0);
    for gpu in 0..50u32 {
        let mut c = offset(gpu as i64, 1, 1);
        c.gpu_id = gpu;
        c.residual_max_ns = 100 + gpu as u64;
        t.upsert(&c);
    }
    assert_eq!(t.map(1, 49, 1), 50);
    assert_eq!(t.latest_residual_ns(), Some(149));
}

#[test]
fn batches_are_split_between_storage_and_live_tails() {
    let mut skew = SkewTable::new();
    let mut fast = FastRing::new();
    let batch = Batch {
        events: vec![
            event(Category::Kernel, 100, 0, None),
            metric(200, 11, 3.5),
            event(Category::Marker, 300, 0, None),
            event(Category::Memcpy, 400, 1, None),
            event(Category::Memset, 600, 0, None),
        ],
        strings: vec![StringIntern { id: 1, text: "k".to_string() }],
        offsets: vec![offset(50, 1, 1)],
        metric_frames: vec![MetricFrame {
            node_id: 1,
            gpu_id: 0,
            ts_ns: 500,
            points: vec![MetricPoint { metric_id: 12, value_bits: 1.25f64.to_bits() }],
        }],
    };
    let out = absorb_batch(batch, &mut skew, &mut fast);
    assert_eq!(out.rows, 5);
    let times: Vec<u64> = out.to_sink.events.iter().map(|e| e.ts_ns).collect();
    assert_eq!(times, vec![150, 300, 400, 650]);
    assert_eq!(out.to_sink.strings.len(), 1);
    assert_eq!(out.to_sink.offsets.len(), 1);
    assert!(out.to_sink.metric_frames.is_empty());
    assert_eq!(out.kernels.len(), 1);
    assert_eq!(out.kernels[0].ts_ns, 150);
    fast.publish();
    let snap = fast.snapshot();
    let m = snap.get(&SeriesKey { node_id: 1, gpu_id: 0, metric_id: 11 }).unwrap();
    assert_eq!(m.fast[0].ts_ns, 200);
    let f = snap.get(&SeriesKey { node_id: 1, gpu_id: 0, metric_id: 12 }).unwrap();
    assert_eq!(f.fast[0].ts_ns, 500);
    assert_eq!(f64::from_bits(f.fast[0].value_bits), 1.25);
}

#[test]
fn every_event_is_accepted_or_dropped() {
    let mut t = IngestTotals::new();
    assert_eq!(
        t.settle(5, QueueOutcome::Taken),
        IngestReply::Acknowledge(Ack { accepted: 5, dropped: 0 })
    );
    assert_eq!(
        t.settle(7, QueueOutcome::Full),
        IngestReply::Acknowledge(Ack { accepted: 5, dropped: 7 })
    );
    assert_eq!(t.settle(9, QueueOutcome::Closed), IngestReply::Unavailable);
    assert_eq!(t.accepted + t.dropped, 12);
}

fn hello(node_id: u32, addr: &str) -> AgentHello {
    AgentHello {
        node_id,
        hostname: "host".to_string(),
        agent_version: "1".to_string(),
        num_gpus: 2,
        agent_rpc_addr: addr.to_string(),
    }
}

#[test]
fn node_ids_are_handed_out_in_turn() {
    let mut ids = NodeIds::new();
    assert_eq!(ids.assign(&hello(0, "")), 1);
    assert_eq!(ids.assign(&hello(40, "")), 40);
    assert_eq!(ids.assign(&hello(0, "")), 2);
}

#[test]
fn replays_go_to_the_last_registration() {
    let mut r = AgentRegistry::new();
    let e = r.replay_target(3).unwrap_err();
    assert_eq!(e.message(), "node 3 not registered");
    r.register(3, &hello(3, ""));
    assert_eq!(
        r.replay_target(3).unwrap_err().message(),
        "agent on node 3 did not advertise an RPC address; build with --features cupti-replay"
    );
    r.register(3, &hello(3, "http://a"));
    r.register(3, &hello(3, "http://b"));
    assert_eq!(r.replay_target(3).unwrap(), "http://b");
    assert_eq!(r.get(3).unwrap().hostname, "host");
    assert!(r.get(4).is_none());
}

#[test]
fn live_frames_list_each_gpu_once() {
    let mut fast = FastRing::new();
    for (gpu_id, metric_id) in [(1u32, 5u64), (0, 9), (1, 2), (0, 3)] {
        let k = SeriesKey { node_id: 0, gpu_id, metric_id };
        fast.push(k, Sample { ts_ns: 1, value_bits: 1.0f64.to_bits() });
        fast.push(k, Sample { ts_ns: 2, value_bits: 2.0f64.to_bits() });
    }
    fast.publish();
    let frame = build_metric_frame(&fast.snapshot());
    let gpus: Vec<u32> = frame.gpus.iter().map(|g| g.gpu_id).collect();
    assert_eq!(gpus, vec![0, 1]);
    for g in &frame.gpus {
        assert_eq!(g.metrics.len(), 2);
        assert!(g.metrics.iter().all(|p| f64::from_bits(p.value_bits) == 2.0));
    }
}

#[test]
fn rows_carry_the_payload_of_their_event() {
    let k = KernelDetail {
        grid_x: 1,
        grid_y: 2,
        grid_z: 3,
        block_x: 4,
        block_y: 5,
        block_z: 6,
        static_shared_mem_bytes: 7,
        dynamic_shared_mem_bytes: 8,
        registers_per_thread: 9,
        local_mem_per_thread: 10,
        launch_cbid: 11,
    };
    let row = EventRow::from(event(Category::Kernel, 5, 300, Some(Payload::Kernel(k))));
    assert_eq!(row.gpu_id, 44);
    assert_eq!(row.category, 3);
    assert_eq!((row.grid_x, row.block_z, row.launch_cbid), (1, 6, 11));
    assert_eq!(row.memcpy_bytes, 0);
    let m = MemcpyDetail { kind: MemcpyKind::P2p, bytes: 64, src_device: 1, dst_device: 2 };
    let row = EventRow::from(event(Category::Memcpy, 5, 0, Some(Payload::Memcpy(m))));
    assert_eq!((row.memcpy_kind, row.memcpy_bytes, row.memcpy_src, row.memcpy_dst), (5, 64, 1, 2));
    assert_eq!(row.grid_x, 0);
    let a = ApiCallDetail { cbid: 12, status: 13 };
    let row = EventRow::from(event(Category::ApiCall, 5, 0, Some(Payload::Api(a))));
    assert_eq!((row.api_cbid, row.api_status), (12, 13));
    let mk = MarkerDetail { domain_id: 14, color_argb: 15, message_id: 16 };
    let row = EventRow::from(event(Category::Marker, 5, 0, Some(Payload::Marker(mk))));
    assert_eq!((row.marker_domain_id, row.marker_color, row.marker_message_id), (14, 15, 16));
    let row = EventRow::from(metric(1, 2, 0.5));
    assert_eq!((row.metric_id, f64::from_bits(row.metric_value_bits)), (2, 0.5));
    assert_eq!(row.metric_unit, "pct");
}

#[test]
fn column_codes() {
    assert_eq!(category_to_i8(Category::Unspecified), 1);
    assert_eq!(category_to_i8(Category::Marker), 8);
    assert_eq!(category_to_i8(Category::Sol), 3);
    assert_eq!(memcpy_kind_to_i8(MemcpyKind::D2d), 3);
    assert_eq!(SinkTable::ClockOffsets.name(), "clock_offsets");
    assert_eq!(SinkTable::Spikes.name(), "spikes");
}

#[test]
fn message_codes_read_back() {
    for n in 0..=9 {
        assert_eq!(Category::of_code(n).code(), n);
    }
    assert_eq!(Category::of_code(3), Category::Kernel);
    assert_eq!(Category::of_code(77), Category::Unspecified);
    assert_eq!(MemcpyKind::of_code(3), MemcpyKind::D2d);
    assert_eq!(MemcpyKind::of_code(-1), MemcpyKind::Unknown);
    assert_eq!(Bound::of_code(i32::from(Bound::Latency.code())), Bound::Latency);
    assert_eq!(Confidence::of_code(2), Confidence::High);
    assert_eq!(Source::of_code(9), Source::Unspecified);
}

fn card() -> KernelSol {
    KernelSol {
        correlation_id: 5,
        sm_active_pct: 1.5f32.to_bits(),
        achieved_occupancy_pct: 0,
        dram_bw_pct: 0,
        l1_bw_pct: 0,
        l2_bw_pct: 0,
        inst_throughput_pct: 0,
        theoretical_occupancy_pct: 0,
        arithmetic_intensity: 0,
        achieved_gflops: 0,
        bound: Bound::Memory,
        confidence: Confidence::High,
        source: Source::Replay,
        stalls: vec![
            StallCount { reason_id: 1, count: 10 },
            StallCount { reason_id: 2, count: 20 },
        ],
    }
}

fn spike() -> SpikeRow {
    SpikeRow {
        bucket_start_ns: 1,
        bucket_width_ns: 2,
        node_id: 3,
        gpu_id: 4,
        metric_id: 5,
        value_bits: 6,
        median_bits: 7,
        mad_bits: 8,
        z_mad_bits: 9,
    }
}

#[test]
fn cards_become_rows() {
    let row = KernelSolRow::from_proto(9, card());
    assert_eq!(row.node_id, 9);
    assert_eq!(row.correlation_id, 5);
    assert_eq!(f32::from_bits(row.sm_active_pct), 1.5);
    assert_eq!(row.stall_reasons, vec![1, 2]);
    assert_eq!(row.stall_counts, vec![10, 20]);
    assert_eq!(row.bound, Bound::Memory.code());
}

fn small_batch() -> Batch {
    Batch {
        events: vec![event(Category::Kernel, 1, 0, None), metric(1, 1, 1.0)],
        strings: vec![StringIntern { id: 1, text: "s".to_string() }],
        offsets: vec![offset(1, 1, 1)],
        metric_frames: Vec::new(),
    }
}

#[test]
fn a_flush_writes_every_table_with_rows() {
    let mut p = Pending::new();
    assert!(!p.flush_due());
    assert!(!p.receive(SinkMsg::Batch(small_batch()), 2, false));
    assert!(p.receive(SinkMsg::Batch(small_batch()), 2, false));
    assert!(p.receive(SinkMsg::Spike(spike()), 2, false));
    assert!(p.receive(SinkMsg::KernelSol { node_id: 1, sol: card() }, 2, false));
    assert_eq!(p.events.len(), 2);
    assert!(p.flush_due());
    let mut action = p.begin_flush();
    let mut written = Vec::new();
    while let FlushAction::Insert(t) = action {
        written.push(t.name());
        action = p.after_insert(t, true);
    }
    assert_eq!(action, FlushAction::Flushed);
    assert_eq!(written, vec!["strings", "events", "clock_offsets", "kernel_sol", "spikes"]);
    assert!(!p.flush_due());
}

#[test]
fn a_failed_insert_keeps_every_row() {
    let mut p = Pending::new();
    p.absorb(small_batch());
    assert_eq!(p.begin_flush(), FlushAction::Insert(SinkTable::Strings));
    assert_eq!(p.after_insert(SinkTable::Strings, true), FlushAction::Insert(SinkTable::Events));
    assert_eq!(p.after_insert(SinkTable::Events, false), FlushAction::Kept);
    assert_eq!(p.events.len(), 1);
    assert_eq!(p.strings.len(), 1);
    assert_eq!(Pending::new().begin_flush(), FlushAction::Flushed);
}

#[test]
fn a_collector_without_tails_stores_metrics_too() {
    let mut p = Pending::new();
    p.absorb_all(small_batch());
    assert_eq!(p.events.len(), 2);
    assert!(p.receive(SinkMsg::Batch(small_batch()), 4, true));
    assert_eq!(SinkConfig::default().max_batch_rows, 50_000);
}

#[test]
fn sql_is_split_at_line_ends() {
    let sql = "-- create\nCREATE TABLE a (x UInt8);\n\n  -- note\nSELECT ';'\nFROM a;\nSELECT 2";
    let parts = split_statements(sql);
    assert_eq!(
        parts,
        vec!["CREATE TABLE a (x UInt8);\n", "\nSELECT ';'\nFROM a;\n", "SELECT 2\n"]
    );
    assert_eq!(statement_to_send(&parts[1]).unwrap(), "SELECT ';'\nFROM a;");
    assert!(statement_to_send("  \n").is_none());
    assert!(statement_to_send("-- only a comment").is_none());
    assert!(split_statements("  \n-- x\n").is_empty());
}

#[test]
fn previews_are_cut() {
    assert_eq!(preview("short"), "short");
    assert_eq!(preview(&"é".repeat(100)), "é".repeat(80));
}

fn bits(values: &[f64]) -> Vec<u64> {
    values.iter().map(|v| v.to_bits()).collect()
}

#[test]
fn medians_order_by_value() {
    assert_eq!(median_of(&bits(&[])), None);
    assert_eq!(median_of(&bits(&[3.0, -1.0, 2.0])).map(f64::from_bits), Some(2.0));
    assert_eq!(median_of(&bits(&[-5.0, -1.0, -3.0])).map(f64::from_bits), Some(-3.0));
    assert_eq!(median_of(&bits(&[1.0, 2.0, 3.0, 4.0])).map(f64::from_bits), Some(3.0));
}

#[test]
fn mad_ignores_big_single_point() {
    let mut slow: Vec<Sample> = (0..120)
        .map(|i| Sample { ts_ns: (i as u64) * 1_000_000_000, value_bits: 10.0f64.to_bits() })
        .collect();
    slow[42].value_bits = 9999.0f64.to_bits();
    for values in [recent_values(&slow), slow.iter().map(|s| s.value_bits).collect()] {
        let median = f64::from_bits(median_of(&values).unwrap());
        let deviations: Vec<u64> =
            values.iter().map(|v| (f64::from_bits(*v) - median).abs().to_bits()).collect();
        let mad = f64::from_bits(median_of(&deviations).unwrap()) * 1.4826;
        assert!((median - 10.0).abs() < 1e-6);
        assert!(mad.abs() < 1e-6, "mad {mad}");
    }
}

#[test]
fn a_stream_is_answered_batch_by_batch() {
    let (mut skew, mut fast) = (SkewTable::new(), FastRing::new());
    let mut totals = IngestTotals::new();
    let mut stored: Vec<u64> = Vec::new();
    let mut announced: Vec<u64> = Vec::new();
    let mut answered: Vec<u64> = Vec::new();
    let runs = [(QueueOutcome::Taken, 0), (QueueOutcome::Full, 10), (QueueOutcome::Taken, 20)];
    for (outcome, fit) in runs {
        let batch = Batch {
            events: vec![event(Category::Kernel, 100, 0, None), metric(200, 11, 3.5)],
            strings: Vec::new(),
            offsets: vec![offset(fit, 1, 1)],
            metric_frames: Vec::new(),
        };
        let out = absorb_batch(batch, &mut skew, &mut fast);
        announced.extend(out.kernels.iter().map(|k| k.ts_ns));
        if outcome == QueueOutcome::Taken {
            stored.extend(out.to_sink.events.iter().map(|e| e.ts_ns));
        }
        match totals.settle(out.rows, outcome) {
            IngestReply::Acknowledge(ack) => answered.push(ack.accepted + ack.dropped),
            IngestReply::Unavailable => panic!("storage is there"),
        }
    }
    assert_eq!(answered, vec![2, 4, 6]);
    assert_eq!(stored, vec![100, 120]);
    assert_eq!(announced, vec![100, 110, 120]);
}

#[test]
fn only_the_last_minute_counts() {
    let slow: Vec<Sample> = (0..120u64)
        .map(|i| Sample { ts_ns: i * 1_000_000_000, value_bits: i })
        .collect();
    let recent = recent_values(&slow);
    assert_eq!(recent.len(), 61);
    assert_eq!(recent[0], 59);
    assert!(recent_values(&Vec::new()).is_empty());
}

#[test]
fn candidates_carry_the_latest_sample() {
    let mut fast = FastRing::new();
    let k = SeriesKey { node_id: 0, gpu_id: 0, metric_id: 1 };
    fast.push(k, Sample { ts_ns: 5, value_bits: 50 });
    fast.push(k, Sample { ts_ns: 6, value_bits: 60 });
    fast.publish();
    let found = candidates(&fast.snapshot());
    assert_eq!(found.len(), 1);
    assert_eq!(found[0].latest.ts_ns, 6);
    let ev = SpikeEvent::of(&found[0], 1, 2, 3);
    assert_eq!((ev.bucket_start_ns, ev.value_bits), (6, 60));
    assert_eq!(ev.row().metric_id, 1);
}

#[test]
fn spikes_are_rate_limited() {
    let mut g = SpikeGate::new();
    let mut r = Reading {
        key: SeriesKey { node_id: 0, gpu_id: 0, metric_id: 1 },
        latest_ts: 100_000_000_000,
        samples_seen: 100,
        z_over: true,
        mad_positive: true,
        mad_z_over: true,
    };
    assert!(g.judge(&r));
    r.latest_ts += 9_999_999_999;
    assert!(!g.judge(&r));
    r.latest_ts += 1;
    assert!(g.judge(&r));
    r.latest_ts += 20_000_000_000;
    r.mad_z_over = false;
    assert!(!g.judge(&r));
    r.mad_z_over = true;
    r.mad_positive = false;
    assert!(!g.judge(&r));
    r.mad_positive = true;
    r.samples_seen = 3;
    assert!(!g.judge(&r));
    assert!(!escalates(15, true));
    assert!(escalates(16, true));
    assert!(!escalates(16, false));
}
