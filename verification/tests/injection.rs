use perfweave::activity::{
    parse_record, ActivityApi, ActivityBuffer, ActivityHeader, ActivityKernel7, ActivityKind,
    ActivityMemcpy6, ActivityMemset4, API_SIZE, BUF_SIZE, KERNEL7_SIZE, MEMCPY6_SIZE, MEMSET4_SIZE,
};
use perfweave::callback::{
    translate_nvtx_callback, NvtxDomainRangePushExParams, NvtxEventAttributes,
};
use perfweave::intern::{hash, Interner};
use perfweave::model::{Bound, Category, Confidence, MemcpyKind, Payload, Source};
use perfweave::pm::{
    classify_bound, reserved_stall_ids, Attribution, HostSampler, PmSample, PERCENT,
};
use perfweave::transport::{
    frame, frame_len, Connecting, Retry, ShipAction, ShipEvent, Shipper, LATE_CONNECT_BUDGET_NS,
    MAX_FRAME_BYTES, RECONNECT_BUDGET_NS,
};

#[test]
fn interner_emits_once() {
    let mut i = Interner::new();
    let (id1, rec1) = i.record("cudaMalloc");
    assert!(rec1.is_some());
    let (id2, rec2) = i.record("cudaMalloc");
    assert_eq!(id1, id2);
    assert!(rec2.is_none());
}

#[test]
fn different_names_different_ids() {
    assert_ne!(hash("cudaMalloc"), hash("cudaFree"));
}

#[test]
fn ids_are_hashes_of_the_bytes() {
    assert_eq!(hash(""), 0x2D06_8005_38D3_94C2);
    assert_eq!(hash("cudaMalloc"), xxhash_rust::xxh3::xxh3_64("cudaMalloc".as_bytes()));
    assert_eq!(hash("größe"), xxhash_rust::xxh3::xxh3_64("größe".as_bytes()));
}

#[test]
fn a_reset_interner_announces_again() {
    let mut i = Interner::default();
    let (id, rec) = i.record("a");
    let rec = rec.expect("first use");
    assert_eq!(rec.id, id);
    assert_eq!(rec.text, "a");
    assert!(i.record("b").1.is_some());
    assert!(i.record("a").1.is_none());
    i.reset();
    assert!(i.record("a").1.is_some());
}

#[test]
fn kernel7_layout_has_no_obvious_drift() {
    let sz = std::mem::size_of::<ActivityKernel7>();
    assert!(sz >= 200, "kernel7 struct too small: {sz}");
    assert!(KERNEL7_SIZE >= 200);
}

#[test]
fn memset4_size_reasonable() {
    let sz = std::mem::size_of::<ActivityMemset4>();
    assert!(sz >= 56 && sz <= 128, "memset4 size unusual: {sz}");
    assert!(MEMSET4_SIZE >= 56 && MEMSET4_SIZE <= 128);
}

fn put32(buf: &mut [u8], at: usize, v: u32) {
    buf[at..at + 4].copy_from_slice(&v.to_le_bytes());
}

fn put64(buf: &mut [u8], at: usize, v: u64) {
    buf[at..at + 8].copy_from_slice(&v.to_le_bytes());
}

#[test]
fn api_records_become_api_calls() {
    let mut buf = vec![0u8; API_SIZE + 3];
    put32(&mut buf, 0, ActivityKind::Runtime.code());
    put32(&mut buf, 4, 211);
    put64(&mut buf, 8, 1_000);
    put64(&mut buf, 16, 1_750);
    put32(&mut buf, 24, 42);
    put32(&mut buf, 28, 43);
    put32(&mut buf, 32, 99);
    put32(&mut buf, 36, 7);
    assert_eq!(ActivityHeader::read(&buf).kind, 5);
    assert_eq!(ActivityApi::read(&buf).cbid, 211);
    let (used, event) = parse_record(&buf, None);
    assert_eq!(used, API_SIZE);
    let e = event.expect("a whole record");
    assert_eq!(e.category, Category::ApiCall);
    assert_eq!(e.ts_ns, 1_000);
    assert_eq!(e.duration_ns, 750);
    assert_eq!(e.pid, 42);
    assert_eq!(e.tid, 43);
    assert_eq!(e.correlation_id, 99);
    assert_eq!(e.name_id, hash("cuApi"));
    match e.payload {
        Some(Payload::Api(a)) => {
            assert_eq!(a.cbid, 211);
            assert_eq!(a.status, 7);
        },
        other => panic!("unexpected payload {other:?}"),
    }
}

#[test]
fn kernel_records_become_kernels() {
    let mut buf = vec![0u8; KERNEL7_SIZE];
    put32(&mut buf, 0, ActivityKind::ConcurrentKernel.code());
    put32(&mut buf, 8, 64);
    put64(&mut buf, 20, 5_000);
    put64(&mut buf, 28, 9_000);
    let k = ActivityKernel7::read(&buf);
    let (used, event) = parse_record(&buf, Some("gemm"));
    let e = event.expect("a whole record");
    assert_eq!(used, KERNEL7_SIZE);
    assert_eq!(e.category, Category::Kernel);
    assert_eq!(e.name_id, hash("gemm"));
    assert_eq!(e.ts_ns, k.start);
    assert_eq!(e.duration_ns, k.end.saturating_sub(k.start));
    let (_, nameless) = parse_record(&buf, None);
    assert_eq!(nameless.unwrap().name_id, hash("<unknown_kernel>"));
}

#[test]
fn copy_kinds_map_to_directions() {
    let want = [
        (1u8, MemcpyKind::H2d),
        (2, MemcpyKind::D2h),
        (3, MemcpyKind::H2h),
        (4, MemcpyKind::D2d),
        (10, MemcpyKind::P2p),
        (77, MemcpyKind::Unknown),
    ];
    for (code, kind) in want {
        let mut buf = vec![0u8; MEMCPY6_SIZE];
        put32(&mut buf, 0, ActivityKind::Memcpy.code());
        buf[4] = code;
        put64(&mut buf, 8, 4_096);
        assert_eq!(ActivityMemcpy6::read(&buf).bytes, 4_096);
        let (used, event) = parse_record(&buf, None);
        assert_eq!(used, MEMCPY6_SIZE);
        match event.unwrap().payload {
            Some(Payload::Memcpy(m)) => {
                assert_eq!(m.kind, kind);
                assert_eq!(m.bytes, 4_096);
            },
            other => panic!("unexpected payload {other:?}"),
        }
    }
}

#[test]
fn fills_are_memsets() {
    let mut buf = vec![0u8; MEMSET4_SIZE];
    put32(&mut buf, 0, ActivityKind::Memset.code());
    put64(&mut buf, 8, 512);
    let (used, event) = parse_record(&buf, None);
    let e = event.unwrap();
    assert_eq!(used, MEMSET4_SIZE);
    assert_eq!(e.category, Category::Memset);
    assert_eq!(e.name_id, hash("cudaMemset"));
}

#[test]
fn short_and_unknown_records() {
    assert_eq!(parse_record(&[1, 2], None).0, 2);
    assert!(parse_record(&[1, 2], None).1.is_none());
    let mut cut = vec![0u8; KERNEL7_SIZE - 1];
    put32(&mut cut, 0, ActivityKind::Kernel.code());
    let (used, event) = parse_record(&cut, None);
    assert_eq!(used, KERNEL7_SIZE - 1);
    assert!(event.is_none());
    let mut other = vec![0u8; 64];
    put32(&mut other, 0, ActivityKind::Overhead.code());
    let (used, event) = parse_record(&other, None);
    assert_eq!(used, 4);
    assert!(event.is_none());
}

#[test]
fn walking_a_buffer_ends_and_ignores_what_follows() {
    let mut buf = vec![0u8; API_SIZE + MEMSET4_SIZE + 2];
    put32(&mut buf, 0, ActivityKind::Driver.code());
    put32(&mut buf, API_SIZE, ActivityKind::Memset.code());
    let mut at = 0;
    let mut events = 0;
    while at < buf.len() {
        let (used, event) = parse_record(&buf[at..], None);
        assert!(used > 0);
        at += used;
        if event.is_some() {
            events += 1;
        }
    }
    assert_eq!(at, buf.len());
    assert_eq!(events, 2);
    let alone = parse_record(&buf[..API_SIZE], None).1.unwrap();
    let followed = parse_record(&buf, None).1.unwrap();
    assert_eq!(alone.ts_ns, followed.ts_ns);
}

#[test]
fn buffers_are_filled_and_read() {
    let mut b = ActivityBuffer::allocate();
    assert_eq!(b.bytes.len(), 8 * 1024 * 1024);
    assert!(b.bytes.iter().all(|x| *x == 0));
    put32(&mut b.bytes, 0, ActivityKind::Driver.code());
    put64(&mut b.bytes, 8, 77);
    let event = parse_record(&b.bytes, None).1.unwrap();
    assert_eq!(event.ts_ns, 77);
}

fn attributes(message: Option<&str>) -> NvtxEventAttributes {
    NvtxEventAttributes {
        version: 2,
        size: 48,
        category: 0,
        color_type: 1,
        color_argb: 0xFF00_FF00,
        payload_type: 0,
        payload_u64: 0,
        message_type: 1,
        message: message.map(|m| m.to_string()),
    }
}

#[test]
fn marks_and_pushes_become_markers() {
    let p = NvtxDomainRangePushExParams { domain: 0xABC, event_attr: Some(attributes(Some("step"))) };
    let e = translate_nvtx_callback("nvtxRangePushEx", Some(&p), 9, 1, 2).unwrap();
    assert_eq!(e.category, Category::Marker);
    assert_eq!((e.ts_ns, e.node_id, e.gpu_id), (9, 1, 2));
    assert_eq!(e.name_id, hash("step"));
    match e.payload {
        Some(Payload::Marker(m)) => {
            assert_eq!(m.domain_id, 0);
            assert_eq!(m.color_argb, 0xFF00_FF00);
            assert_eq!(m.message_id, hash("step"));
        },
        other => panic!("unexpected payload {other:?}"),
    }
    let e = translate_nvtx_callback("nvtxDomainMarkEx", Some(&p), 9, 1, 2).unwrap();
    match e.payload {
        Some(Payload::Marker(m)) => assert_eq!(m.domain_id, hash("0xabc")),
        other => panic!("unexpected payload {other:?}"),
    }
    let silent = NvtxDomainRangePushExParams { domain: 0, event_attr: Some(attributes(None)) };
    let e = translate_nvtx_callback("nvtxMarkEx", Some(&silent), 0, 0, 0).unwrap();
    assert_eq!(e.name_id, hash("<nvtx>"));
}

#[test]
fn other_callbacks_say_nothing() {
    let p = NvtxDomainRangePushExParams { domain: 0, event_attr: Some(attributes(Some("x"))) };
    let bare = NvtxDomainRangePushExParams { domain: 0, event_attr: None };
    assert!(translate_nvtx_callback("nvtxRangePop", Some(&p), 0, 0, 0).is_none());
    assert!(translate_nvtx_callback("nvtxMarkEx", None, 0, 0, 0).is_none());
    assert!(translate_nvtx_callback("nvtxMarkEx", Some(&bare), 0, 0, 0).is_none());
}

#[test]
fn attribution_needs_five_samples() {
    let mut a = Attribution::default();
    let s = PmSample {
        sm_active: 80 * PERCENT,
        occupancy: 75 * PERCENT,
        dram_bw: 10 * PERCENT,
        inst_tp: 60 * PERCENT,
    };
    for _ in 0..4 {
        a.add(s);
    }
    assert!(a.finalize(1).is_none(), "4 samples should be too few");
    a.add(s);
    let card = a.finalize(1).expect("5 samples should emit");
    assert!(card.sm_active > 70 * PERCENT);
    assert_eq!(card.bound, Bound::Compute);
    assert_eq!(card.confidence, Confidence::Low);
    assert_eq!(card.source, Source::HostSampling);
}

#[test]
fn classify_memory_bound() {
    assert_eq!(classify_bound(30 * PERCENT, 85 * PERCENT, 20 * PERCENT), Bound::Memory);
}

#[test]
fn classify_compute_bound() {
    assert_eq!(classify_bound(85 * PERCENT, 20 * PERCENT, 70 * PERCENT), Bound::Compute);
}

#[test]
fn classify_latency_bound_when_idle() {
    assert_eq!(classify_bound(10 * PERCENT, 10 * PERCENT, 10 * PERCENT), Bound::Latency);
}

#[test]
fn classify_balanced_when_neither_leads() {
    assert_eq!(classify_bound(60 * PERCENT, 65 * PERCENT, 10 * PERCENT), Bound::Balanced);
    assert_eq!(classify_bound(30 * PERCENT, 40 * PERCENT - 1, 0), Bound::Balanced);
}

#[test]
fn ten_points_make_a_winner() {
    assert_eq!(classify_bound(50 * PERCENT, 60 * PERCENT, 0), Bound::Memory);
    assert_eq!(classify_bound(30 * PERCENT, 40 * PERCENT, 0), Bound::Memory);
    assert_eq!(classify_bound(60 * PERCENT, 50 * PERCENT, 0), Bound::Compute);
}

#[test]
fn occupancy_votes_and_instructions_do_not() {
    let card = |occupancy: u32, inst_tp: u32| {
        let mut a = Attribution::default();
        for _ in 0..5 {
            a.add(PmSample { sm_active: 40 * PERCENT, occupancy, dram_bw: 40 * PERCENT, inst_tp });
        }
        a.finalize(1).unwrap()
    };
    assert_eq!(card(40 * PERCENT, 0).bound, Bound::Balanced);
    assert_eq!(card(40 * PERCENT, 90 * PERCENT).bound, Bound::Balanced);
    assert_eq!(card(90 * PERCENT, 0).bound, Bound::Compute);
}

#[test]
fn host_sampler_drops_underfilled_buckets() {
    let mut hs = HostSampler::new();
    let s = PmSample {
        sm_active: 50 * PERCENT,
        occupancy: 50 * PERCENT,
        dram_bw: 50 * PERCENT,
        inst_tp: 50 * PERCENT,
    };
    for i in 0..4 {
        hs.sample(0, 100, s);
        if i < 5 {
            hs.sample(0, 200, s);
        }
    }
    hs.sample(0, 200, s);
    let cards = hs.drain_cards();
    assert_eq!(cards.len(), 1);
    assert_eq!(cards[0].correlation_id, 200);
    assert!(hs.drain_cards().is_empty());
}

#[test]
fn cards_hold_the_means() {
    let mut a = Attribution::default();
    for i in 0..5u32 {
        a.add(PmSample {
            sm_active: i * PERCENT,
            occupancy: 10 * PERCENT,
            dram_bw: 2 * i * PERCENT,
            inst_tp: 7,
        });
    }
    let card = a.finalize(3).unwrap();
    assert_eq!(card.correlation_id, 3);
    assert_eq!(card.sm_active, 2 * PERCENT);
    assert_eq!(card.achieved_occupancy, 10 * PERCENT);
    assert_eq!(card.dram_bw, 4 * PERCENT);
    assert_eq!(card.inst_throughput, 7);
    assert_eq!(card.bound, Bound::Latency);
}

#[test]
fn stall_ids_are_name_hashes() {
    let ids = reserved_stall_ids();
    assert_eq!(ids.len(), 5);
    assert_eq!(ids[0].reason_id, hash("MemoryThrottle") as u32);
    assert_eq!(ids[1].reason_id, hash("Barrier") as u32);
    assert!(ids.iter().all(|s| s.count == 0));
}

#[test]
fn frames_carry_their_length() {
    let out = frame(&vec![7u8; 300]);
    assert_eq!(&out[..4], &[44, 1, 0, 0]);
    assert_eq!(out.len(), 304);
    assert_eq!(frame_len(&[44, 1, 0, 0]), Some(300));
    assert_eq!(frame_len(&(MAX_FRAME_BYTES as u32).to_le_bytes()), Some(MAX_FRAME_BYTES));
    assert_eq!(frame_len(&(MAX_FRAME_BYTES as u32 + 1).to_le_bytes()), None);
}

#[test]
fn frames_follow_each_other() {
    let mut wire = frame(&vec![1u8, 2, 3]);
    wire.extend(frame(&vec![9u8]));
    let n = frame_len(&[wire[0], wire[1], wire[2], wire[3]]).unwrap();
    assert_eq!(&wire[4..4 + n], &[1, 2, 3]);
    let rest = &wire[4 + n..];
    assert_eq!(frame_len(&[rest[0], rest[1], rest[2], rest[3]]), Some(1));
    assert_eq!(&rest[4..], &[9]);
}

#[test]
fn connection_pauses_double_up_to_the_maximum() {
    let mut c: Connecting<&str> = Connecting::within(10_000_000_000);
    let ms = [50u64, 100, 200, 400, 500, 500];
    for want in ms {
        match c.failed(0, "refused") {
            Retry::PauseNs(ns) => assert_eq!(ns, want * 1_000_000),
            Retry::GiveUp(e) => panic!("gave up: {e}"),
        }
    }
    match c.failed(9_900_000_000, "late") {
        Retry::PauseNs(ns) => assert_eq!(ns, 100_000_000),
        Retry::GiveUp(e) => panic!("gave up: {e}"),
    }
    match c.failed(10_000_000_000, "last") {
        Retry::PauseNs(ns) => panic!("paused {ns}"),
        Retry::GiveUp(e) => assert_eq!(e, "late"),
    }
}

#[test]
fn shipping_reconnects_once() {
    let mut s = Shipper::new(false);
    assert_eq!(s.ship(), ShipAction::Connect(LATE_CONNECT_BUDGET_NS));
    assert_eq!(s.after(ShipEvent::Connected), ShipAction::Write);
    assert_eq!(s.after(ShipEvent::Written), ShipAction::Done);
    assert_eq!(s.dropped_batches, 0);
    assert_eq!(s.ship(), ShipAction::Write);
    assert_eq!(s.after(ShipEvent::WriteFailed), ShipAction::Connect(RECONNECT_BUDGET_NS));
    assert_eq!(s.after(ShipEvent::Connected), ShipAction::Write);
    assert_eq!(s.after(ShipEvent::WriteFailed), ShipAction::Done);
    assert_eq!(s.dropped_batches, 1);
}

#[test]
fn a_batch_written_at_the_second_attempt_is_not_dropped() {
    let mut s = Shipper::new(true);
    assert_eq!(s.ship(), ShipAction::Write);
    assert_eq!(s.after(ShipEvent::WriteFailed), ShipAction::Connect(RECONNECT_BUDGET_NS));
    assert_eq!(s.dropped_batches, 0);
    assert_eq!(s.after(ShipEvent::Connected), ShipAction::Write);
    assert_eq!(s.after(ShipEvent::Written), ShipAction::Done);
    assert_eq!(s.dropped_batches, 0);
    s.ship();
    s.after(ShipEvent::WriteFailed);
    assert_eq!(s.after(ShipEvent::Unreachable), ShipAction::Done);
    assert_eq!(s.dropped_batches, 1);
}

#[test]
fn shipping_without_an_agent_drops_the_batch() {
    let mut s = Shipper::new(false);
    s.ship();
    assert_eq!(s.after(ShipEvent::Unreachable), ShipAction::Done);
    assert_eq!(s.dropped_batches, 1);
    assert!(!s.connected);
}
