use perfweave::clock::ClockOffset;
use perfweave::config::{
    browser_url, default_grpc_listen, default_http_listen, local_collector_url, local_hostname,
    logs_as_json, AgentConfig, AppConfig, ChConfig, Host, Opts, SamplerChoice,
};
use perfweave::doctor::{
    check_clickhouse, check_cupti, check_dcgm, check_nsys, check_nvml, check_os, cupti_candidates,
    dcgm_candidates, LibraryProbe, NvmlProbe, Report, Status,
};
use perfweave::imports::{
    import_dir_name, import_stats_sql, kernel_import_sql, stamp, upload_name, uuid_like,
    ImportResult,
};
use perfweave::intern::{hash, Interner};
use perfweave::model::{
    Bound, Category, Confidence, Event, MetricFrame, MetricSample, Payload, ProfileRequest, Source,
};
use perfweave::ring::EventRing;
use perfweave::rpc_server::AgentRpcServer;
use perfweave::sampler::nvml::{self, NvmlReadings};
use perfweave::sampler::synthetic::{
    copy_event, draw_copy, draw_detail, draw_launch, draw_launches, launch_events, metric_frame,
    CopyDraw, GpuDraw, Launch, SyntheticIds, SyntheticSampler, Transfer,
};
use perfweave::sampler::tegra::{
    self, choose_gpu_nodes, discover_paths, gpu_temperature, is_tegra, keep_zone, parse_meminfo,
    rail_input_file, rail_label, rail_label_file, DevfreqProbe, RailProbe, TegraReadings,
    ZoneProbe, ZoneReading,
};
use perfweave::sampler::period_ms;
use perfweave::uploader::{next_batch, Reconnection, UploadAction, UploadEvent, UploaderConfig};

fn event(category: Category, ts_ns: u64) -> Event {
    Event {
        ts_ns,
        duration_ns: 0,
        node_id: 0,
        gpu_id: 0,
        pid: 0,
        tid: 0,
        ctx_id: 0,
        stream_id: 0,
        category,
        name_id: 0,
        correlation_id: 0,
        parent_id: 0,
        payload: None,
    }
}

fn frame(ts_ns: u64) -> MetricFrame {
    MetricFrame { node_id: 0, gpu_id: 0, ts_ns, points: Vec::new() }
}

#[test]
fn pushes_wait_in_order_or_are_counted() {
    assert!(!EventRing::new(2).has_events());
    let mut r = EventRing::new(3);
    for i in 0..5 {
        r.push(event(Category::Kernel, i));
    }
    assert_eq!(r.dropped_count(), 2);
    let first: Vec<u64> = r.drain_up_to(2).iter().map(|e| e.ts_ns).collect();
    assert_eq!(first, vec![0, 1]);
    r.push(event(Category::Kernel, 9));
    let rest: Vec<u64> = r.drain_up_to(100).iter().map(|e| e.ts_ns).collect();
    assert_eq!(rest, vec![2, 9]);
    assert_eq!(r.take_dropped(), 2);
    assert_eq!(r.take_dropped(), 0);
    assert!(r.drain_up_to(5).is_empty());
}

#[test]
fn frames_travel_apart_from_events() {
    let mut r = EventRing::new(1);
    r.push(event(Category::Kernel, 1));
    r.push_frame(frame(2));
    let frames = r.drain_frames();
    assert_eq!(frames.len(), 1);
    assert_eq!(frames[0].ts_ns, 2);
    assert!(r.drain_frames().is_empty());
    assert_eq!(r.take_dropped_frames(), 0);
    assert_eq!(r.drain_up_to(10).len(), 1);
}

fn shifted() -> ClockOffset {
    ClockOffset {
        offset_ns: 1_000,
        slope_num: 1,
        slope_den: 1,
        residual_max_ns: 0,
        fitted_at_host_ns: 0,
    }
}

#[test]
fn batches_are_corrected_and_announce_units_once() {
    let mut ring = EventRing::new(16);
    let mut interner = Interner::new();
    assert!(shifted().maps_every_timestamp());
    assert!(next_batch(&mut ring, &shifted(), &mut interner, 10).is_none());
    ring.push(event(Category::Kernel, 5));
    let mut m = event(Category::Metric, 6);
    m.payload = Some(Payload::Metric(MetricSample {
        metric_id: 1,
        value_bits: 0,
        unit: "W".to_string(),
    }));
    ring.push(m.clone());
    ring.push(m);
    let b = next_batch(&mut ring, &shifted(), &mut interner, 2).unwrap();
    assert_eq!(b.events.len(), 2);
    assert_eq!(b.events[0].ts_ns, 1_005);
    assert_eq!(b.events[1].ts_ns, 6);
    assert_eq!(b.strings.len(), 1);
    assert_eq!(b.strings[0].id, hash("W"));
    ring.push_frame(frame(7));
    let b = next_batch(&mut ring, &shifted(), &mut interner, 2).unwrap();
    assert_eq!(b.events.len(), 1);
    assert!(b.strings.is_empty());
    assert_eq!(b.metric_frames[0].ts_ns, 7);
    ring.push_frame(frame(8));
    let b = next_batch(&mut ring, &shifted(), &mut interner, 2).unwrap();
    assert!(b.events.is_empty());
    assert_eq!(b.metric_frames.len(), 1);
}

#[test]
fn reconnection_backs_off() {
    let mut r = Reconnection::new();
    let mut pauses = Vec::new();
    for _ in 0..8 {
        match r.after(UploadEvent::ConnectFailed) {
            UploadAction::PauseMs(ms) => pauses.push(ms),
            other => panic!("unexpected {other:?}"),
        }
    }
    assert_eq!(pauses, vec![250, 500, 1_000, 2_000, 4_000, 8_000, 10_000, 10_000]);
    assert_eq!(r.after(UploadEvent::Connected), UploadAction::RunSession);
    assert_eq!(r.after(UploadEvent::SessionFailed), UploadAction::ForgetAndPauseMs(500));
    assert_eq!(r.after(UploadEvent::SessionEnded), UploadAction::Stop);
}

#[test]
fn agents_introduce_themselves() {
    let u = UploaderConfig {
        collector_url: "http://c".to_string(),
        hostname: "h".to_string(),
        node_id: 4,
        num_gpus: 2,
        max_batch_events: 1,
        flush_interval_ms: 1,
        agent_rpc_addr: "http://a".to_string(),
    };
    let h = u.hello("0.1.0");
    assert_eq!((h.node_id, h.num_gpus), (4, 2));
    assert_eq!(h.hostname, "h");
    assert_eq!(h.agent_version, "0.1.0");
    assert_eq!(h.agent_rpc_addr, "http://a");
}

#[test]
fn periods_are_whole_milliseconds() {
    assert_eq!(period_ms(0), 1_000);
    assert_eq!(period_ms(3), 333);
    assert_eq!(period_ms(1_000), 1);
    assert_eq!(period_ms(5_000), 0);
}

#[test]
fn nvml_frames_hold_what_could_be_read() {
    let ids = nvml::MetricIds::new();
    let r = NvmlReadings {
        util: Some((10, 20)),
        memory: None,
        power: Some(30),
        power_limit: None,
        sm_clock: None,
        mem_clock: None,
        temp: Some(40),
        fan: None,
        throttle: None,
    };
    let f = nvml::build_frame(&r, 5, 1, 2, &ids);
    assert_eq!((f.ts_ns, f.gpu_id, f.node_id), (5, 1, 2));
    let points: Vec<(u64, u64)> = f.points.iter().map(|p| (p.metric_id, p.value_bits)).collect();
    assert_eq!(
        points,
        vec![(ids.util, 10), (ids.mem_util, 20), (ids.power, 30), (ids.temp, 40)]
    );
}

#[test]
fn tegra_boards_are_recognised() {
    assert!(is_tegra(true, None));
    assert!(is_tegra(false, Some("NVIDIA Jetson AGX Orin")));
    assert!(!is_tegra(false, Some("NVIDIA DGX")));
    assert!(!is_tegra(false, Some("Raspberry Pi")));
    assert!(!is_tegra(false, None));
}

fn probe(root: &str, exists: bool, cur: bool, device: bool, load: bool) -> DevfreqProbe {
    DevfreqProbe {
        root: root.to_string(),
        exists,
        has_cur_freq: cur,
        has_device_load: device,
        has_load: load,
    }
}

#[test]
fn the_first_existing_node_is_used() {
    let g = choose_gpu_nodes(&vec![
        probe("/a", false, true, true, true),
        probe("/b", true, true, true, true),
        probe("/c", true, true, true, true),
    ]);
    assert_eq!(g.clock.as_deref(), Some("/b/cur_freq"));
    assert_eq!(g.load.as_deref(), Some("/b/device/load"));
    let g = choose_gpu_nodes(&vec![probe("/b", true, false, false, true)]);
    assert_eq!(g.clock, None);
    assert_eq!(g.load.as_deref(), Some("/b/load"));
    let g = choose_gpu_nodes(&Vec::new());
    assert!(g.clock.is_none() && g.load.is_none());
}

#[test]
fn sensors_of_the_chip_are_kept() {
    let z = ZoneProbe {
        dir_name: "thermal_zone0".to_string(),
        has_temp: true,
        kind: Some("GPU-therm\n".to_string()),
    };
    assert_eq!(keep_zone(&z).as_deref(), Some("GPU-therm"));
    let blind = ZoneProbe { has_temp: false, ..z.clone() };
    assert_eq!(keep_zone(&blind), None);
    let other = ZoneProbe { dir_name: "cooling_device0".to_string(), ..z };
    assert_eq!(keep_zone(&other), None);
}

#[test]
fn rails_have_files_and_labels() {
    assert_eq!(rail_input_file(2), "in_power2_input");
    assert_eq!(rail_label_file(2), "in_label2");
    assert_eq!(rail_label(2, Some("VDD_GPU\n")), "VDD_GPU");
    assert_eq!(rail_label(2, None), "rail2");
}

fn rail(channel: u8, has_input: bool, label: Option<&str>) -> RailProbe {
    RailProbe { dir: "/hw".to_string(), channel, has_input, label: label.map(str::to_string) }
}

#[test]
fn boards_are_searched_for_files() {
    let zone = |name: &str, kind: &str| ZoneProbe {
        dir_name: name.to_string(),
        has_temp: true,
        kind: Some(kind.to_string()),
    };
    let paths = discover_paths(
        &vec![probe("/g", true, true, false, true)],
        &vec![
            zone("thermal_zone1", "CPU-therm"),
            zone("thermal_zone2", "board"),
            zone("thermal_zone3", "GPU\n"),
        ],
        &vec![rail(0, false, None), rail(1, true, Some("VDD_IN\n")), rail(2, true, None)],
    );
    assert_eq!(paths.gpu_clock.as_deref(), Some("/g/cur_freq"));
    assert_eq!(paths.gpu_load.as_deref(), Some("/g/load"));
    let zones: Vec<(&str, &str)> =
        paths.temp_zones.iter().map(|s| (s.label.as_str(), s.path.as_str())).collect();
    assert_eq!(
        zones,
        vec![
            ("CPU-therm", "/sys/class/thermal/thermal_zone1/temp"),
            ("GPU", "/sys/class/thermal/thermal_zone3/temp"),
        ]
    );
    let rails: Vec<(&str, &str)> =
        paths.power_rails.iter().map(|s| (s.label.as_str(), s.path.as_str())).collect();
    assert_eq!(rails, vec![("VDD_IN", "/hw/in_power1_input"), ("rail2", "/hw/in_power2_input")]);
}

#[test]
fn a_sensor_without_a_number_is_passed_over() {
    let zone = |v: f64| ZoneReading { label: "gpu".to_string(), celsius_bits: v.to_bits() };
    let t = gpu_temperature(&vec![zone(f64::NAN), zone(-3.0), zone(f64::NAN)]);
    assert_eq!(t.map(f64::from_bits), Some(-3.0));
    assert!(gpu_temperature(&vec![zone(f64::NAN)]).is_some());
}

#[test]
fn the_hottest_gpu_sensor_counts() {
    let zones = vec![
        ZoneReading { label: "gpu0".to_string(), celsius_bits: 40.0f64.to_bits() },
        ZoneReading { label: "CPU".to_string(), celsius_bits: 90.0f64.to_bits() },
        ZoneReading { label: "GPU1".to_string(), celsius_bits: 55.5f64.to_bits() },
    ];
    assert_eq!(gpu_temperature(&zones).map(f64::from_bits), Some(55.5));
    assert_eq!(gpu_temperature(&Vec::new()), None);
}

#[test]
fn memory_is_total_less_available() {
    let text = "MemTotal:       1000 kB\nMemFree:  1 kB\nMemAvailable:    400 kB\n";
    assert_eq!(parse_meminfo(text), Some((600 * 1024, 400 * 1024)));
    assert_eq!(parse_meminfo("MemTotal: 5 kB\n"), None);
    assert_eq!(parse_meminfo(""), None);
}

#[test]
fn tegra_frames_hold_what_could_be_read() {
    let ids = tegra::MetricIds::new();
    let r = TegraReadings {
        util: Some(1),
        sm_clock: None,
        temp: Some(2),
        memory: Some((3, 4)),
        power_total: Some(5),
    };
    let f = tegra::build_frame(&r, &ids, 9, 8);
    assert_eq!((f.ts_ns, f.node_id, f.gpu_id), (9, 8, 0));
    let mut bits: Vec<u64> = f.points.iter().map(|p| p.value_bits).collect();
    bits.sort();
    assert_eq!(bits, vec![1, 2, 3, 4, 5]);
}

fn sampler(seed: u64) -> SyntheticSampler {
    SyntheticSampler { num_gpus: 1, metric_hz: 1, node_id: 0, seed, burst: true }
}

#[test]
fn emulated_kernels_follow_their_calls() {
    let ids = SyntheticIds::new();
    let mut rng = sampler(1).rng();
    let now = 1_000_000_000;
    for n in 0..100u64 {
        let launches = draw_launches(&mut rng);
        assert!((4..32).contains(&launches));
        let l = draw_launch(&mut rng);
        assert!(l.kernel < ids.kernels.len() && l.api < ids.apis.len());
        let d = draw_detail(&mut rng);
        let (api, kernel) = launch_events(&ids, now, n, 3, 4, &l, 777, &d);
        assert_eq!(api.category, Category::ApiCall);
        assert_eq!(kernel.category, Category::Kernel);
        assert_eq!(api.correlation_id, kernel.correlation_id);
        assert_eq!(kernel.duration_ns, 777);
        assert!(api.ts_ns + api.duration_ns <= kernel.ts_ns);
        let c = draw_copy(&mut rng);
        let whole = Transfer { draw: c, transfer_ns: c.bytes / 12 };
        assert!(whole.is_timed());
        let e = copy_event(now, 3, 4, &whole);
        assert_eq!(e.duration_ns, c.bytes / 12 + c.overhead_ns);
        assert_eq!(e.category, Category::Memcpy);
        match e.payload {
            Some(Payload::Memcpy(m)) => assert_eq!(m.bytes, c.bytes),
            other => panic!("unexpected payload {other:?}"),
        }
    }
}

fn drawn(rng: &mut rand::rngs::SmallRng, launches: usize, copies: bool) -> GpuDraw {
    let launches = (0..launches)
        .map(|_| Launch { draw: draw_launch(rng), kernel_dur_ns: 900, detail: draw_detail(rng) })
        .collect();
    let copy = copies.then_some(draw_copy(rng));
    let copy = copy.map(|draw| Transfer { draw, transfer_ns: draw.bytes / 12 });
    GpuDraw { values: vec![1, 2, 3, 4, 5, 6], launches, copy }
}

#[test]
fn ticks_number_their_launches() {
    let ids = SyntheticIds::new();
    let s = SyntheticSampler { num_gpus: 2, ..sampler(3) };
    let mut rng = s.rng();
    let draws = vec![drawn(&mut rng, 2, true), drawn(&mut rng, 3, false)];
    let t = s.tick(&ids, 1_000, 40, &draws);
    let numbers: Vec<u64> = t.events.iter().map(|e| e.correlation_id).collect();
    assert_eq!(numbers, vec![40, 40, 41, 41, 0, 42, 42, 43, 43, 44, 44]);
    assert_eq!(t.next, 45);
    let gpus: Vec<u32> = t.events.iter().map(|e| e.gpu_id).collect();
    assert_eq!(gpus, vec![0, 0, 0, 0, 0, 1, 1, 1, 1, 1, 1]);
    assert_eq!(t.events[2].category, Category::ApiCall);
    assert_eq!(t.events[3].category, Category::Kernel);
    let call_end = t.events[2].ts_ns + t.events[2].duration_ns;
    assert_eq!(t.events[3].ts_ns, call_end + draws[0].launches[1].draw.gap_ns);
    let copy = draws[0].copy.unwrap();
    assert_eq!(t.events[4].duration_ns, copy.transfer_ns + copy.draw.overhead_ns);
    let later = s.tick(&ids, 2_000, t.next, &draws);
    assert!(later.events.iter().all(|e| e.correlation_id == 0 || e.correlation_id >= 45));
}

#[test]
fn quiet_ticks_hold_frames_only() {
    let ids = SyntheticIds::new();
    let s = SyntheticSampler { num_gpus: 3, burst: false, ..sampler(3) };
    let mut rng = s.rng();
    let draws: Vec<GpuDraw> = (0..3).map(|_| drawn(&mut rng, 2, true)).collect();
    let t = s.tick(&ids, 9, 40, &draws);
    assert!(t.events.is_empty());
    assert_eq!(t.next, 40);
    assert_eq!(t.frames.len(), 3);
    for (g, f) in t.frames.iter().enumerate() {
        assert_eq!((f.gpu_id, f.ts_ns), (g as u32, 9));
        let values: Vec<u64> = f.points.iter().map(|p| p.value_bits).collect();
        assert_eq!(values, vec![1, 2, 3, 4, 5, 6]);
    }
}

#[test]
fn transfers_may_come_out_one_short() {
    let draw = CopyDraw { bytes: 12_000, overhead_ns: 500, delay_ns: 0 };
    let timed = |transfer_ns: u64| Transfer { draw, transfer_ns }.is_timed();
    assert!(timed(1_000) && timed(999));
    assert!(!timed(998) && !timed(1_001));
    for bytes in [4_096u64, 12_000, 1_000_000, 16_777_212] {
        let transfer_ns = ((bytes as f64 / 12.0e9) * 1e9) as u64;
        let draw = CopyDraw { bytes, ..draw };
        assert!(Transfer { draw, transfer_ns }.is_timed());
    }
}

#[test]
fn seeds_decide_the_emulation() {
    let (mut a, mut b, mut c) = (sampler(7).rng(), sampler(7).rng(), sampler(8).rng());
    let draws = |rng: &mut rand::rngs::SmallRng| -> Vec<u64> {
        (0..16).map(|_| draw_copy(rng).bytes).collect()
    };
    let (x, y, z) = (draws(&mut a), draws(&mut b), draws(&mut c));
    assert_eq!(x, y);
    assert_ne!(x, z);
}

#[test]
fn emulated_metrics_pair_ids_with_values() {
    let ids = SyntheticIds::new();
    let values: Vec<u64> = (0..ids.metrics.len() as u64).collect();
    let f = metric_frame(&ids, 1, 2, 3, &values);
    assert_eq!(f.points.len(), ids.metrics.len());
    assert_eq!(f.points[0].metric_id, ids.metrics[0]);
    assert_eq!(f.points[1].value_bits, 1);
    assert_eq!((f.ts_ns, f.node_id, f.gpu_id), (1, 2, 3));
}

fn request(correlation_ids: Vec<u64>, name_ids: Vec<u64>) -> ProfileRequest {
    ProfileRequest {
        gpu_id: 0,
        window_start_ns: 0,
        window_end_ns: 0,
        correlation_ids,
        name_ids,
        timeout_ms: 0,
    }
}

#[test]
fn synthetic_agents_make_cards_up() {
    let s = AgentRpcServer { synthetic: true };
    let cards = s.profile_kernels(&request((0..13).collect(), vec![99])).unwrap();
    assert_eq!(cards.len(), 13);
    assert_eq!(cards[12].correlation_id, 12);
    assert_eq!(cards[0].sm_active_pct, 3_500);
    assert_eq!(cards[1].sm_active_pct, 4_000);
    assert_eq!(cards[12].sm_active_pct, 3_500);
    assert_eq!(cards[0].dram_bw_pct, 7_000);
    assert_eq!(cards[3].dram_bw_pct, 6_100);
    let bounds: Vec<Bound> = cards.iter().take(4).map(|c| c.bound).collect();
    assert_eq!(bounds, vec![Bound::Memory, Bound::Compute, Bound::Latency, Bound::Balanced]);
    assert_eq!(cards[5].confidence, Confidence::High);
    assert_eq!(cards[5].source, Source::Replay);
    assert_eq!(cards[5].memory_stalls.reason_id, hash("MemoryThrottle") as u32);
    let many = s.profile_kernels(&request(vec![7; 3_355_446], Vec::new())).unwrap();
    let i = many.len() - 1;
    assert_eq!(many[i].sm_active_pct as f32 / 100.0, 35.0 + (i as f32 * 5.0) % 60.0);
    assert_eq!(many[i].dram_bw_pct as f32 / 100.0, 70.0 - (i as f32 * 3.0) % 40.0);
    let by_name = s.profile_kernels(&request(Vec::new(), vec![99])).unwrap();
    assert_eq!(by_name[0].correlation_id, 99);
}

#[test]
fn real_agents_refuse_to_replay() {
    let e = AgentRpcServer { synthetic: false }.profile_kernels(&request(vec![1], Vec::new()));
    assert!(e.unwrap_err().starts_with("CUPTI_PROFILER_REPLAY_KERNEL not compiled in"));
}

fn host() -> Host {
    Host { tegra: false, nvml: true, dcgm: false, unix: true, cupti_socket: None, devices: 3 }
}

#[test]
fn agents_read_what_the_host_offers() {
    let cfg = AgentConfig::default();
    assert_eq!(cfg.collector, "http://127.0.0.1:7778");
    let v = cfg.samplers(&host());
    assert_eq!(v.len(), 2);
    assert!(matches!(&v[0], SamplerChoice::Nvml(n) if n.metric_hz == 1));
    assert!(matches!(&v[1], SamplerChoice::Cupti(c) if c.socket_path == "/tmp/perfweave.cupti.sock"));
    let v = cfg.samplers(&Host { tegra: true, ..host() });
    assert_eq!(v.len(), 1);
    assert!(matches!(&v[0], SamplerChoice::Tegra(_)));
    let v = cfg.samplers(&Host { nvml: false, dcgm: true, unix: false, ..host() });
    assert_eq!(v.len(), 1);
    assert!(matches!(&v[0], SamplerChoice::Dcgm(_)));
    let emulated = AgentConfig { synthetic: true, synthetic_gpus: 4, ..cfg.clone() };
    assert!(matches!(
        &emulated.samplers(&host())[0],
        SamplerChoice::Synthetic(s) if s.num_gpus == 4 && s.seed == 0xC0FFEE
    ));
    assert_eq!(emulated.num_gpus(&host()), 4);
    assert_eq!(cfg.num_gpus(&host()), 3);
}

#[test]
fn agents_have_a_name_and_an_address() {
    let cfg = AgentConfig::default();
    assert_eq!(cfg.name(Some("env"), Some("cmd\n")), "env");
    assert_eq!(cfg.name(None, Some(" cmd\n")), "cmd");
    assert_eq!(cfg.name(Some(""), Some("cmd")), "unknown");
    assert_eq!(cfg.name(None, None), "unknown");
    let named = AgentConfig { hostname: Some("set".to_string()), ..cfg.clone() };
    assert_eq!(named.name(Some("env"), None), "set");
    assert_eq!(cfg.rpc_addr(), "http://127.0.0.1:7780");
    let mute = AgentConfig { rpc_listen: String::new(), ..cfg.clone() };
    assert!(!mute.serves_rpc());
    assert_eq!(mute.rpc_addr(), "");
    let u = cfg.uploader("n".to_string(), &host());
    assert_eq!((u.num_gpus, u.max_batch_events, u.flush_interval_ms), (3, 20_000, 250));
}

#[test]
fn local_agents_fall_back_to_emulation() {
    let opts = Opts {
        collector_url: "http://c".to_string(),
        synthetic: false,
        synthetic_gpus: 0,
    };
    let bare = Host { devices: 0, ..host() };
    assert!(opts.falls_back(&bare));
    assert!(!opts.falls_back(&host()));
    assert_eq!(opts.num_gpus(&bare), 1);
    assert_eq!(opts.num_gpus(&host()), 3);
    assert!(matches!(&opts.samplers(&bare)[0], SamplerChoice::Synthetic(s) if s.metric_hz == 1000));
    assert!(matches!(&opts.samplers(&host())[0], SamplerChoice::Nvml(n) if n.metric_hz == 10));
    let jetson = Host { tegra: true, nvml: false, devices: 0, ..host() };
    assert!(!opts.falls_back(&jetson));
    assert_eq!(opts.num_gpus(&jetson), 1);
    assert!(matches!(&opts.samplers(&jetson)[..], [SamplerChoice::Tegra(t)] if t.metric_hz == 10));
    assert_eq!(opts.uploader("n".to_string(), &host()).agent_rpc_addr, "");
    assert_eq!(local_hostname(Some(""), Some("cmd\n")), "cmd");
    assert_eq!(local_hostname(Some("env"), Some("cmd")), "env");
    assert_eq!(local_hostname(None, Some("  ")), "local");
}

#[test]
fn settings_have_defaults() {
    let c = ChConfig::from_settings(None, Some("u".to_string()), None, None);
    assert_eq!(c.url, "http://127.0.0.1:8123");
    assert_eq!((c.user.as_str(), c.password.as_str(), c.database.as_str()), ("u", "", "default"));
    let a = AppConfig::default();
    assert_eq!((a.http_listen.as_str(), a.grpc_listen.as_str()), ("0.0.0.0:7777", "0.0.0.0:7700"));
    assert_eq!(default_http_listen(), "0.0.0.0:7777");
    assert_eq!(default_grpc_listen(), "0.0.0.0:7778");
    assert_eq!(local_collector_url("0.0.0.0:7778"), "http://127.0.0.1:7778");
    assert_eq!(browser_url("0.0.0.0:7777"), "http://localhost:7777/");
    assert_eq!(browser_url("10.0.0.1:80"), "http://10.0.0.1:80/");
    assert!(logs_as_json(Some("JSON"), true));
    assert!(!logs_as_json(Some("pretty"), false));
    assert!(logs_as_json(None, false));
    assert!(!logs_as_json(None, true));
}

fn probes(paths: Vec<&'static str>, found: usize) -> Vec<LibraryProbe> {
    paths.iter().enumerate().map(|(i, p)| LibraryProbe { path: p, exists: i >= found }).collect()
}

#[test]
fn checks_say_what_to_do() {
    let c = check_os("linux", "x86_64");
    assert_eq!((c.status, c.detail.as_str()), (Status::Pass, "linux x86_64"));
    assert_eq!(check_os("macos", "arm").status.name(), "warn");
    assert_eq!(check_nvml(&NvmlProbe::Devices(2)).detail, "2 device(s) detected");
    assert_eq!(check_nvml(&NvmlProbe::InitFailed("x".to_string())).detail, "init failed: x");
    assert_eq!(check_nvml(&NvmlProbe::CountFailed("y".to_string())).status, Status::Fail);
    assert_eq!(check_nvml(&NvmlProbe::NotBuilt).status, Status::Warn);
    let c = check_cupti(&probes(cupti_candidates(), 1));
    assert_eq!(c.detail, "found /usr/local/cuda/lib64/libcupti.so");
    assert_eq!(check_cupti(&probes(cupti_candidates(), 9)).status, Status::Warn);
    assert_eq!(check_dcgm(&probes(dcgm_candidates(), 0)).status, Status::Pass);
    assert_eq!(check_dcgm(&Vec::new()).status, Status::Warn);
    assert_eq!(check_nsys(Some(" v2024 \n")).detail, "v2024");
    assert_eq!(check_nsys(None).status, Status::Warn);
    assert_eq!(check_clickhouse("u", Some("down")).detail, "u: down");
    assert_eq!(check_clickhouse("u", None).status, Status::Pass);
}

#[test]
fn reports_list_the_fixes() {
    let r = Report::of(vec![check_os("linux", "x86_64"), check_clickhouse("u", Some("down"))]);
    assert_eq!(r.summary, "some checks failed; see fixes above");
    assert_eq!(r.exit_code(), 1);
    let lines = r.lines();
    assert_eq!(lines[0], "[OK ] os             linux x86_64");
    assert_eq!(lines[1], "[FAIL] clickhouse     u: down");
    assert!(lines[2].starts_with("       fix: start ClickHouse"));
    assert_eq!(lines[3], "");
    assert_eq!(lines[4], "summary: some checks failed; see fixes above");
    let r = Report::of(vec![check_os("macos", "arm")]);
    assert_eq!((r.summary, r.exit_code()), ("ready", 0));
}

#[test]
fn imports_are_named_after_the_time() {
    assert_eq!(stamp(255), "ff");
    assert_eq!(upload_name("ff", Some("a.nsys-rep")), "ff-a.nsys-rep");
    assert_eq!(upload_name("ff", None), "ff-upload.nsys-rep");
    assert_eq!(import_dir_name(12), "perfweave-import-12");
    assert!(u64::from_str_radix(&uuid_like(), 16).unwrap() > 1_500_000_000_000_000_000);
    let sql = kernel_import_sql(3, "/tmp/x.sqlite");
    assert!(sql.contains("toUInt32(3)"));
    assert_eq!(sql.matches("/tmp/x.sqlite").count(), 2);
    assert!(import_stats_sql(3).ends_with("WHERE node_id = 3"));
    let r = ImportResult { event_count: 1, ts_min_ns: 2, ts_max_ns: 3 };
    assert_eq!(r.summary(), "imported 1 events (2ns .. 3ns)");
}
