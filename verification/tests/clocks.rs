use perfweave::clock::{
    cut_nanos, fit_theil_sen, host_monotonic_ns, host_realtime_ns, realtime_of, ClockOffset, Pair,
};
use perfweave::clock_sync::{
    fit_observations, measure, HostClock, Observation, OffsetHandle, SourceClock,
};

struct Fake {
    offset: u64,
}

impl SourceClock for Fake {
    fn read_ns(&self) -> u64 {
        host_realtime_ns().saturating_sub(self.offset)
    }
}

#[test]
fn measure_recovers_simple_offset() {
    let fake = Fake { offset: 1_234_000 };
    let fit = measure(&fake, 256, 10_000).expect("fit");
    let slope = fit.slope_num as f64 / fit.slope_den as f64;
    assert!((slope - 1.0).abs() < 1e-3);
    assert!(fit.offset_ns.abs() as u64 >= 1_000_000);
    assert!(fit.offset_ns.abs() as u64 <= 2_000_000);
}

#[test]
fn fixed_readings_recover_the_offset() {
    let obs: Vec<Observation> = (0..256u64)
        .map(|i| {
            let before_ns = 1_700_000_000_000_000_000 + 100 * i;
            Observation {
                before_ns,
                src_ns: before_ns + 20 + (i % 3) - 1 - 1_234_000,
                after_ns: before_ns + 40,
            }
        })
        .collect();
    let fit = fit_observations(&obs, 10_000).expect("fit");
    assert_eq!(fit.slope_num, fit.slope_den);
    assert_eq!(fit.offset_ns, 1_234_000);
    assert_eq!(fit.residual_max_ns, 1);
    let stamped = fit.stamped(77);
    assert_eq!((stamped.fitted_at_host_ns, stamped.offset_ns), (77, 1_234_000));
    assert!(fit.fitted_at_host_ns > 1_500_000_000_000_000_000);
}

#[test]
fn identity_roundtrip() {
    let id = ClockOffset::identity();
    assert_eq!(id.map(123_456_789), 123_456_789);
}

#[test]
fn fit_recovers_known_mapping() {
    let pairs: Vec<Pair> = (0..64)
        .map(|i| Pair {
            src_ns: (i as u64) * 1_000_000,
            host_ns: 2 * (i as u64) * 1_000_000 + 1_000_000,
        })
        .collect();
    let fit = fit_theil_sen(&pairs).unwrap();
    let slope = fit.slope_num as f64 / fit.slope_den as f64;
    assert!((slope - 2.0).abs() < 1e-6, "slope was {slope}");
    assert!(fit.residual_max_ns <= 1, "residual {}", fit.residual_max_ns);
}

#[test]
fn theil_sen_is_robust_to_single_outlier() {
    let mut pairs: Vec<Pair> = (0..32)
        .map(|i| Pair {
            src_ns: (i as u64) * 1_000_000,
            host_ns: (i as u64) * 1_000_000 + 500,
        })
        .collect();
    pairs[10].host_ns += 5_000_000;
    let fit = fit_theil_sen(&pairs).unwrap();
    let slope = fit.slope_num as f64 / fit.slope_den as f64;
    assert!((slope - 1.0).abs() < 1e-3);
}

#[test]
fn exact_line_is_recovered_exactly() {
    let pairs: Vec<Pair> = (0..10u64)
        .map(|i| Pair { src_ns: i * 1_000, host_ns: 3 * i * 1_000 + 7 })
        .collect();
    let fit = fit_theil_sen(&pairs).unwrap();
    assert_eq!(fit.slope_num, 3 * fit.slope_den);
    assert_eq!(fit.slope_den, 0x4000_0000);
    assert_eq!(fit.offset_ns, 7);
    assert_eq!(fit.residual_max_ns, 0);
    assert!(fit.maps_every_timestamp());
    assert_eq!(fit.map(2_000), 6_007);
}

#[test]
fn one_outlier_leaves_the_others_where_they_were() {
    let mut pairs: Vec<Pair> = (0..9u64)
        .map(|i| Pair { src_ns: i * 1_000, host_ns: i * 1_000 + 40 })
        .collect();
    pairs[4].host_ns = 900_000;
    let fit = fit_theil_sen(&pairs).unwrap();
    assert_eq!(fit.slope_num, fit.slope_den);
    assert_eq!(fit.offset_ns, 40);
    assert_eq!(fit.residual_max_ns, 900_000 - 4_040);
}

#[test]
fn a_fit_needs_two_distinct_source_times() {
    assert!(fit_theil_sen(&[]).is_none());
    assert!(fit_theil_sen(&[Pair { src_ns: 5, host_ns: 9 }]).is_none());
    let same = [Pair { src_ns: 5, host_ns: 9 }, Pair { src_ns: 5, host_ns: 11 }];
    assert!(fit_theil_sen(&same).is_none());
}

#[test]
fn pairs_in_any_order_give_the_same_fit() {
    let pairs: Vec<Pair> = (0..12u64)
        .map(|i| Pair { src_ns: i * 500, host_ns: i * 501 + (i * i) % 7 })
        .collect();
    let mut back = pairs.clone();
    back.reverse();
    let a = fit_theil_sen(&pairs).unwrap();
    let b = fit_theil_sen(&back).unwrap();
    assert_eq!(a.slope_num, b.slope_num);
    assert_eq!(a.offset_ns, b.offset_ns);
    assert_eq!(a.residual_max_ns, b.residual_max_ns);
}

#[test]
fn a_fit_comes_within_its_residual() {
    let pairs: Vec<Pair> = (0..12u64)
        .map(|i| Pair { src_ns: i * 700 + 3, host_ns: i * 701 + 90 + (i * i) % 11 })
        .collect();
    let fit = fit_theil_sen(&pairs).unwrap();
    assert!(fit.residual_max_ns > 0);
    for p in &pairs {
        let miss = fit.map(p.src_ns).abs_diff(p.host_ns);
        assert!(miss <= fit.residual_max_ns + 1);
    }
}

#[test]
fn mapping_keeps_the_order_of_timestamps() {
    let off = ClockOffset {
        offset_ns: -50,
        slope_num: 3,
        slope_den: 2,
        residual_max_ns: 0,
        fitted_at_host_ns: 0,
    };
    assert_eq!(off.map(10), 0);
    assert_eq!(off.map(100), 100);
    assert_eq!(off.map(101), 101);
    assert!(off.map(1_000) <= off.map(1_001));
}

#[test]
fn observations_take_the_middle_of_the_host_readings() {
    let o = Observation { before_ns: 100, src_ns: 7, after_ns: 110 };
    assert_eq!(o.latency(), 10);
    assert_eq!(o.pair().src_ns, 7);
    assert_eq!(o.pair().host_ns, 105);
}

#[test]
fn slow_observations_are_left_out() {
    let mut obs: Vec<Observation> = Vec::new();
    for i in 0..20u64 {
        obs.push(Observation {
            before_ns: 10_000 * i + 500,
            src_ns: 10_000 * i,
            after_ns: 10_000 * i + 500,
        });
    }
    obs.push(Observation { before_ns: 300_000, src_ns: 200_000, after_ns: 900_000 });
    let fit = fit_observations(&obs, 0).expect("exact observations");
    assert_eq!(fit.offset_ns, 500);
    assert_eq!(fit.residual_max_ns, 0);
}

#[test]
fn fewer_than_a_tenth_are_left_out() {
    let mut obs: Vec<Observation> = (0..18u64)
        .map(|i| Observation {
            before_ns: 1_000 * i + 40,
            src_ns: 1_000 * i,
            after_ns: 1_000 * i + 40,
        })
        .collect();
    obs.push(Observation { before_ns: 20_000, src_ns: 1, after_ns: 20_010 });
    let kept = fit_observations(&obs, 1_000_000).expect("a line");
    assert_eq!(kept.residual_max_ns, 0);
    obs.push(Observation { before_ns: 40_000, src_ns: 2, after_ns: 40_020 });
    let one_dropped = fit_observations(&obs, 1_000_000).expect("a line");
    assert_eq!(one_dropped.residual_max_ns, 20_005 - 41);
}

#[test]
fn a_residual_over_the_budget_is_refused() {
    let obs: Vec<Observation> = (0..20u64)
        .map(|i| {
            let host = 10_000 * i + if i % 2 == 0 { 0 } else { 400 };
            Observation { before_ns: host, src_ns: 10_000 * i, after_ns: host }
        })
        .collect();
    assert!(fit_observations(&obs, 10).is_none());
    assert!(fit_observations(&obs, 100_000).is_some());
}

#[test]
fn the_host_fits_itself() {
    let fit = measure(&HostClock, 64, 1_000_000).expect("fit");
    assert!(fit.residual_max_ns <= 1_000_000);
    assert!(HostClock.read_ns() > 1_500_000_000_000_000_000);
}

#[test]
fn offset_handles_hold_the_last_fit() {
    let mut h = OffsetHandle::default();
    assert_eq!(h.current().map(77), 77);
    let off = ClockOffset {
        offset_ns: 5,
        slope_num: 1,
        slope_den: 1,
        residual_max_ns: 0,
        fitted_at_host_ns: 0,
    };
    h.set(off);
    assert_eq!(h.current().map(77), 82);
    assert_eq!(OffsetHandle::new(off).current().map(1), 6);
}

#[test]
fn readings_are_cut_to_64_bits() {
    assert_eq!(realtime_of(None), 0);
    assert_eq!(realtime_of(Some(1_700_000_000_000_000_000)), 1_700_000_000_000_000_000);
    assert_eq!(realtime_of(Some((1 << 64) + 9)), 9);
    assert_eq!(cut_nanos((3 << 64) + 5), 5);
}

#[test]
fn clocks_move_forward() {
    let start = std::time::Instant::now();
    let a = host_realtime_ns();
    let mono_a = host_monotonic_ns(&start);
    let mono_b = host_monotonic_ns(&start);
    assert!(a > 1_500_000_000_000_000_000);
    assert!(mono_a <= mono_b);
}
