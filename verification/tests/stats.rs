use tokio_udp_demo::stats::{percentile, BenchStats};
use tokio_udp_demo::wire::make_stamped_payload;

fn with_samples(latencies_ns: Vec<u64>) -> BenchStats {
    BenchStats { received: latencies_ns.len() as u64, latencies_ns, ..Default::default() }
}

#[test]
fn starts_empty() {
    let stats = BenchStats::default();
    assert_eq!(stats.received, 0);
    assert_eq!(stats.last_seq, None);
    assert!(stats.latencies_ns.is_empty());
}

#[test]
fn wrong_sizes_are_counted_and_nothing_else() {
    let mut stats = BenchStats::default();
    for len in [0, 16, 55, 57, 1000] {
        stats.on_packet_at(&vec![1; len], 10);
    }
    assert_eq!(stats.invalid_size, 5);
    assert_eq!(stats.received, 0);
    assert_eq!(stats.last_seq, None);
}

#[test]
fn latency_is_the_travel_time() {
    let mut stats = BenchStats::default();
    stats.on_packet_at(&make_stamped_payload(1, 1_000), 1_250);
    stats.on_packet_at(&make_stamped_payload(2, 2_000), 2_000);
    assert_eq!(stats.latencies_ns, vec![250, 0]);
    assert_eq!(stats.received, 2);
    assert_eq!(stats.last_seq, Some(2));
}

#[test]
fn packets_from_the_future_are_skewed_but_keep_the_order() {
    let mut stats = BenchStats::default();
    stats.on_packet_at(&make_stamped_payload(5, 1_001), 1_000);
    assert_eq!(stats.clock_skew_count, 1);
    assert_eq!(stats.received, 0);
    assert_eq!(stats.last_seq, Some(5));
    assert!(stats.latencies_ns.is_empty());
    stats.on_packet_at(&make_stamped_payload(7, 1_000), 1_000);
    assert_eq!(stats.dropped_estimate, 1);
    assert_eq!(stats.received, 1);
}

#[test]
fn gaps_and_late_packets() {
    let mut stats = BenchStats::default();
    for seq in [10, 11, 15, 15, 12, 13] {
        stats.on_packet_at(&make_stamped_payload(seq, 0), 1);
    }
    assert_eq!(stats.dropped_estimate, 3);
    assert_eq!(stats.out_of_order, 2);
    assert_eq!(stats.last_seq, Some(13));
    assert_eq!(stats.received, 6);
}

#[test]
fn growing_numbers_account_for_all() {
    let mut stats = BenchStats::default();
    let seqs = [3u64, 4, 9, 20, 21];
    for seq in seqs {
        stats.on_packet_at(&make_stamped_payload(seq, 0), 1);
    }
    assert_eq!(stats.dropped_estimate + seqs.len() as u64, 21 - 3 + 1);
    assert_eq!(stats.out_of_order, 0);
}

#[test]
fn wrong_sizes_between_growing_numbers_leave_no_other_trace() {
    let mut mixed = BenchStats::default();
    let mut clean = BenchStats::default();
    for seq in [3u64, 4, 9, 20, 21] {
        mixed.on_packet_at(&[7; 55], 1);
        mixed.on_packet_at(&make_stamped_payload(seq, 0), 1);
        clean.on_packet_at(&make_stamped_payload(seq, 0), 1);
    }
    assert_eq!(mixed.invalid_size, 5);
    assert_eq!(mixed.dropped_estimate + 5, 21 - 3 + 1);
    assert_eq!(mixed.dropped_estimate, clean.dropped_estimate);
    assert_eq!(mixed.out_of_order, 0);
    assert_eq!(mixed.last_seq, clean.last_seq);
    assert_eq!(mixed.latencies_ns, clean.latencies_ns);
}

#[test]
fn every_packet_counts_once() {
    let mut stats = BenchStats::default();
    stats.on_packet_at(&[0; 3], 5);
    stats.on_packet_at(&make_stamped_payload(1, 9), 5);
    stats.on_packet_at(&make_stamped_payload(2, 1), 5);
    stats.on_packet_at(&make_stamped_payload(3, 5), 5);
    assert_eq!(stats.received + stats.invalid_size + stats.clock_skew_count, 4);
    assert_eq!(stats.received, stats.latencies_ns.len() as u64);
}

#[test]
fn counters_saturate() {
    let mut stats = BenchStats {
        received: u64::MAX,
        invalid_size: u64::MAX,
        clock_skew_count: u64::MAX,
        out_of_order: u64::MAX,
        dropped_estimate: u64::MAX - 1,
        last_seq: Some(0),
        latencies_ns: vec![],
    };
    stats.on_packet_at(&[], 0);
    stats.on_packet_at(&make_stamped_payload(u64::MAX, 0), 0);
    stats.on_packet_at(&make_stamped_payload(u64::MAX, 1), 0);
    assert_eq!(stats.received, u64::MAX);
    assert_eq!(stats.invalid_size, u64::MAX);
    assert_eq!(stats.clock_skew_count, u64::MAX);
    assert_eq!(stats.out_of_order, u64::MAX);
    assert_eq!(stats.dropped_estimate, u64::MAX);
    assert_eq!(stats.latencies_ns, vec![0]);
}

#[test]
fn on_packet_uses_the_current_time() {
    let mut stats = BenchStats::default();
    stats.on_packet(&make_stamped_payload(1, 0));
    stats.on_packet(&make_stamped_payload(2, u64::MAX));
    assert_eq!(stats.received, 1);
    assert_eq!(stats.clock_skew_count, 1);
    assert!(stats.latencies_ns[0] > 1_577_836_800_000_000_000);
}

#[test]
fn percentile_is_the_rounded_share() {
    for percent in 0..=255 {
        assert_eq!(percentile(&[], percent), 0);
        assert_eq!(percentile(&[42], percent), 42);
    }
    let hundred: Vec<u64> = (1..=100).collect();
    assert_eq!(percentile(&hundred, 50), 51);
    assert_eq!(percentile(&hundred, 95), 95);
    assert_eq!(percentile(&hundred, 99), 99);
}

#[test]
fn percentile_ends_and_median() {
    assert_eq!(percentile(&[10, 20], 50), 20);
    assert_eq!(percentile(&[10, 20, 30, 40], 50), 30);
    for len in 1..200usize {
        let samples: Vec<u64> = (0..len as u64).map(|i| i * i + 3).collect();
        assert_eq!(percentile(&samples, 0), samples[0]);
        assert_eq!(percentile(&samples, 50), samples[len / 2]);
        assert_eq!(percentile(&samples, 100), samples[len - 1]);
    }
}

#[test]
fn percentile_grows_with_the_percentage() {
    let samples = [1u64, 1, 4, 9, 9, 25, 36, 49, 64];
    for percent in 1..=100 {
        assert!(percentile(&samples, percent - 1) <= percentile(&samples, percent));
    }
}

#[test]
fn percentile_agrees_with_floating_point() {
    let samples: Vec<u64> = (0..3_000).collect();
    for len in 1..=samples.len() {
        for percent in 0..=100u8 {
            let index = ((percent as f64 / 100.0) * ((len - 1) as f64)).round() as usize;
            assert_eq!(percentile(&samples[..len], percent), samples[index]);
        }
    }
}

#[test]
fn percentile_rounds_as_doubles_do() {
    let samples: Vec<u64> = (0..200).collect();
    assert_eq!(percentile(&samples[..46], 70), 31);
    assert_eq!(percentile(&samples[..91], 35), 31);
    assert_eq!(percentile(&samples[..171], 35), 59);
    assert_eq!(percentile(&samples[..11], 95), 10);
    assert_eq!(percentile(&samples[..2], 149), 1);
}

#[test]
fn report_summarises_the_samples() {
    let report = with_samples(vec![900, 100, 500, 300, 200]).to_report("final");
    assert_eq!(report.phase, "final");
    assert_eq!(report.received, 5);
    assert_eq!(report.min_ns, 100);
    assert_eq!(report.avg_ns, 400);
    assert_eq!(report.p50_ns, 300);
    assert_eq!(report.p95_ns, 900);
    assert_eq!(report.p99_ns, 900);
    assert_eq!(report.max_ns, 900);
}

#[test]
fn mean_rounds_down_and_does_not_overflow() {
    assert_eq!(with_samples(vec![1, 2]).to_report("x").avg_ns, 1);
    assert_eq!(with_samples(vec![u64::MAX; 9]).to_report("x").avg_ns, u64::MAX);
}

#[test]
fn report_is_ordered() {
    let samples: Vec<u64> = (0..997).map(|i| (i * 7919) % 1009).collect();
    let report = with_samples(samples).to_report("x");
    assert!(report.min_ns <= report.p50_ns && report.p50_ns <= report.p95_ns);
    assert!(report.p95_ns <= report.p99_ns && report.p99_ns <= report.max_ns);
    assert!(report.min_ns <= report.avg_ns && report.avg_ns <= report.max_ns);
}

#[test]
fn report_without_samples_is_zero() {
    let mut stats = BenchStats::default();
    stats.on_packet_at(&[], 0);
    let report = stats.to_report("final");
    assert_eq!(report.invalid_size, 1);
    assert_eq!((report.min_ns, report.avg_ns, report.max_ns), (0, 0, 0));
    assert_eq!((report.p50_ns, report.p95_ns, report.p99_ns), (0, 0, 0));
}

#[test]
fn progress_report_shows_latency_once_there_is_some() {
    let mut stats = BenchStats::default();
    assert!(stats.print_report("window").latency.is_none());
    stats.on_packet_at(&make_stamped_payload(4, 10), 17);
    stats.on_packet_at(&make_stamped_payload(6, 10), 11);
    let line = stats.print_report("window");
    assert_eq!(line.phase, "window");
    assert_eq!(line.received, 2);
    assert_eq!(line.dropped_estimate, 1);
    assert_eq!(line.out_of_order, 0);
    assert_eq!(line.invalid_size, 0);
    assert_eq!(line.clock_skew_count, 0);
    let latency = line.latency.unwrap();
    assert_eq!((latency.min_ns, latency.avg_ns, latency.max_ns), (1, 4, 7));
    // The samples themselves stay in the order of arrival.
    assert_eq!(stats.latencies_ns, vec![7, 1]);
}
