use tokio_udp_demo::csv::{csv_report, LatencyColumns};
use tokio_udp_demo::stats::BenchReport;

fn report(received: u64, invalid_size: u64) -> BenchReport {
    BenchReport {
        phase: "final",
        received,
        invalid_size,
        out_of_order: 3,
        dropped_estimate: 40,
        clock_skew_count: 507,
        min_ns: 1,
        avg_ns: 2,
        p50_ns: 3,
        p95_ns: 4,
        p99_ns: 5,
        max_ns: 6,
    }
}

fn columns() -> LatencyColumns {
    LatencyColumns {
        min_us: "0.001".to_string(),
        avg_us: "0.002".to_string(),
        p50_us: "0.003".to_string(),
        p95_us: "0.004".to_string(),
        p99_us: "0.005".to_string(),
        max_us: "12.006".to_string(),
    }
}

#[test]
fn csv_has_names_and_values() {
    assert_eq!(
        csv_report(&report(0, u64::MAX), 1234567890, &columns()),
        "phase,received,invalid_size,out_of_order,dropped_estimate,clock_skew_count,\
         sent_to_server_total,min_us,avg_us,p50_us,p95_us,p99_us,max_us\n\
         final,0,18446744073709551615,3,40,507,1234567890,0.001,0.002,0.003,0.004,0.005,12.006\n"
    );
}

#[test]
fn csv_has_one_value_per_column() {
    let text = csv_report(&report(10, 100), 0, &columns());
    let lines: Vec<&str> = text.lines().collect();
    assert_eq!(lines.len(), 2);
    assert_eq!(lines[0].split(',').count(), 13);
    assert_eq!(lines[1].split(',').count(), 13);
    assert!(lines[1].starts_with("final,10,100,"));
}

#[test]
fn csv_counters_read_back() {
    for n in [0, 7, 10, 99, 100, 1_000_000_007, u64::MAX - 1, u64::MAX] {
        let text = csv_report(&report(n, 0), n, &columns());
        let values: Vec<&str> = text.lines().nth(1).unwrap().split(',').collect();
        assert_eq!(values[1].parse::<u64>(), Ok(n));
        assert_eq!(values[6].parse::<u64>(), Ok(n));
    }
}
