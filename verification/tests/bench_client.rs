use tokio_udp_demo::bench_client::{BenchClient, DatagramOutcome};
use tokio_udp_demo::session::PeerAddr;
use tokio_udp_demo::wire::{make_stamped_payload, read_le_u64};

fn peer(port: u16) -> PeerAddr {
    PeerAddr::V4 { ipv4: 0x7f00_0001, port }
}

#[test]
fn starts_with_the_first_packet_sent() {
    let client = BenchClient::new(10);
    assert_eq!(client.uplink_seq, 0);
    assert_eq!(client.sent_to_server_total, 1);
    assert_eq!(client.sent_to_server_window, 1);
    assert_eq!(client.active_server_peer, None);
    assert_eq!(client.duration_ns, 10_000_000_000);
}

#[test]
fn run_is_over_at_its_end() {
    let client = BenchClient::new(10);
    assert!(!client.is_over_at(9_999_999_999));
    assert!(client.is_over_at(10_000_000_000));
    assert!(!client.is_over());
    assert!(BenchClient::new(0).is_over());
}

#[test]
fn uplink_packets_are_numbered_and_counted() {
    let mut client = BenchClient::new(10);
    for n in 1..=3u64 {
        let payload = client.next_uplink();
        assert_eq!(read_le_u64(&payload, 0), n);
        assert!(read_le_u64(&payload, 8) > 1_577_836_800_000_000_000);
        client.uplink_sent();
        assert_eq!(client.sent_to_server_total, n + 1);
        assert_eq!(client.sent_to_server_window, n + 1);
    }
    client.uplink_seq = u64::MAX;
    assert_eq!(read_le_u64(&client.next_uplink(), 0), 0);
    client.sent_to_server_total = u64::MAX;
    client.uplink_sent();
    assert_eq!(client.sent_to_server_total, u64::MAX);
}

#[test]
fn locks_onto_the_first_sender() {
    let mut client = BenchClient::new(10);
    let packet = make_stamped_payload(1, 100);
    assert_eq!(client.on_datagram_at(peer(1), &packet, 150, 160), DatagramOutcome::LockedOn);
    assert_eq!(client.active_server_peer, Some(peer(1)));
    assert_eq!(client.cumulative.latencies_ns, vec![50]);
    assert_eq!(client.window.latencies_ns, vec![60]);
    assert_eq!(
        client.on_datagram_at(peer(2), &packet, 150, 160),
        DatagramOutcome::Ignored { expected: peer(1) }
    );
    assert_eq!(client.cumulative.received, 1);
    assert_eq!(client.on_datagram_at(peer(1), &[0; 4], 150, 160), DatagramOutcome::Counted);
    assert_eq!(client.cumulative.invalid_size, 1);
    assert_eq!(client.window.invalid_size, 1);
}

#[test]
fn datagrams_are_timed_by_the_wall_clock() {
    let mut client = BenchClient::new(10);
    let packet = make_stamped_payload(1, 0);
    assert_eq!(client.on_datagram(peer(1), &packet), DatagramOutcome::LockedOn);
    assert_eq!(client.on_datagram(peer(1), &packet), DatagramOutcome::Counted);
    assert_eq!(
        client.on_datagram(peer(2), &packet),
        DatagramOutcome::Ignored { expected: peer(1) }
    );
    assert_eq!(client.cumulative.received, 2);
    assert_eq!(client.window.received, 2);
    assert!(client.window.latencies_ns[0] > 1_577_836_800_000_000_000);
}

#[test]
fn report_starts_a_new_window() {
    let mut client = BenchClient::new(10);
    client.next_uplink();
    client.uplink_sent();
    client.on_datagram_at(peer(1), &make_stamped_payload(1, 0), 5, 5);
    client.on_datagram_at(peer(1), &make_stamped_payload(4, 0), 7, 7);
    let report = client.on_report_tick();
    assert_eq!(report.window.phase, "window");
    assert_eq!(report.cumulative.phase, "cumulative");
    assert_eq!(report.uplink.phase, "window");
    assert_eq!(report.uplink.sent_to_server, 2);
    assert_eq!(report.uplink.sent_to_server_cumulative, 2);
    assert_eq!(report.window.received, 2);
    assert_eq!(report.window.dropped_estimate, 2);
    assert_eq!(client.window.received, 0);
    assert_eq!(client.window.last_seq, None);
    assert_eq!(client.sent_to_server_window, 0);
    assert_eq!(client.sent_to_server_total, 2);

    client.on_datagram_at(peer(1), &make_stamped_payload(9, 0), 9, 9);
    let last = client.final_report();
    assert_eq!(last.window.phase, "window-final");
    assert_eq!(last.cumulative.phase, "final");
    assert_eq!(last.uplink.phase, "final");
    assert_eq!(last.uplink.sent_to_server, 0);
    assert_eq!(last.uplink.sent_to_server_cumulative, 2);
    assert_eq!(last.window.received, 1);
    assert_eq!(last.window.dropped_estimate, 0);
    assert_eq!(last.cumulative.received, 3);
    assert_eq!(last.cumulative.dropped_estimate, 6);
    assert_eq!(last.cumulative.latency.unwrap().max_ns, 9);
}
