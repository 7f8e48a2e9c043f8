use tokio_udp_demo::session::{PeerAddr, PeerOutcome, ServerState};

fn peer(port: u16) -> PeerAddr {
    PeerAddr::V4 { ipv4: 0x7f00_0001, port }
}

#[test]
fn addresses_differ_in_any_part() {
    assert_eq!(peer(1), peer(1));
    assert_ne!(peer(1), peer(2));
    assert_ne!(peer(1), PeerAddr::V4 { ipv4: 0x7f00_0002, port: 1 });
    let v6 = PeerAddr::V6 { ipv6: 1, port: 1, flowinfo: 0, scope_id: 0 };
    assert_ne!(peer(1), v6);
    assert_ne!(v6, PeerAddr::V6 { ipv6: 1, port: 1, flowinfo: 1, scope_id: 0 });
    assert_ne!(v6, PeerAddr::V6 { ipv6: 1, port: 1, flowinfo: 0, scope_id: 1 });
}

#[test]
fn first_packet_connects_and_later_ones_refresh() {
    let mut state = ServerState::WaitingForClient;
    assert_eq!(state.on_packet_from(peer(1), 10), PeerOutcome::Connected);
    assert_eq!(state, ServerState::ConnectedToClient { client_addr: peer(1), last_seen: 10 });
    assert_eq!(state.on_packet_from(peer(1), 25), PeerOutcome::Refreshed);
    assert_eq!(state, ServerState::ConnectedToClient { client_addr: peer(1), last_seen: 25 });
}

#[test]
fn strangers_are_ignored() {
    let mut state = ServerState::ConnectedToClient { client_addr: peer(1), last_seen: 10 };
    assert_eq!(state.on_packet_from(peer(2), 99), PeerOutcome::Ignored { expected: peer(1) });
    assert_eq!(state, ServerState::ConnectedToClient { client_addr: peer(1), last_seen: 10 });
}

#[test]
fn client_goes_exactly_at_its_timeout() {
    let connected = ServerState::ConnectedToClient { client_addr: peer(1), last_seen: 100 };
    let mut state = connected;
    assert_eq!(state.on_timeout_tick(149, 50), None);
    assert_eq!(state, connected);
    assert_eq!(state.on_timeout_tick(150, 50), Some(peer(1)));
    assert_eq!(state, ServerState::WaitingForClient);
    assert_eq!(state.on_timeout_tick(1_000, 50), None);
}

#[test]
fn clock_before_last_packet_counts_as_no_silence() {
    let connected = ServerState::ConnectedToClient { client_addr: peer(1), last_seen: 100 };
    let mut state = connected;
    assert_eq!(state.on_timeout_tick(40, 1), None);
    assert_eq!(state, connected);
    assert_eq!(state.on_timeout_tick(40, 0), Some(peer(1)));
}

#[test]
fn next_sender_takes_over_after_timeout() {
    let mut state = ServerState::ConnectedToClient { client_addr: peer(1), last_seen: 0 };
    assert_eq!(state.on_timeout_tick(2_000, 2_000), Some(peer(1)));
    assert_eq!(state.on_packet_from(peer(2), 2_001), PeerOutcome::Connected);
    assert_eq!(state.on_packet_from(peer(1), 2_002), PeerOutcome::Ignored { expected: peer(2) });
}
