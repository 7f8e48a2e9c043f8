use tokio_udp_demo::bench_server::{
    BenchDriver, Session, SessionAction, SessionEvent, SessionInput,
};
use tokio_udp_demo::session::{PeerAddr, ServerState};
use tokio_udp_demo::stats::BenchStats;
use tokio_udp_demo::wire::read_le_u64;

fn peer(port: u16) -> PeerAddr {
    PeerAddr::V6 { ipv6: 1, port, flowinfo: 0, scope_id: 0 }
}

fn packet(port: u16) -> SessionInput {
    SessionInput::Event(SessionEvent::ClientPacket { peer: peer(port) })
}

fn message(payload: Vec<u8>) -> SessionInput {
    SessionInput::Event(SessionEvent::BenchMessage(payload))
}

#[test]
fn first_packet_claims_the_bench_client() {
    let mut session = Session::new(100);
    assert!(matches!(
        session.on_input_at(message(vec![1]), 1),
        SessionAction::DropWhileWaiting
    ));
    match session.on_input_at(packet(1), 2) {
        SessionAction::ClientConnected { peer: from } => assert_eq!(from, peer(1)),
        other => panic!("{:?}", other),
    }
    assert!(matches!(session.on_input_at(packet(1), 3), SessionAction::Idle));
    assert_eq!(session.state, ServerState::ConnectedToClient { client_addr: peer(1), last_seen: 3 });
    match session.on_input_at(packet(2), 4) {
        SessionAction::IgnorePeer { peer: from, expected } => {
            assert_eq!((from, expected), (peer(2), peer(1)));
        }
        other => panic!("{:?}", other),
    }
    match session.on_input_at(message(vec![1, 2, 3]), 5) {
        SessionAction::SendToClient { send } => {
            assert_eq!(send.peer, peer(1));
            assert_eq!(send.payload, vec![1, 2, 3]);
        }
        other => panic!("{:?}", other),
    }
    assert_eq!(session.state, ServerState::ConnectedToClient { client_addr: peer(1), last_seen: 3 });
}

#[test]
fn silent_bench_client_is_let_go() {
    let mut session = Session::new(100);
    session.on_input_at(packet(1), 50);
    assert!(matches!(session.on_input_at(SessionInput::TimeoutTick, 149), SessionAction::Idle));
    match session.on_input_at(SessionInput::TimeoutTick, 150) {
        SessionAction::ClientTimedOut { client_addr } => assert_eq!(client_addr, peer(1)),
        other => panic!("{:?}", other),
    }
    assert_eq!(session.state, ServerState::WaitingForClient);
}

#[test]
fn closed_channels_stop_the_bench_session() {
    let mut session = Session::new(100);
    assert!(matches!(session.on_input_at(SessionInput::EventsClosed, 1), SessionAction::Stop));
    assert!(matches!(session.on_input_at(SessionInput::UdpClosed, 1), SessionAction::Stop));
}

#[test]
fn bench_session_reads_its_own_clock() {
    let mut session = Session::new(u128::MAX);
    assert!(matches!(session.on_input(packet(1)), SessionAction::ClientConnected { .. }));
    assert!(matches!(session.on_input(SessionInput::TimeoutTick), SessionAction::Idle));
}

#[test]
fn bench_driver_numbers_its_messages() {
    let mut driver = BenchDriver::new();
    for n in 1..=5 {
        let payload = driver.next_payload();
        assert_eq!(payload.len(), 56);
        assert_eq!(read_le_u64(&payload, 0), n);
        assert!(read_le_u64(&payload, 8) > 1_577_836_800_000_000_000);
    }
    let mut last = BenchDriver { seq: u64::MAX };
    assert_eq!(read_le_u64(&last.next_payload(), 0), 0);
    assert_eq!(last.seq, 0);
}

#[test]
fn bench_client_keeps_its_place() {
    let mut session = Session::new(100);
    session.on_input_at(packet(1), 0);
    for step in 1..=20u128 {
        session.on_input_at(packet(2), step * 50);
        session.on_input_at(SessionInput::TimeoutTick, step * 50);
        session.on_input_at(message(vec![0]), step * 50);
        session.on_input_at(packet(1), step * 50);
    }
    assert_eq!(
        session.state,
        ServerState::ConnectedToClient { client_addr: peer(1), last_seen: 1_000 }
    );
}

#[test]
fn lossless_run_shows_no_loss() {
    let mut driver = BenchDriver::new();
    let mut stats = BenchStats::default();
    for _ in 0..50 {
        stats.on_packet_at(&driver.next_payload(), u64::MAX);
    }
    assert_eq!((stats.dropped_estimate, stats.out_of_order, stats.invalid_size), (0, 0, 0));
    assert_eq!(stats.received, 50);
    assert_eq!(stats.last_seq, Some(50));
}

#[test]
fn bench_client_heard_often_enough_stays() {
    let mut session = Session::new(100);
    session.on_input_at(packet(1), 0);
    let mut last = 0u128;
    for now in 1..=1_000u128 {
        if now == last + 99 {
            session.on_input_at(packet(1), now);
            last = now;
        }
        session.on_input_at(packet(2), now);
        session.on_input_at(SessionInput::TimeoutTick, now);
        assert_eq!(
            session.state,
            ServerState::ConnectedToClient { client_addr: peer(1), last_seen: last }
        );
    }
}
