use tokio_udp_demo::bridge::{
    driver_accepts, DriverMessage, DriverWriteRequest, MockDriver, Session, SessionAction,
    SessionEvent, SessionInput, DEFAULT_CLIENT_TIMEOUT_NS,
};
use tokio_udp_demo::session::{PeerAddr, ServerState};

fn peer(port: u16) -> PeerAddr {
    PeerAddr::V4 { ipv4: 0x7f00_0001, port }
}

fn packet(port: u16, payload: Vec<u8>) -> SessionInput {
    SessionInput::Event(SessionEvent::UdpPacket { peer: peer(port), payload })
}

fn driver_message(slot: u16, payload: Vec<u8>) -> SessionInput {
    SessionInput::Event(SessionEvent::DriverMessage(DriverMessage { slot, payload }))
}

#[test]
fn default_timeout_is_two_seconds() {
    assert_eq!(DEFAULT_CLIENT_TIMEOUT_NS, 2_000_000_000);
}

#[test]
fn first_sender_becomes_client_and_reaches_driver() {
    let mut session = Session::new(DEFAULT_CLIENT_TIMEOUT_NS);
    match session.on_input_at(packet(1, vec![7; 56]), 5) {
        SessionAction::WriteToDriver { peer: from, connected, write } => {
            assert_eq!(from, peer(1));
            assert!(connected);
            assert_eq!(write.slot, 0);
            assert_eq!(write.payload, vec![7; 56]);
            assert!(driver_accepts(&write));
        }
        other => panic!("{:?}", other),
    }
    assert_eq!(session.state, ServerState::ConnectedToClient { client_addr: peer(1), last_seen: 5 });
    match session.on_input_at(packet(1, vec![8; 56]), 6) {
        SessionAction::WriteToDriver { connected, write, .. } => {
            assert!(!connected);
            assert_eq!(write.payload, vec![8; 56]);
        }
        other => panic!("{:?}", other),
    }
    assert_eq!(session.state, ServerState::ConnectedToClient { client_addr: peer(1), last_seen: 6 });
}

#[test]
fn packets_of_wrong_size_do_not_count() {
    let mut session = Session::new(100);
    for len in [0, 1, 55, 57, 2048] {
        match session.on_input_at(packet(1, vec![0; len]), 5) {
            SessionAction::DropUdpPacket { peer: from, bytes } => {
                assert_eq!(from, peer(1));
                assert_eq!(bytes, len);
            }
            other => panic!("{:?}", other),
        }
        assert_eq!(session.state, ServerState::WaitingForClient);
    }
    session.on_input_at(packet(1, vec![0; 56]), 5);
    session.on_input_at(packet(1, vec![0; 55]), 50);
    assert_eq!(session.state, ServerState::ConnectedToClient { client_addr: peer(1), last_seen: 5 });
    // The size comes first, whoever sends.
    assert!(matches!(
        session.on_input_at(packet(2, vec![0; 55]), 50),
        SessionAction::DropUdpPacket { .. }
    ));
}

#[test]
fn only_the_client_is_listened_to() {
    let mut session = Session::new(100);
    session.on_input_at(packet(1, vec![0; 56]), 5);
    match session.on_input_at(packet(2, vec![0; 56]), 50) {
        SessionAction::IgnorePeer { peer: from, expected } => {
            assert_eq!(from, peer(2));
            assert_eq!(expected, peer(1));
        }
        other => panic!("{:?}", other),
    }
    assert_eq!(session.state, ServerState::ConnectedToClient { client_addr: peer(1), last_seen: 5 });
}

#[test]
fn driver_messages_go_to_the_client() {
    let mut session = Session::new(100);
    match session.on_input_at(driver_message(3, vec![1; 56]), 1) {
        SessionAction::DropWhileWaiting { slot, bytes } => assert_eq!((slot, bytes), (3, 56)),
        other => panic!("{:?}", other),
    }
    // While waiting, the size does not matter.
    assert!(matches!(
        session.on_input_at(driver_message(3, vec![1; 3]), 1),
        SessionAction::DropWhileWaiting { slot: 3, bytes: 3 }
    ));
    session.on_input_at(packet(1, vec![0; 56]), 5);
    match session.on_input_at(driver_message(2, vec![9; 56]), 90) {
        SessionAction::SendToClient { slot, send } => {
            assert_eq!(slot, 2);
            assert_eq!(send.peer, peer(1));
            assert_eq!(send.payload, vec![9; 56]);
        }
        other => panic!("{:?}", other),
    }
    assert!(matches!(
        session.on_input_at(driver_message(2, vec![9; 57]), 90),
        SessionAction::DropDriverMessage { slot: 2, bytes: 57 }
    ));
    // Driver traffic does not keep the client.
    assert_eq!(session.state, ServerState::ConnectedToClient { client_addr: peer(1), last_seen: 5 });
}

#[test]
fn silent_client_is_let_go() {
    let mut session = Session::new(100);
    assert!(matches!(session.on_input_at(SessionInput::TimeoutTick, 1_000), SessionAction::Idle));
    session.on_input_at(packet(1, vec![0; 56]), 5);
    assert!(matches!(session.on_input_at(SessionInput::TimeoutTick, 104), SessionAction::Idle));
    match session.on_input_at(SessionInput::TimeoutTick, 105) {
        SessionAction::ClientTimedOut { client_addr } => assert_eq!(client_addr, peer(1)),
        other => panic!("{:?}", other),
    }
    assert_eq!(session.state, ServerState::WaitingForClient);
    assert!(matches!(
        session.on_input_at(packet(2, vec![0; 56]), 106),
        SessionAction::WriteToDriver { connected: true, .. }
    ));
    assert_eq!(
        session.state,
        ServerState::ConnectedToClient { client_addr: peer(2), last_seen: 106 }
    );
}

#[test]
fn closed_channels_stop_the_session() {
    for input in [SessionInput::EventsClosed, SessionInput::DriverClosed, SessionInput::UdpClosed] {
        let mut session = Session::new(100);
        assert!(matches!(session.on_input_at(input, 1), SessionAction::Stop));
        assert_eq!(session.state, ServerState::WaitingForClient);
    }
}

#[test]
fn session_reads_its_own_clock() {
    let mut session = Session::new(DEFAULT_CLIENT_TIMEOUT_NS);
    session.on_input(packet(1, vec![0; 56]));
    let first = match session.state {
        ServerState::ConnectedToClient { client_addr, last_seen } => {
            assert_eq!(client_addr, peer(1));
            last_seen
        }
        ServerState::WaitingForClient => panic!("no client"),
    };
    assert!(matches!(session.on_input(SessionInput::TimeoutTick), SessionAction::Idle));
    while session.clock.now_ns() == first {}
    session.on_input(packet(1, vec![0; 56]));
    match session.state {
        ServerState::ConnectedToClient { last_seen, .. } => assert!(last_seen > first),
        ServerState::WaitingForClient => panic!("no client"),
    }
    let mut impatient = Session::new(0);
    impatient.on_input(packet(1, vec![0; 56]));
    assert!(matches!(
        impatient.on_input(SessionInput::TimeoutTick),
        SessionAction::ClientTimedOut { .. }
    ));
}

#[test]
fn mock_driver_counts_and_cycles_through_slots() {
    let mut driver = MockDriver::new();
    for n in 1u32..=9 {
        let message = driver.next_message();
        assert_eq!(message.slot, (n % 4) as u16);
        assert_eq!(message.payload.len(), 56);
        assert_eq!(message.payload[0..4], n.to_le_bytes());
        assert_eq!(driver.seq, n);
    }
}

#[test]
fn mock_messages_reach_the_client() {
    let mut session = Session::new(100);
    let mut driver = MockDriver::new();
    session.on_input_at(packet(1, vec![0; 56]), 0);
    let message = driver.next_message();
    let expected = message.payload.clone();
    match session.on_input_at(SessionInput::Event(SessionEvent::DriverMessage(message)), 1) {
        SessionAction::SendToClient { slot, send } => {
            assert_eq!(slot, 1);
            assert_eq!(send.payload, expected);
        }
        other => panic!("{:?}", other),
    }
}

#[test]
fn driver_drops_other_sizes() {
    assert!(driver_accepts(&DriverWriteRequest { slot: 0, payload: vec![0; 56] }));
    assert!(!driver_accepts(&DriverWriteRequest { slot: 0, payload: vec![0; 55] }));
    assert!(!driver_accepts(&DriverWriteRequest { slot: 0, payload: vec![] }));
}

#[test]
fn client_keeps_its_place_among_strangers() {
    let mut session = Session::new(100);
    session.on_input_at(packet(1, vec![0; 56]), 0);
    for step in 1..=20u128 {
        session.on_input_at(packet(2, vec![0; 56]), step * 50);
        session.on_input_at(SessionInput::TimeoutTick, step * 50);
        session.on_input_at(driver_message(0, vec![0; 56]), step * 50);
        session.on_input_at(packet(1, vec![0; 56]), step * 50);
    }
    assert_eq!(
        session.state,
        ServerState::ConnectedToClient { client_addr: peer(1), last_seen: 1_000 }
    );
}

#[test]
fn session_waits_until_somebody_claims_it() {
    let mut session = Session::new(100);
    for now in 0..50 {
        for input in [
            SessionInput::TimeoutTick,
            driver_message(1, vec![0; 56]),
            packet(1, vec![0; 55]),
        ] {
            let action = session.on_input_at(input, now);
            assert!(!matches!(action, SessionAction::SendToClient { .. }));
            assert_eq!(session.state, ServerState::WaitingForClient);
        }
    }
}

#[test]
fn client_heard_often_enough_stays() {
    let mut session = Session::new(100);
    session.on_input_at(packet(1, vec![0; 56]), 0);
    let mut last = 0u128;
    for now in 1..=1_000u128 {
        if now == last + 99 {
            session.on_input_at(packet(1, vec![0; 56]), now);
            last = now;
        }
        session.on_input_at(packet(2, vec![0; 56]), now);
        session.on_input_at(SessionInput::TimeoutTick, now);
        assert_eq!(
            session.state,
            ServerState::ConnectedToClient { client_addr: peer(1), last_seen: last }
        );
    }
}
