//! The bridge between one UDP client and a slot-addressed driver.

use crate::clock::MonotonicClock;
use crate::session::{PeerAddr, PeerOutcome, ServerState, Signal, UdpSendRequest};
use crate::wire::{make_mock_driver_payload, PROTOCOL_MESSAGE_SIZE};
use vstd::prelude::*;

verus! {

/// How long a client may be silent, in nanoseconds: two seconds.
pub const DEFAULT_CLIENT_TIMEOUT_NS: u128 = 2_000_000_000;

/// A message that the driver emitted.
#[derive(Debug)]
pub struct DriverMessage {
    pub slot: u16,
    pub payload: Vec<u8>,
}

/// A message that the driver is to write.
#[derive(Debug)]
pub struct DriverWriteRequest {
    pub slot: u16,
    pub payload: Vec<u8>,
}

/// What reaches the session from outside.
#[derive(Debug)]
pub enum SessionEvent {
    DriverMessage(DriverMessage),
    UdpPacket { peer: PeerAddr, payload: Vec<u8> },
}

/// What the session loop can wake up for.
#[derive(Debug)]
pub enum SessionInput {
    /// It is time to look at the clock.
    TimeoutTick,
    /// Something came in.
    Event(SessionEvent),
    /// Nothing will come in any more.
    EventsClosed,
    /// A `WriteToDriver` action found the driver gone.
    DriverClosed,
    /// A `SendToClient` action found the UDP sender gone.
    UdpClosed,
}

/// What the session loop is to do next.
#[derive(Debug)]
pub enum SessionAction {
    /// Nothing.
    Idle,
    /// Nothing: the client was let go after its timeout.
    ClientTimedOut { client_addr: PeerAddr },
    /// Nothing: a packet had the wrong size.
    DropUdpPacket { peer: PeerAddr, bytes: usize },
    /// Nothing: a packet came from somebody else than the client.
    IgnorePeer { peer: PeerAddr, expected: PeerAddr },
    /// Pass a packet on to the driver; `connected` if its sender is the client
    /// since this very packet.
    WriteToDriver { peer: PeerAddr, connected: bool, write: DriverWriteRequest },
    /// Nothing: there is no client for a driver message.
    DropWhileWaiting { slot: u16, bytes: usize },
    /// Nothing: a driver message had the wrong size.
    DropDriverMessage { slot: u16, bytes: usize },
    /// Pass a driver message on to the client.
    SendToClient { slot: u16, send: UdpSendRequest },
    /// Leave the loop.
    Stop,
}

/// The state after `input` at time `now_ns`.
pub open spec fn next_state(
    state: ServerState,
    input: SessionInput,
    timeout_ns: u128,
    now_ns: u128,
) -> ServerState {
    match input {
        SessionInput::TimeoutTick => state.after_tick(now_ns, timeout_ns),
        SessionInput::Event(SessionEvent::UdpPacket { peer, payload }) => {
            if payload@.len() == PROTOCOL_MESSAGE_SIZE {
                state.heard_from(peer, now_ns)
            } else {
                state
            }
        },
        _ => state,
    }
}

/// What is done about a packet.
pub open spec fn packet_action(
    state: ServerState,
    peer: PeerAddr,
    payload: Vec<u8>,
) -> SessionAction {
    if payload@.len() != PROTOCOL_MESSAGE_SIZE {
        SessionAction::DropUdpPacket { peer, bytes: payload.len() }
    } else if state.admits(peer) {
        SessionAction::WriteToDriver {
            peer,
            connected: state.client() is None,
            write: DriverWriteRequest { slot: 0, payload },
        }
    } else {
        SessionAction::IgnorePeer { peer, expected: state.client().unwrap() }
    }
}

/// What is done about a driver message.
pub open spec fn driver_action(state: ServerState, message: DriverMessage) -> SessionAction {
    match state.client() {
        None => SessionAction::DropWhileWaiting {
            slot: message.slot,
            bytes: message.payload.len(),
        },
        Some(client_addr) => if message.payload@.len() != PROTOCOL_MESSAGE_SIZE {
            SessionAction::DropDriverMessage { slot: message.slot, bytes: message.payload.len() }
        } else {
            SessionAction::SendToClient {
                slot: message.slot,
                send: UdpSendRequest { peer: client_addr, payload: message.payload },
            }
        },
    }
}

/// What is done about `input` at time `now_ns`.
pub open spec fn session_action(
    state: ServerState,
    input: SessionInput,
    timeout_ns: u128,
    now_ns: u128,
) -> SessionAction {
    match input {
        SessionInput::TimeoutTick => if state.timed_out(now_ns, timeout_ns) {
            SessionAction::ClientTimedOut { client_addr: state.client().unwrap() }
        } else {
            SessionAction::Idle
        },
        SessionInput::Event(SessionEvent::UdpPacket { peer, payload }) => packet_action(
            state,
            peer,
            payload,
        ),
        SessionInput::Event(SessionEvent::DriverMessage(message)) => driver_action(state, message),
        SessionInput::EventsClosed => SessionAction::Stop,
        SessionInput::DriverClosed => SessionAction::Stop,
        SessionInput::UdpClosed => SessionAction::Stop,
    }
}

/// The session between the UDP client and the driver.
pub struct Session {
    pub state: ServerState,
    pub client_timeout_ns: u128,
    pub clock: MonotonicClock,
}

impl Session {
    /// A session that waits for its first client.
    pub fn new(client_timeout_ns: u128) -> (session: Session)
        ensures
            session.state == ServerState::WaitingForClient,
            session.client_timeout_ns == client_timeout_ns,
    {
        Session {
            state: ServerState::WaitingForClient,
            client_timeout_ns,
            clock: MonotonicClock::start(),
        }
    }

    /// Takes `input` at the time that the session's clock shows.
    pub fn on_input(&mut self, input: SessionInput) -> (action: SessionAction)
        ensures
            final(self).client_timeout_ns == old(self).client_timeout_ns,
            final(self).clock == old(self).clock,
            exists|now_ns: u128|
                {
                    &&& final(self).state == #[trigger] next_state(
                        old(self).state,
                        input,
                        old(self).client_timeout_ns,
                        now_ns,
                    )
                    &&& action == session_action(
                        old(self).state,
                        input,
                        old(self).client_timeout_ns,
                        now_ns,
                    )
                },
    {
        let now_ns: u128 = self.clock.now_ns();
        self.on_input_at(input, now_ns)
    }

    /// Takes `input` at time `now_ns`.
    pub fn on_input_at(&mut self, input: SessionInput, now_ns: u128) -> (action: SessionAction)
        ensures
            final(self).client_timeout_ns == old(self).client_timeout_ns,
            final(self).clock == old(self).clock,
            final(self).state == next_state(
                old(self).state,
                input,
                old(self).client_timeout_ns,
                now_ns,
            ),
            action == session_action(old(self).state, input, old(self).client_timeout_ns, now_ns),
    {
        match input {
            SessionInput::TimeoutTick => {
                match self.state.on_timeout_tick(now_ns, self.client_timeout_ns) {
                    Some(client_addr) => SessionAction::ClientTimedOut { client_addr },
                    None => SessionAction::Idle,
                }
            },
            SessionInput::Event(SessionEvent::UdpPacket { peer, payload }) => {
                self.on_udp_packet(peer, payload, now_ns)
            },
            SessionInput::Event(SessionEvent::DriverMessage(message)) => {
                self.on_driver_message(message)
            },
            SessionInput::EventsClosed => SessionAction::Stop,
            SessionInput::DriverClosed => SessionAction::Stop,
            SessionInput::UdpClosed => SessionAction::Stop,
        }
    }

    fn on_udp_packet(&mut self, peer: PeerAddr, payload: Vec<u8>, now_ns: u128) -> (action:
        SessionAction)
        ensures
            final(self).client_timeout_ns == old(self).client_timeout_ns,
            final(self).clock == old(self).clock,
            final(self).state == if payload@.len() == PROTOCOL_MESSAGE_SIZE {
                old(self).state.heard_from(peer, now_ns)
            } else {
                old(self).state
            },
            action == packet_action(old(self).state, peer, payload),
    {
        if payload.len() != PROTOCOL_MESSAGE_SIZE {
            return SessionAction::DropUdpPacket { peer, bytes: payload.len() };
        }
        let connected = match self.state.on_packet_from(peer, now_ns) {
            PeerOutcome::Connected => true,
            PeerOutcome::Refreshed => false,
            PeerOutcome::Ignored { expected } => {
                return SessionAction::IgnorePeer { peer, expected };
            },
        };
        SessionAction::WriteToDriver {
            peer,
            connected,
            write: DriverWriteRequest { slot: 0, payload },
        }
    }

    fn on_driver_message(&self, message: DriverMessage) -> (action: SessionAction)
        ensures
            action == driver_action(self.state, message),
    {
        match self.state {
            ServerState::WaitingForClient => SessionAction::DropWhileWaiting {
                slot: message.slot,
                bytes: message.payload.len(),
            },
            ServerState::ConnectedToClient { client_addr, .. } => {
                if message.payload.len() != PROTOCOL_MESSAGE_SIZE {
                    return SessionAction::DropDriverMessage {
                        slot: message.slot,
                        bytes: message.payload.len(),
                    };
                }
                SessionAction::SendToClient {
                    slot: message.slot,
                    send: UdpSendRequest { peer: client_addr, payload: message.payload },
                }
            },
        }
    }
}

/// A driver that emits numbered messages, spread over four slots.
#[derive(Debug)]
pub struct MockDriver {
    /// How many messages were emitted so far.
    pub seq: u32,
}

impl MockDriver {
    /// A driver that has not emitted anything.
    pub fn new() -> (driver: MockDriver)
        ensures
            driver.seq == 0,
    {
        MockDriver { seq: 0 }
    }

    /// Emits the next message.
    pub fn next_message(&mut self) -> (message: DriverMessage)
        requires
            old(self).seq < u32::MAX,
        ensures
            final(self).seq == old(self).seq + 1,
            message.slot == final(self).seq % 4,
            message.payload@ == crate::wire::mock_driver_payload(final(self).seq),
    {
        self.seq = self.seq + 1;
        let payload = make_mock_driver_payload(self.seq);
        DriverMessage {
            slot: (self.seq % 4) as u16,
            payload: vstd::slice::slice_to_vec(payload.as_slice()),
        }
    }
}

/// Whether the driver writes `request` rather than drop it.
pub open spec fn writable(request: DriverWriteRequest) -> bool {
    request.payload@.len() == PROTOCOL_MESSAGE_SIZE
}

/// Whether the driver writes `request` rather than drop it: it writes messages
/// of the protocol's size only.
pub fn driver_accepts(request: &DriverWriteRequest) -> (accepted: bool)
    ensures
        accepted == writable(*request),
        accepted == (request.payload@.len() == PROTOCOL_MESSAGE_SIZE),
{
    request.payload.len() == PROTOCOL_MESSAGE_SIZE
}

/// `input` is a packet of the protocol's size from `peer`.
pub open spec fn claims(input: SessionInput, peer: PeerAddr) -> bool {
    input matches SessionInput::Event(SessionEvent::UdpPacket { peer: from, payload }) && from
        == peer && payload@.len() == PROTOCOL_MESSAGE_SIZE
}

/// The state after `inputs`, each with the time at which it came.
pub open spec fn run(
    state: ServerState,
    inputs: Seq<(SessionInput, u128)>,
    timeout_ns: u128,
) -> ServerState
    decreases inputs.len(),
{
    if inputs.len() == 0 {
        state
    } else {
        next_state(
            run(state, inputs.drop_last(), timeout_ns),
            inputs.last().0,
            timeout_ns,
            inputs.last().1,
        )
    }
}

/// What `input` means for the choice of the client.
pub open spec fn signal_of(input: SessionInput) -> Signal {
    match input {
        SessionInput::TimeoutTick => Signal::Tick,
        SessionInput::Event(SessionEvent::UdpPacket { peer, payload }) => {
            if payload@.len() == PROTOCOL_MESSAGE_SIZE {
                Signal::HeardFrom { peer }
            } else {
                Signal::Other
            }
        },
        _ => Signal::Other,
    }
}

/// What `inputs` mean for the choice of the client.
pub open spec fn signals(inputs: Seq<(SessionInput, u128)>) -> Seq<(Signal, u128)> {
    inputs.map_values(|timed: (SessionInput, u128)| (signal_of(timed.0), timed.1))
}

/// A run depends on what its inputs mean for the choice of the client alone.
proof fn lemma_run_by_signals(
    state: ServerState,
    inputs: Seq<(SessionInput, u128)>,
    timeout_ns: u128,
)
    ensures
        run(state, inputs, timeout_ns) == crate::session::run_signals(
            state,
            signals(inputs),
            timeout_ns,
        ),
    decreases inputs.len(),
{
    if inputs.len() > 0 {
        lemma_run_by_signals(state, inputs.drop_last(), timeout_ns);
        assert(signals(inputs).drop_last() =~= signals(inputs.drop_last()));
    }
}

/// Whatever goes to the driver came from the client, is addressed to slot zero,
/// and is not dropped by the driver.
pub proof fn law_driver_gets_client_packets_only(
    state: ServerState,
    input: SessionInput,
    timeout_ns: u128,
    now_ns: u128,
)
    ensures
        session_action(state, input, timeout_ns, now_ns) matches SessionAction::WriteToDriver {
            peer,
            connected,
            write,
        } ==> {
            &&& claims(input, peer)
            &&& next_state(state, input, timeout_ns, now_ns).client() == Some(peer)
            &&& connected == (state.client() is None)
            &&& write.slot == 0
            &&& writable(write)
        },
{
}

/// Whatever goes out over UDP goes to the client, is a driver message, and has
/// the protocol's size.
pub proof fn law_udp_goes_to_client_only(
    state: ServerState,
    input: SessionInput,
    timeout_ns: u128,
    now_ns: u128,
)
    ensures
        session_action(state, input, timeout_ns, now_ns) matches SessionAction::SendToClient {
            slot,
            send,
        } ==> {
            &&& state.client() == Some(send.peer)
            &&& send.payload@.len() == PROTOCOL_MESSAGE_SIZE
            &&& input == SessionInput::Event(
                SessionEvent::DriverMessage(DriverMessage { slot, payload: send.payload }),
            )
        },
{
}

/// A client leaves by its timeout, at a look at the clock, and in no other way.
pub proof fn law_client_leaves_by_timeout_only(
    state: ServerState,
    input: SessionInput,
    timeout_ns: u128,
    now_ns: u128,
)
    requires
        state.client() is Some,
        next_state(state, input, timeout_ns, now_ns).client() != state.client(),
    ensures
        input is TimeoutTick,
        state.timed_out(now_ns, timeout_ns),
        next_state(state, input, timeout_ns, now_ns) == ServerState::WaitingForClient,
{
}

/// Driver messages, and packets of the wrong size, neither make nor keep a client.
pub proof fn law_only_packets_of_protocol_size_count(
    state: ServerState,
    input: SessionInput,
    timeout_ns: u128,
    now_ns: u128,
)
    requires
        !(input is TimeoutTick),
        forall|peer: PeerAddr| !claims(input, peer),
    ensures
        next_state(state, input, timeout_ns, now_ns) == state,
{
    if let SessionInput::Event(SessionEvent::UdpPacket { peer, .. }) = input {
        assert(!claims(input, peer));
    }
}

/// As long as no packet of the protocol's size comes in, the session waits and
/// sends nothing.
pub proof fn law_waits_until_claimed(
    inputs: Seq<(SessionInput, u128)>,
    timeout_ns: u128,
    input: SessionInput,
    now_ns: u128,
)
    requires
        forall|i: int, peer: PeerAddr|
            0 <= i < inputs.len() ==> !#[trigger] claims(inputs[i].0, peer),
    ensures
        run(ServerState::WaitingForClient, inputs, timeout_ns) == ServerState::WaitingForClient,
        !(session_action(
            run(ServerState::WaitingForClient, inputs, timeout_ns),
            input,
            timeout_ns,
            now_ns,
        ) is SendToClient),
{
    let all = signals(inputs);
    assert forall|i: int| 0 <= i < all.len() implies !((#[trigger] all[i]).0 is HeardFrom) by {
        if let Signal::HeardFrom { peer } = all[i].0 {
            assert(!claims(inputs[i].0, peer));
        }
    }
    crate::session::law_nobody_heard_no_client(all, timeout_ns);
    lemma_run_by_signals(ServerState::WaitingForClient, inputs, timeout_ns);
}

/// The first sender of a packet of the protocol's size becomes the client, as
/// of the time of that packet.
pub proof fn law_first_sender_becomes_client(
    inputs: Seq<(SessionInput, u128)>,
    timeout_ns: u128,
    peer: PeerAddr,
)
    requires
        inputs.len() > 0,
        claims(inputs.last().0, peer),
        forall|i: int, other: PeerAddr|
            0 <= i < inputs.len() - 1 ==> !#[trigger] claims(inputs[i].0, other),
    ensures
        run(ServerState::WaitingForClient, inputs, timeout_ns) == (
        ServerState::ConnectedToClient { client_addr: peer, last_seen: inputs.last().1 }),
{
    let earlier = inputs.drop_last();
    assert forall|i: int, other: PeerAddr| 0 <= i < earlier.len() implies !#[trigger] claims(
        earlier[i].0,
        other,
    ) by {
        assert(!claims(inputs[i].0, other));
    }
    law_waits_until_claimed(earlier, timeout_ns, inputs.last().0, inputs.last().1);
}

/// A client keeps its place through any inputs, whoever else sends, as long as
/// no look at the clock finds it timed out.
pub proof fn law_client_keeps_its_place(
    state: ServerState,
    inputs: Seq<(SessionInput, u128)>,
    timeout_ns: u128,
)
    requires
        state.client() is Some,
        forall|i: int|
            0 <= i < inputs.len() && inputs[i].0 is TimeoutTick ==> !(#[trigger] run(
                state,
                inputs.take(i),
                timeout_ns,
            )).timed_out(inputs[i].1, timeout_ns),
    ensures
        run(state, inputs, timeout_ns).client() == state.client(),
{
    let all = signals(inputs);
    assert forall|i: int| 0 <= i < all.len() && all[i].0 is Tick implies !(
    #[trigger] crate::session::run_signals(state, all.take(i), timeout_ns)).timed_out(
        all[i].1,
        timeout_ns,
    ) by {
        assert(all.take(i) =~= signals(inputs.take(i)));
        lemma_run_by_signals(state, inputs.take(i), timeout_ns);
        assert(!run(state, inputs.take(i), timeout_ns).timed_out(inputs[i].1, timeout_ns));
    }
    crate::session::law_client_keeps_its_place(state, all, timeout_ns);
    lemma_run_by_signals(state, inputs, timeout_ns);
}

/// A client that is heard often enough keeps its place, whatever else comes in:
/// if less than the timeout passes from each of its packets to the next, and
/// from the latest of them to now, it is still the client, last seen at its
/// latest packet.
pub proof fn law_client_heard_often_enough_stays(
    client_addr: PeerAddr,
    since: u128,
    inputs: Seq<(SessionInput, u128)>,
    timeout_ns: u128,
)
    requires
        crate::session::in_time_order(since, signals(inputs)),
        crate::session::often_enough(
            crate::session::heard_times(since, signals(inputs), client_addr),
            timeout_ns,
        ),
        crate::session::latest_time(since, signals(inputs)) - crate::session::heard_times(
            since,
            signals(inputs),
            client_addr,
        ).last() < timeout_ns,
    ensures
        run(
            ServerState::ConnectedToClient { client_addr, last_seen: since },
            inputs,
            timeout_ns,
        ) == (ServerState::ConnectedToClient {
            client_addr,
            last_seen: crate::session::heard_times(since, signals(inputs), client_addr).last(),
        }),
{
    let state = ServerState::ConnectedToClient { client_addr, last_seen: since };
    crate::session::law_client_heard_often_enough_stays(
        client_addr,
        since,
        signals(inputs),
        timeout_ns,
    );
    lemma_run_by_signals(state, inputs, timeout_ns);
}

/// In a session that started without a client, a client is there because of a
/// packet that it sent, and the session knows the time of its latest packet.
pub proof fn law_client_was_heard(inputs: Seq<(SessionInput, u128)>, timeout_ns: u128)
    ensures
        run(
            ServerState::WaitingForClient,
            inputs,
            timeout_ns,
        ) matches ServerState::ConnectedToClient { client_addr, last_seen } ==> exists|i: int|
            {
                &&& 0 <= i < inputs.len()
                &&& claims(#[trigger] inputs[i].0, client_addr)
                &&& inputs[i].1 == last_seen
                &&& forall|j: int|
                    i < j < inputs.len() ==> !claims(#[trigger] inputs[j].0, client_addr)
            },
{
    let all = signals(inputs);
    crate::session::law_client_was_heard(all, timeout_ns);
    lemma_run_by_signals(ServerState::WaitingForClient, inputs, timeout_ns);
    if let ServerState::ConnectedToClient { client_addr, last_seen } = run(
        ServerState::WaitingForClient,
        inputs,
        timeout_ns,
    ) {
        let i = choose|i: int| crate::session::last_heard_in(all, i, client_addr, last_seen);
        assert(claims(inputs[i].0, client_addr));
        assert forall|j: int| i < j < inputs.len() implies !claims(
            #[trigger] inputs[j].0,
            client_addr,
        ) by {
            assert(all[j].0 != (Signal::HeardFrom { peer: client_addr }));
        }
    }
}

/// Every message of the mock driver reaches the client, if there is one.
pub proof fn law_mock_messages_reach_client(
    state: ServerState,
    seq: u32,
    message: DriverMessage,
    timeout_ns: u128,
    now_ns: u128,
)
    requires
        state.client() is Some,
        message.payload@ == crate::wire::mock_driver_payload(seq),
    ensures
        session_action(
            state,
            SessionInput::Event(SessionEvent::DriverMessage(message)),
            timeout_ns,
            now_ns,
        ) == (SessionAction::SendToClient {
            slot: message.slot,
            send: UdpSendRequest { peer: state.client().unwrap(), payload: message.payload },
        }),
{
    crate::wire::law_mock_driver_payload_reads_back(seq);
}

/// Every packet of the protocol's size reaches the driver, at slot zero and with
/// its very bytes, if its sender is the client or nobody is; its sender is the
/// client then, heard at the time of the packet.
pub proof fn law_packets_of_the_client_reach_the_driver(
    state: ServerState,
    peer: PeerAddr,
    payload: Vec<u8>,
    timeout_ns: u128,
    now_ns: u128,
)
    requires
        payload@.len() == 56,
        state matches ServerState::ConnectedToClient { client_addr, .. } ==> client_addr == peer,
    ensures
        ({
            let input = SessionInput::Event(SessionEvent::UdpPacket { peer, payload });
            &&& session_action(state, input, timeout_ns, now_ns)
                == (SessionAction::WriteToDriver {
                peer,
                connected: state is WaitingForClient,
                write: DriverWriteRequest { slot: 0, payload },
            })
            &&& next_state(state, input, timeout_ns, now_ns) == (ServerState::ConnectedToClient {
                client_addr: peer,
                last_seen: now_ns,
            })
        }),
{
}

/// A packet of the protocol's size from anybody but the client goes nowhere and
/// changes nothing, whatever its bytes are.
pub proof fn law_packets_of_others_go_nowhere(
    client_addr: PeerAddr,
    last_seen: u128,
    peer: PeerAddr,
    payload: Vec<u8>,
    timeout_ns: u128,
    now_ns: u128,
)
    requires
        payload@.len() == 56,
        peer != client_addr,
    ensures
        ({
            let state = ServerState::ConnectedToClient { client_addr, last_seen };
            let input = SessionInput::Event(SessionEvent::UdpPacket { peer, payload });
            &&& session_action(state, input, timeout_ns, now_ns) == (SessionAction::IgnorePeer {
                peer,
                expected: client_addr,
            })
            &&& next_state(state, input, timeout_ns, now_ns) == state
        }),
{
}

/// A packet of any other size is dropped, whoever sent it, and changes nothing.
pub proof fn law_packets_of_other_sizes_are_dropped(
    state: ServerState,
    peer: PeerAddr,
    payload: Vec<u8>,
    timeout_ns: u128,
    now_ns: u128,
)
    requires
        payload@.len() != 56,
    ensures
        ({
            let input = SessionInput::Event(SessionEvent::UdpPacket { peer, payload });
            &&& session_action(state, input, timeout_ns, now_ns) matches
                SessionAction::DropUdpPacket { peer: from, bytes } && from == peer && bytes
                == payload@.len()
            &&& next_state(state, input, timeout_ns, now_ns) == state
        }),
{
}

/// Every driver message of the protocol's size reaches the client, if there is
/// one, under its slot and with its very bytes. Without a client, and at any other
/// size, it is dropped, and the account of it has its slot and its size. The
/// state stays as it is.
pub proof fn law_driver_messages_reach_the_client(
    state: ServerState,
    message: DriverMessage,
    timeout_ns: u128,
    now_ns: u128,
)
    ensures
        ({
            let input = SessionInput::Event(SessionEvent::DriverMessage(message));
            let action = session_action(state, input, timeout_ns, now_ns);
            &&& next_state(state, input, timeout_ns, now_ns) == state
            &&& match state {
                ServerState::WaitingForClient => action matches SessionAction::DropWhileWaiting {
                    slot,
                    bytes,
                } && slot == message.slot && bytes == message.payload@.len(),
                ServerState::ConnectedToClient { client_addr, .. } => {
                    if message.payload@.len() == 56 {
                        action == (SessionAction::SendToClient {
                            slot: message.slot,
                            send: UdpSendRequest { peer: client_addr, payload: message.payload },
                        })
                    } else {
                        action matches SessionAction::DropDriverMessage { slot, bytes } && slot
                            == message.slot && bytes == message.payload@.len()
                    }
                },
            }
        }),
{
}

/// A look at the clock reports exactly the client that it lets go, which is one
/// that has been silent for the timeout, and keeps every other one as it is.
pub proof fn law_tick_reports_who_goes(state: ServerState, timeout_ns: u128, now_ns: u128)
    ensures
        ({
            let action = session_action(state, SessionInput::TimeoutTick, timeout_ns, now_ns);
            let next = next_state(state, SessionInput::TimeoutTick, timeout_ns, now_ns);
            match state {
                ServerState::WaitingForClient => action == SessionAction::Idle && next == state,
                ServerState::ConnectedToClient { client_addr, last_seen } => {
                    if now_ns - last_seen >= timeout_ns || timeout_ns == 0 {
                        action == (SessionAction::ClientTimedOut { client_addr }) && next
                            == ServerState::WaitingForClient
                    } else {
                        action == SessionAction::Idle && next == state
                    }
                },
            }
        }),
{
}

/// The session stops when nothing can come in any more or something cannot be
/// passed on any more, and for no other reason.
pub proof fn law_session_stops_when_a_channel_closes(
    state: ServerState,
    input: SessionInput,
    timeout_ns: u128,
    now_ns: u128,
)
    ensures
        session_action(state, input, timeout_ns, now_ns) is Stop <==> (input is EventsClosed
            || input is DriverClosed || input is UdpClosed),
        input is EventsClosed || input is DriverClosed || input is UdpClosed ==> next_state(
            state,
            input,
            timeout_ns,
            now_ns,
        ) == state,
{
}

/// The driver takes what has the protocol's size, and nothing else.
pub proof fn law_driver_takes_protocol_size_only(request: DriverWriteRequest)
    ensures
        writable(request) <==> request.payload@.len() == 56,
{
}

} // verus!
