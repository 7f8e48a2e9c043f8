//! The benchmark server: it sends numbered, timestamped messages to whichever
//! client holds its one place.

use crate::clock::MonotonicClock;
use crate::session::{PeerAddr, PeerOutcome, ServerState, Signal, UdpSendRequest};
use crate::wire::make_bench_payload;
use vstd::prelude::*;

verus! {

/// What reaches the session from outside.
#[derive(Debug)]
pub enum SessionEvent {
    /// A packet came in; what it holds does not matter.
    ClientPacket { peer: PeerAddr },
    /// There is a message to send.
    BenchMessage(Vec<u8>),
}

/// What the session loop can wake up for.
#[derive(Debug)]
pub enum SessionInput {
    /// It is time to look at the clock.
    TimeoutTick,
    /// Something came in.
    Event(SessionEvent),
    /// Nothing will come in any more.
    EventsClosed,
    /// A `SendToClient` action found the UDP sender gone.
    UdpClosed,
}

/// What the session loop is to do next.
#[derive(Debug)]
pub enum SessionAction {
    /// Nothing.
    Idle,
    /// Nothing: the client was let go after its timeout.
    ClientTimedOut { client_addr: PeerAddr },
    /// Nothing: `peer` is the client now.
    ClientConnected { peer: PeerAddr },
    /// Nothing: a packet came from somebody else than the client.
    IgnorePeer { peer: PeerAddr, expected: PeerAddr },
    /// Nothing: there is no client for a message.
    DropWhileWaiting,
    /// Send a message to the client.
    SendToClient { send: UdpSendRequest },
    /// Leave the loop.
    Stop,
}

/// The state after `input` at time `now_ns`.
pub open spec fn next_state(
    state: ServerState,
    input: SessionInput,
    timeout_ns: u128,
    now_ns: u128,
) -> ServerState {
    match input {
        SessionInput::TimeoutTick => state.after_tick(now_ns, timeout_ns),
        SessionInput::Event(SessionEvent::ClientPacket { peer }) => state.heard_from(peer, now_ns),
        _ => state,
    }
}

/// What is done about `input` at time `now_ns`.
pub open spec fn session_action(
    state: ServerState,
    input: SessionInput,
    timeout_ns: u128,
    now_ns: u128,
) -> SessionAction {
    match input {
        SessionInput::TimeoutTick => if state.timed_out(now_ns, timeout_ns) {
            SessionAction::ClientTimedOut { client_addr: state.client().unwrap() }
        } else {
            SessionAction::Idle
        },
        SessionInput::Event(SessionEvent::ClientPacket { peer }) => match state.client() {
            None => SessionAction::ClientConnected { peer },
            Some(client_addr) => if client_addr == peer {
                SessionAction::Idle
            } else {
                SessionAction::IgnorePeer { peer, expected: client_addr }
            },
        },
        SessionInput::Event(SessionEvent::BenchMessage(payload)) => match state.client() {
            None => SessionAction::DropWhileWaiting,
            Some(client_addr) => SessionAction::SendToClient {
                send: UdpSendRequest { peer: client_addr, payload },
            },
        },
        SessionInput::EventsClosed => SessionAction::Stop,
        SessionInput::UdpClosed => SessionAction::Stop,
    }
}

/// The session with the benchmark client.
pub struct Session {
    pub state: ServerState,
    pub client_timeout_ns: u128,
    pub clock: MonotonicClock,
}

impl Session {
    /// A session that waits for its first client.
    pub fn new(client_timeout_ns: u128) -> (session: Session)
        ensures
            session.state == ServerState::WaitingForClient,
            session.client_timeout_ns == client_timeout_ns,
    {
        Session {
            state: ServerState::WaitingForClient,
            client_timeout_ns,
            clock: MonotonicClock::start(),
        }
    }

    /// Takes `input` at the time that the session's clock shows.
    pub fn on_input(&mut self, input: SessionInput) -> (action: SessionAction)
        ensures
            final(self).client_timeout_ns == old(self).client_timeout_ns,
            final(self).clock == old(self).clock,
            exists|now_ns: u128|
                {
                    &&& final(self).state == #[trigger] next_state(
                        old(self).state,
                        input,
                        old(self).client_timeout_ns,
                        now_ns,
                    )
                    &&& action == session_action(
                        old(self).state,
                        input,
                        old(self).client_timeout_ns,
                        now_ns,
                    )
                },
    {
        let now_ns: u128 = self.clock.now_ns();
        self.on_input_at(input, now_ns)
    }

    /// Takes `input` at time `now_ns`.
    pub fn on_input_at(&mut self, input: SessionInput, now_ns: u128) -> (action: SessionAction)
        ensures
            final(self).client_timeout_ns == old(self).client_timeout_ns,
            final(self).clock == old(self).clock,
            final(self).state == next_state(
                old(self).state,
                input,
                old(self).client_timeout_ns,
                now_ns,
            ),
            action == session_action(old(self).state, input, old(self).client_timeout_ns, now_ns),
    {
        match input {
            SessionInput::TimeoutTick => {
                match self.state.on_timeout_tick(now_ns, self.client_timeout_ns) {
                    Some(client_addr) => SessionAction::ClientTimedOut { client_addr },
                    None => SessionAction::Idle,
                }
            },
            SessionInput::Event(SessionEvent::ClientPacket { peer }) => {
                match self.state.on_packet_from(peer, now_ns) {
                    PeerOutcome::Connected => SessionAction::ClientConnected { peer },
                    PeerOutcome::Refreshed => SessionAction::Idle,
                    PeerOutcome::Ignored { expected } => SessionAction::IgnorePeer {
                        peer,
                        expected,
                    },
                }
            },
            SessionInput::Event(SessionEvent::BenchMessage(payload)) => {
                match self.state {
                    ServerState::WaitingForClient => SessionAction::DropWhileWaiting,
                    ServerState::ConnectedToClient { client_addr, .. } => {
                        SessionAction::SendToClient {
                            send: UdpSendRequest { peer: client_addr, payload },
                        }
                    },
                }
            },
            SessionInput::EventsClosed => SessionAction::Stop,
            SessionInput::UdpClosed => SessionAction::Stop,
        }
    }
}

/// The number after `seq`; zero follows the largest.
pub open spec fn next_seq(seq: u64) -> u64 {
    if seq == u64::MAX {
        0
    } else {
        (seq + 1) as u64
    }
}

/// The source of the benchmark's messages.
#[derive(Debug)]
pub struct BenchDriver {
    /// The number of the latest message.
    pub seq: u64,
}

impl BenchDriver {
    /// A source whose first message has number one.
    pub fn new() -> (driver: BenchDriver)
        ensures
            driver.seq == 0,
    {
        BenchDriver { seq: 0 }
    }

    /// Makes the next message, now.
    pub fn next_payload(&mut self) -> (payload: Vec<u8>)
        ensures
            final(self).seq == next_seq(old(self).seq),
            exists|now_ns: u64|
                payload@ == #[trigger] crate::wire::stamped_payload(final(self).seq, now_ns),
    {
        self.seq = self.seq.wrapping_add(1);
        let message = make_bench_payload(self.seq);
        vstd::slice::slice_to_vec(message.as_slice())
    }
}

/// The state after `inputs`, each with the time at which it came.
pub open spec fn run(
    state: ServerState,
    inputs: Seq<(SessionInput, u128)>,
    timeout_ns: u128,
) -> ServerState
    decreases inputs.len(),
{
    if inputs.len() == 0 {
        state
    } else {
        next_state(
            run(state, inputs.drop_last(), timeout_ns),
            inputs.last().0,
            timeout_ns,
            inputs.last().1,
        )
    }
}

/// What `input` means for the choice of the client.
pub open spec fn signal_of(input: SessionInput) -> Signal {
    match input {
        SessionInput::TimeoutTick => Signal::Tick,
        SessionInput::Event(SessionEvent::ClientPacket { peer }) => Signal::HeardFrom { peer },
        _ => Signal::Other,
    }
}

/// What `inputs` mean for the choice of the client.
pub open spec fn signals(inputs: Seq<(SessionInput, u128)>) -> Seq<(Signal, u128)> {
    inputs.map_values(|timed: (SessionInput, u128)| (signal_of(timed.0), timed.1))
}

/// A run depends on what its inputs mean for the choice of the client alone.
proof fn lemma_run_by_signals(
    state: ServerState,
    inputs: Seq<(SessionInput, u128)>,
    timeout_ns: u128,
)
    ensures
        run(state, inputs, timeout_ns) == crate::session::run_signals(
            state,
            signals(inputs),
            timeout_ns,
        ),
    decreases inputs.len(),
{
    if inputs.len() > 0 {
        lemma_run_by_signals(state, inputs.drop_last(), timeout_ns);
        assert(signals(inputs).drop_last() =~= signals(inputs.drop_last()));
    }
}

/// `input` is a packet from `peer`.
pub open spec fn is_packet_from(input: SessionInput, peer: PeerAddr) -> bool {
    input == SessionInput::Event(SessionEvent::ClientPacket { peer })
}

/// `input` is a packet.
pub open spec fn is_packet(input: SessionInput) -> bool {
    input matches SessionInput::Event(SessionEvent::ClientPacket { .. })
}

/// Messages go out to the client only, as they are.
pub proof fn law_messages_go_to_client_only(
    state: ServerState,
    input: SessionInput,
    timeout_ns: u128,
    now_ns: u128,
)
    ensures
        session_action(state, input, timeout_ns, now_ns) matches SessionAction::SendToClient {
            send,
        } ==> {
            &&& state.client() == Some(send.peer)
            &&& input == SessionInput::Event(SessionEvent::BenchMessage(send.payload))
        },
{
}

/// A client leaves by its timeout, at a look at the clock, and in no other way.
pub proof fn law_client_leaves_by_timeout_only(
    state: ServerState,
    input: SessionInput,
    timeout_ns: u128,
    now_ns: u128,
)
    requires
        state.client() is Some,
        next_state(state, input, timeout_ns, now_ns).client() != state.client(),
    ensures
        input is TimeoutTick,
        state.timed_out(now_ns, timeout_ns),
        next_state(state, input, timeout_ns, now_ns) == ServerState::WaitingForClient,
{
}

/// As long as no packet comes in, the session waits and sends nothing.
pub proof fn law_waits_for_first_packet(
    inputs: Seq<(SessionInput, u128)>,
    timeout_ns: u128,
    input: SessionInput,
    now_ns: u128,
)
    requires
        forall|i: int| 0 <= i < inputs.len() ==> !is_packet((#[trigger] inputs[i]).0),
    ensures
        run(ServerState::WaitingForClient, inputs, timeout_ns) == ServerState::WaitingForClient,
        !(session_action(
            run(ServerState::WaitingForClient, inputs, timeout_ns),
            input,
            timeout_ns,
            now_ns,
        ) is SendToClient),
{
    let all = signals(inputs);
    assert forall|i: int| 0 <= i < all.len() implies !((#[trigger] all[i]).0 is HeardFrom) by {
        assert(!is_packet(inputs[i].0));
    }
    crate::session::law_nobody_heard_no_client(all, timeout_ns);
    lemma_run_by_signals(ServerState::WaitingForClient, inputs, timeout_ns);
}

/// The first packet, whatever it holds, claims its sender's place as the client.
pub proof fn law_first_packet_claims_client(
    inputs: Seq<(SessionInput, u128)>,
    timeout_ns: u128,
    peer: PeerAddr,
)
    requires
        inputs.len() > 0,
        inputs.last().0 == SessionInput::Event(SessionEvent::ClientPacket { peer }),
        forall|i: int| 0 <= i < inputs.len() - 1 ==> !is_packet((#[trigger] inputs[i]).0),
    ensures
        run(ServerState::WaitingForClient, inputs, timeout_ns) == (
        ServerState::ConnectedToClient { client_addr: peer, last_seen: inputs.last().1 }),
{
    let earlier = inputs.drop_last();
    assert forall|i: int| 0 <= i < earlier.len() implies !is_packet((#[trigger] earlier[i]).0) by {
        assert(earlier[i] == inputs[i]);
    }
    law_waits_for_first_packet(earlier, timeout_ns, inputs.last().0, inputs.last().1);
}

/// A client keeps its place through any inputs, whoever else sends, as long as
/// no look at the clock finds it timed out.
pub proof fn law_client_keeps_its_place(
    state: ServerState,
    inputs: Seq<(SessionInput, u128)>,
    timeout_ns: u128,
)
    requires
        state.client() is Some,
        forall|i: int|
            0 <= i < inputs.len() && inputs[i].0 is TimeoutTick ==> !(#[trigger] run(
                state,
                inputs.take(i),
                timeout_ns,
            )).timed_out(inputs[i].1, timeout_ns),
    ensures
        run(state, inputs, timeout_ns).client() == state.client(),
{
    let all = signals(inputs);
    assert forall|i: int| 0 <= i < all.len() && all[i].0 is Tick implies !(
    #[trigger] crate::session::run_signals(state, all.take(i), timeout_ns)).timed_out(
        all[i].1,
        timeout_ns,
    ) by {
        assert(all.take(i) =~= signals(inputs.take(i)));
        lemma_run_by_signals(state, inputs.take(i), timeout_ns);
        assert(!run(state, inputs.take(i), timeout_ns).timed_out(inputs[i].1, timeout_ns));
    }
    crate::session::law_client_keeps_its_place(state, all, timeout_ns);
    lemma_run_by_signals(state, inputs, timeout_ns);
}

/// A client that is heard often enough keeps its place, whatever else comes in:
/// if less than the timeout passes from each of its packets to the next, and
/// from the latest of them to now, it is still the client, last seen at its
/// latest packet.
pub proof fn law_client_heard_often_enough_stays(
    client_addr: PeerAddr,
    since: u128,
    inputs: Seq<(SessionInput, u128)>,
    timeout_ns: u128,
)
    requires
        crate::session::in_time_order(since, signals(inputs)),
        crate::session::often_enough(
            crate::session::heard_times(since, signals(inputs), client_addr),
            timeout_ns,
        ),
        crate::session::latest_time(since, signals(inputs)) - crate::session::heard_times(
            since,
            signals(inputs),
            client_addr,
        ).last() < timeout_ns,
    ensures
        run(
            ServerState::ConnectedToClient { client_addr, last_seen: since },
            inputs,
            timeout_ns,
        ) == (ServerState::ConnectedToClient {
            client_addr,
            last_seen: crate::session::heard_times(since, signals(inputs), client_addr).last(),
        }),
{
    let state = ServerState::ConnectedToClient { client_addr, last_seen: since };
    crate::session::law_client_heard_often_enough_stays(
        client_addr,
        since,
        signals(inputs),
        timeout_ns,
    );
    lemma_run_by_signals(state, inputs, timeout_ns);
}

/// In a session that started without a client, a client is there because of a
/// packet that it sent, and the session knows the time of its latest packet.
pub proof fn law_client_was_heard(inputs: Seq<(SessionInput, u128)>, timeout_ns: u128)
    ensures
        run(
            ServerState::WaitingForClient,
            inputs,
            timeout_ns,
        ) matches ServerState::ConnectedToClient { client_addr, last_seen } ==> exists|i: int|
            {
                &&& 0 <= i < inputs.len()
                &&& is_packet_from(#[trigger] inputs[i].0, client_addr)
                &&& inputs[i].1 == last_seen
                &&& forall|j: int|
                    i < j < inputs.len() ==> !is_packet_from(#[trigger] inputs[j].0, client_addr)
            },
{
    let all = signals(inputs);
    crate::session::law_client_was_heard(all, timeout_ns);
    lemma_run_by_signals(ServerState::WaitingForClient, inputs, timeout_ns);
    if let ServerState::ConnectedToClient { client_addr, last_seen } = run(
        ServerState::WaitingForClient,
        inputs,
        timeout_ns,
    ) {
        let i = choose|i: int| crate::session::last_heard_in(all, i, client_addr, last_seen);
        assert(is_packet_from(inputs[i].0, client_addr));
        assert forall|j: int| i < j < inputs.len() implies !is_packet_from(
            #[trigger] inputs[j].0,
            client_addr,
        ) by {
            assert(all[j].0 != (Signal::HeardFrom { peer: client_addr }));
        }
    }
}

/// A client that receives consecutive messages of the server, in order and
/// without loss, sees none as dropped and none as out of order.
pub proof fn law_lossless_run_shows_no_loss(first: u64, packets: Seq<(Seq<u8>, u64)>, sent_ns: Seq<u64>)
    requires
        packets.len() > 0,
        sent_ns.len() == packets.len(),
        first + packets.len() <= u64::MAX + 1,
        forall|i: int|
            0 <= i < packets.len() ==> (#[trigger] packets[i]).0 == crate::wire::stamped_payload(
                (first + i) as u64,
                sent_ns[i],
            ),
    ensures
        crate::stats::tally(packets).dropped_estimate == 0,
        crate::stats::tally(packets).out_of_order == 0,
        crate::stats::tally(packets).invalid_size == 0,
{
    assert forall|i: int| 0 <= i < packets.len() implies (#[trigger] packets[i]).0.len()
        == crate::wire::BENCH_MESSAGE_SIZE && crate::wire::packet_seq(packets[i].0)
        == crate::wire::packet_seq(packets[0].0) + i by {
        crate::wire::law_stamped_payload_reads_back((first + i) as u64, sent_ns[i]);
        crate::wire::law_stamped_payload_reads_back(first, sent_ns[0]);
        assert(packets[0].0 == crate::wire::stamped_payload((first + 0) as u64, sent_ns[0]));
    }
    crate::stats::lemma_all_right_sized(packets);
    crate::stats::law_no_gap_nothing_dropped(packets);
    crate::stats::law_wrong_sizes_leave_no_other_trace(packets);
}

/// Every message goes to the client, if there is one, with its very bytes, whatever
/// they are and however many. Without a client it is dropped. Either way the state
/// stays as it is.
pub proof fn law_every_message_reaches_the_client(
    state: ServerState,
    payload: Vec<u8>,
    timeout_ns: u128,
    now_ns: u128,
)
    ensures
        ({
            let input = SessionInput::Event(SessionEvent::BenchMessage(payload));
            let action = session_action(state, input, timeout_ns, now_ns);
            &&& next_state(state, input, timeout_ns, now_ns) == state
            &&& match state {
                ServerState::WaitingForClient => action == SessionAction::DropWhileWaiting,
                ServerState::ConnectedToClient { client_addr, .. } => action == (
                SessionAction::SendToClient {
                    send: UdpSendRequest { peer: client_addr, payload },
                }),
            }
        }),
{
}

/// A packet makes its sender the client if there is none, keeps the client if it is
/// from the client, and is ignored otherwise; the account of it says which.
pub proof fn law_packets_make_or_keep_the_client(
    state: ServerState,
    peer: PeerAddr,
    timeout_ns: u128,
    now_ns: u128,
)
    ensures
        ({
            let input = SessionInput::Event(SessionEvent::ClientPacket { peer });
            let action = session_action(state, input, timeout_ns, now_ns);
            let next = next_state(state, input, timeout_ns, now_ns);
            match state {
                ServerState::WaitingForClient => {
                    &&& action == (SessionAction::ClientConnected { peer })
                    &&& next == (ServerState::ConnectedToClient {
                        client_addr: peer,
                        last_seen: now_ns,
                    })
                },
                ServerState::ConnectedToClient { client_addr, .. } => {
                    if peer == client_addr {
                        &&& action == SessionAction::Idle
                        &&& next == (ServerState::ConnectedToClient {
                            client_addr,
                            last_seen: now_ns,
                        })
                    } else {
                        &&& action == (SessionAction::IgnorePeer { peer, expected: client_addr })
                        &&& next == state
                    }
                },
            }
        }),
{
}

/// A look at the clock reports exactly the client that it lets go, which is one
/// that has been silent for the timeout, and keeps every other one as it is.
pub proof fn law_tick_reports_who_goes(state: ServerState, timeout_ns: u128, now_ns: u128)
    ensures
        ({
            let action = session_action(state, SessionInput::TimeoutTick, timeout_ns, now_ns);
            let next = next_state(state, SessionInput::TimeoutTick, timeout_ns, now_ns);
            match state {
                ServerState::WaitingForClient => action == SessionAction::Idle && next == state,
                ServerState::ConnectedToClient { client_addr, last_seen } => {
                    if now_ns - last_seen >= timeout_ns || timeout_ns == 0 {
                        action == (SessionAction::ClientTimedOut { client_addr }) && next
                            == ServerState::WaitingForClient
                    } else {
                        action == SessionAction::Idle && next == state
                    }
                },
            }
        }),
{
}

/// The session stops when nothing can come in any more or nothing can be sent any
/// more, and for no other reason.
pub proof fn law_session_stops_when_a_channel_closes(
    state: ServerState,
    input: SessionInput,
    timeout_ns: u128,
    now_ns: u128,
)
    ensures
        session_action(state, input, timeout_ns, now_ns) is Stop <==> (input is EventsClosed
            || input is UdpClosed),
        input is EventsClosed || input is UdpClosed ==> next_state(
            state,
            input,
            timeout_ns,
            now_ns,
        ) == state,
{
}

/// Numbers go up by one, and start over at zero after the largest.
pub proof fn law_numbers_go_up_by_one(seq: u64)
    ensures
        seq < u64::MAX ==> next_seq(seq) == seq + 1,
        next_seq(u64::MAX) == 0,
{
}

} // verus!
