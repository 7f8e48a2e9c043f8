//! Which client a server is talking to.
//!
//! A server serves one client at a time. Whoever is heard first while it waits
//! becomes the client; the client keeps its place as long as it is heard often
//! enough, and nobody else is listened to meanwhile.

use vstd::prelude::*;

verus! {

/// The address of a UDP socket. Two addresses are the same socket exactly when
/// all their parts agree.
#[derive(Clone, Copy, Debug, PartialEq, Eq, Structural)]
pub enum PeerAddr {
    V4 { ipv4: u32, port: u16 },
    V6 { ipv6: u128, port: u16, flowinfo: u32, scope_id: u32 },
}

/// A datagram that is to be sent.
#[derive(Debug)]
pub struct UdpSendRequest {
    pub peer: PeerAddr,
    pub payload: Vec<u8>,
}

/// Whether there is a client, who it is, and when it was last heard. Times are
/// nanoseconds on a monotonic clock.
#[derive(Clone, Copy, Debug, PartialEq, Eq, Structural)]
pub enum ServerState {
    WaitingForClient,
    ConnectedToClient { client_addr: PeerAddr, last_seen: u128 },
}

/// What a packet meant for the choice of the client.
#[derive(Clone, Copy, Debug, PartialEq, Eq, Structural)]
pub enum PeerOutcome {
    /// There was no client: the sender is the client now.
    Connected,
    /// The sender is the client already.
    Refreshed,
    /// Somebody else is the client.
    Ignored { expected: PeerAddr },
}

/// The time from `last_seen` to `now_ns`, zero where `last_seen` is later.
pub open spec fn elapsed_ns(last_seen: u128, now_ns: u128) -> int {
    if now_ns >= last_seen {
        now_ns - last_seen
    } else {
        0
    }
}

impl ServerState {
    /// The client, if there is one.
    pub open spec fn client(self) -> Option<PeerAddr> {
        match self {
            ServerState::WaitingForClient => None,
            ServerState::ConnectedToClient { client_addr, .. } => Some(client_addr),
        }
    }

    /// Packets from `peer` are listened to.
    pub open spec fn admits(self, peer: PeerAddr) -> bool {
        self.client() is None || self.client() == Some(peer)
    }

    /// The state after a packet from `peer` at time `now_ns`.
    pub open spec fn heard_from(self, peer: PeerAddr, now_ns: u128) -> ServerState {
        if self.admits(peer) {
            ServerState::ConnectedToClient { client_addr: peer, last_seen: now_ns }
        } else {
            self
        }
    }

    /// What a packet from `peer` means.
    pub open spec fn outcome_for(self, peer: PeerAddr) -> PeerOutcome {
        match self.client() {
            None => PeerOutcome::Connected,
            Some(client_addr) => if client_addr == peer {
                PeerOutcome::Refreshed
            } else {
                PeerOutcome::Ignored { expected: client_addr }
            },
        }
    }

    /// At time `now_ns` the client has been silent for `timeout_ns` or longer.
    pub open spec fn timed_out(self, now_ns: u128, timeout_ns: u128) -> bool {
        match self {
            ServerState::WaitingForClient => false,
            ServerState::ConnectedToClient { last_seen, .. } => elapsed_ns(last_seen, now_ns)
                >= timeout_ns,
        }
    }

    /// The state after a look at the clock at time `now_ns`.
    pub open spec fn after_tick(self, now_ns: u128, timeout_ns: u128) -> ServerState {
        if self.timed_out(now_ns, timeout_ns) {
            ServerState::WaitingForClient
        } else {
            self
        }
    }

    /// Takes note of a packet from `peer` at time `now_ns`.
    pub fn on_packet_from(&mut self, peer: PeerAddr, now_ns: u128) -> (outcome: PeerOutcome)
        ensures
            *final(self) == old(self).heard_from(peer, now_ns),
            outcome == old(self).outcome_for(peer),
    {
        match *self {
            ServerState::WaitingForClient => {
                *self = ServerState::ConnectedToClient { client_addr: peer, last_seen: now_ns };
                PeerOutcome::Connected
            },
            ServerState::ConnectedToClient { client_addr, .. } => {
                if client_addr != peer {
                    PeerOutcome::Ignored { expected: client_addr }
                } else {
                    *self = ServerState::ConnectedToClient { client_addr, last_seen: now_ns };
                    PeerOutcome::Refreshed
                }
            },
        }
    }

    /// Lets the client go if it has been silent for too long; says who went.
    pub fn on_timeout_tick(&mut self, now_ns: u128, timeout_ns: u128) -> (gone: Option<PeerAddr>)
        ensures
            *final(self) == old(self).after_tick(now_ns, timeout_ns),
            gone == if old(self).timed_out(now_ns, timeout_ns) {
                old(self).client()
            } else {
                None
            },
    {
        match *self {
            ServerState::WaitingForClient => None,
            ServerState::ConnectedToClient { client_addr, last_seen } => {
                if now_ns.saturating_sub(last_seen) >= timeout_ns {
                    *self = ServerState::WaitingForClient;
                    Some(client_addr)
                } else {
                    None
                }
            },
        }
    }
}

/// Right after a look at the clock, a client that is still there has been
/// heard less than the timeout ago.
pub proof fn law_tick_leaves_only_live_clients(state: ServerState, now_ns: u128, timeout_ns: u128)
    ensures
        match state.after_tick(now_ns, timeout_ns) {
            ServerState::WaitingForClient => true,
            ServerState::ConnectedToClient { last_seen, .. } => elapsed_ns(last_seen, now_ns)
                < timeout_ns,
        },
{
}

/// A client heard less than the timeout before a look at the clock stays.
pub proof fn law_heard_client_stays(
    state: ServerState,
    peer: PeerAddr,
    heard_ns: u128,
    tick_ns: u128,
    timeout_ns: u128,
)
    requires
        state.admits(peer),
        elapsed_ns(heard_ns, tick_ns) < timeout_ns,
    ensures
        state.heard_from(peer, heard_ns).after_tick(tick_ns, timeout_ns) == state.heard_from(
            peer,
            heard_ns,
        ),
        state.heard_from(peer, heard_ns).client() == Some(peer),
{
}

/// Once the client has been silent for the timeout and the clock was looked at,
/// whoever is heard next becomes the client.
pub proof fn law_next_sender_takes_over(
    state: ServerState,
    peer: PeerAddr,
    tick_ns: u128,
    heard_ns: u128,
    timeout_ns: u128,
)
    requires
        state.client() is None || state.timed_out(tick_ns, timeout_ns),
    ensures
        state.after_tick(tick_ns, timeout_ns).heard_from(peer, heard_ns)
            == (ServerState::ConnectedToClient { client_addr: peer, last_seen: heard_ns }),
{
}

/// A packet from somebody who is not the client changes nothing.
pub proof fn law_strangers_change_nothing(state: ServerState, peer: PeerAddr, now_ns: u128)
    requires
        state.client() is Some,
        state.client() != Some(peer),
    ensures
        state.heard_from(peer, now_ns) == state,
        state.outcome_for(peer) == (PeerOutcome::Ignored { expected: state.client().unwrap() }),
{
}

/// What an input means for the choice of the client.
pub enum Signal {
    /// A look at the clock.
    Tick,
    /// A packet that counts.
    HeardFrom { peer: PeerAddr },
    /// Nothing.
    Other,
}

impl ServerState {
    /// The state after `signal` at time `now_ns`.
    pub open spec fn after_signal(self, signal: Signal, timeout_ns: u128, now_ns: u128) -> ServerState {
        match signal {
            Signal::Tick => self.after_tick(now_ns, timeout_ns),
            Signal::HeardFrom { peer } => self.heard_from(peer, now_ns),
            Signal::Other => self,
        }
    }
}

/// The state after `signals`, each with the time at which it came.
pub open spec fn run_signals(
    state: ServerState,
    signals: Seq<(Signal, u128)>,
    timeout_ns: u128,
) -> ServerState
    decreases signals.len(),
{
    if signals.len() == 0 {
        state
    } else {
        run_signals(state, signals.drop_last(), timeout_ns).after_signal(
            signals.last().0,
            timeout_ns,
            signals.last().1,
        )
    }
}

/// When `peer` was heard: at `since`, and at the time of each of its packets
/// among `signals`.
pub open spec fn heard_times(since: u128, signals: Seq<(Signal, u128)>, peer: PeerAddr) -> Seq<u128>
    decreases signals.len(),
{
    if signals.len() == 0 {
        seq![since]
    } else {
        let before = heard_times(since, signals.drop_last(), peer);
        if signals.last().0 == (Signal::HeardFrom { peer }) {
            before.push(signals.last().1)
        } else {
            before
        }
    }
}

/// From each of `times` to the next it takes less than `timeout_ns`.
pub open spec fn often_enough(times: Seq<u128>, timeout_ns: u128) -> bool {
    forall|k: int| 0 < k < times.len() ==> #[trigger] times[k] - times[k - 1] < timeout_ns
}

/// The time of the latest of `signals`, or `since` if there are none.
pub open spec fn latest_time(since: u128, signals: Seq<(Signal, u128)>) -> u128 {
    if signals.len() == 0 {
        since
    } else {
        signals.last().1
    }
}

/// The times of `signals` never go back, and start at `since` or later.
pub open spec fn in_time_order(since: u128, signals: Seq<(Signal, u128)>) -> bool {
    &&& forall|i: int| 0 <= i < signals.len() ==> since <= (#[trigger] signals[i]).1
    &&& forall|i: int, j: int|
        0 <= i <= j < signals.len() ==> (#[trigger] signals[i]).1 <= (#[trigger] signals[j]).1
}

/// As long as nobody is heard, there is no client.
pub proof fn law_nobody_heard_no_client(signals: Seq<(Signal, u128)>, timeout_ns: u128)
    requires
        forall|i: int| 0 <= i < signals.len() ==> !((#[trigger] signals[i]).0 is HeardFrom),
    ensures
        run_signals(ServerState::WaitingForClient, signals, timeout_ns)
            == ServerState::WaitingForClient,
    decreases signals.len(),
{
    if signals.len() > 0 {
        let earlier = signals.drop_last();
        assert forall|i: int| 0 <= i < earlier.len() implies !((
        #[trigger] earlier[i]).0 is HeardFrom) by {
            assert(earlier[i] == signals[i]);
        }
        law_nobody_heard_no_client(earlier, timeout_ns);
        assert(!(signals[signals.len() - 1].0 is HeardFrom));
    }
}

/// A client keeps its place through any signals, whoever else is heard, as long
/// as no look at the clock finds it timed out.
pub proof fn law_client_keeps_its_place(
    state: ServerState,
    signals: Seq<(Signal, u128)>,
    timeout_ns: u128,
)
    requires
        state.client() is Some,
        forall|i: int|
            0 <= i < signals.len() && signals[i].0 is Tick ==> !(#[trigger] run_signals(
                state,
                signals.take(i),
                timeout_ns,
            )).timed_out(signals[i].1, timeout_ns),
    ensures
        run_signals(state, signals, timeout_ns).client() == state.client(),
    decreases signals.len(),
{
    if signals.len() > 0 {
        let earlier = signals.drop_last();
        assert forall|i: int|
            0 <= i < earlier.len() && earlier[i].0 is Tick implies !(#[trigger] run_signals(
            state,
            earlier.take(i),
            timeout_ns,
        )).timed_out(earlier[i].1, timeout_ns) by {
            assert(earlier.take(i) =~= signals.take(i));
            assert(signals[i] == earlier[i]);
        }
        law_client_keeps_its_place(state, earlier, timeout_ns);
        assert(signals.take(signals.len() - 1) =~= earlier);
    }
}

/// Times that never go back do not go back before the latest one either.
proof fn lemma_earlier_in_time_order(since: u128, signals: Seq<(Signal, u128)>)
    requires
        in_time_order(since, signals),
        signals.len() > 0,
    ensures
        in_time_order(since, signals.drop_last()),
        latest_time(since, signals.drop_last()) <= signals.last().1,
{
    let earlier = signals.drop_last();
    assert forall|i: int| 0 <= i < earlier.len() implies since <= (#[trigger] earlier[i]).1 by {
        assert(earlier[i] == signals[i]);
    }
    assert forall|i: int, j: int| 0 <= i <= j < earlier.len() implies (#[trigger] earlier[i]).1 <= (
    #[trigger] earlier[j]).1 by {
        assert(earlier[i] == signals[i] && earlier[j] == signals[j]);
    }
    assert(signals[signals.len() - 1] == signals.last());
    if earlier.len() > 0 {
        assert(earlier.last() == signals[signals.len() - 2]);
    }
}

/// Nobody was heard later than now.
proof fn lemma_heard_by_now(since: u128, signals: Seq<(Signal, u128)>, peer: PeerAddr)
    requires
        in_time_order(since, signals),
    ensures
        heard_times(since, signals, peer).len() > 0,
        heard_times(since, signals, peer).last() <= latest_time(since, signals),
    decreases signals.len(),
{
    if signals.len() > 0 {
        lemma_earlier_in_time_order(since, signals);
        lemma_heard_by_now(since, signals.drop_last(), peer);
    }
}

/// A client that is heard often enough keeps its place, whatever else comes in:
/// if less than the timeout passes from each of its packets to the next, and
/// from the latest of them to now, it is still the client, last seen at its
/// latest packet.
pub proof fn law_client_heard_often_enough_stays(
    client_addr: PeerAddr,
    since: u128,
    signals: Seq<(Signal, u128)>,
    timeout_ns: u128,
)
    requires
        in_time_order(since, signals),
        often_enough(heard_times(since, signals, client_addr), timeout_ns),
        latest_time(since, signals) - heard_times(since, signals, client_addr).last() < timeout_ns,
    ensures
        run_signals(
            ServerState::ConnectedToClient { client_addr, last_seen: since },
            signals,
            timeout_ns,
        ) == (ServerState::ConnectedToClient {
            client_addr,
            last_seen: heard_times(since, signals, client_addr).last(),
        }),
    decreases signals.len(),
{
    if signals.len() > 0 {
        let earlier = signals.drop_last();
        let heard = heard_times(since, signals, client_addr);
        let heard_before = heard_times(since, earlier, client_addr);
        lemma_earlier_in_time_order(since, signals);
        lemma_heard_by_now(since, earlier, client_addr);
        assert forall|k: int| 0 < k < heard_before.len() implies #[trigger] heard_before[k]
            - heard_before[k - 1] < timeout_ns by {
            assert(heard[k] == heard_before[k] && heard[k - 1] == heard_before[k - 1]);
        }
        if signals.last().0 == (Signal::HeardFrom { peer: client_addr }) {
            assert(heard[heard.len() - 1] - heard[heard.len() - 2] < timeout_ns);
        }
        law_client_heard_often_enough_stays(client_addr, since, earlier, timeout_ns);
    }
}

/// `peer` was heard in signal `i`, at time `now_ns`, and not later.
pub open spec fn last_heard_in(
    signals: Seq<(Signal, u128)>,
    i: int,
    peer: PeerAddr,
    now_ns: u128,
) -> bool {
    &&& 0 <= i < signals.len()
    &&& signals[i] == (Signal::HeardFrom { peer }, now_ns)
    &&& forall|j: int|
        i < j < signals.len() ==> (#[trigger] signals[j]).0 != (Signal::HeardFrom { peer })
}

/// Where there was no client at the start, a client is there because it was
/// heard, and the state has the time at which it was heard last.
pub proof fn law_client_was_heard(signals: Seq<(Signal, u128)>, timeout_ns: u128)
    ensures
        run_signals(
            ServerState::WaitingForClient,
            signals,
            timeout_ns,
        ) matches ServerState::ConnectedToClient { client_addr, last_seen } ==> exists|i: int|
            last_heard_in(signals, i, client_addr, last_seen),
    decreases signals.len(),
{
    if signals.len() > 0 {
        let last = signals.len() - 1;
        let earlier = signals.drop_last();
        law_client_was_heard(earlier, timeout_ns);
        if let ServerState::ConnectedToClient { client_addr, last_seen } = run_signals(
            ServerState::WaitingForClient,
            signals,
            timeout_ns,
        ) {
            if signals[last].0 == (Signal::HeardFrom { peer: client_addr }) {
                assert(last_heard_in(signals, last, client_addr, last_seen));
            } else {
                let i = choose|i: int| last_heard_in(earlier, i, client_addr, last_seen);
                assert forall|j: int| i < j < signals.len() implies (#[trigger] signals[j]).0 != (
                Signal::HeardFrom { peer: client_addr }) by {
                    if j < last {
                        assert(signals[j] == earlier[j]);
                    }
                }
                assert(last_heard_in(signals, i, client_addr, last_seen));
            }
        }
    }
}

/// While there is no client, any packet makes its sender the client, heard at
/// the time of the packet.
pub proof fn law_any_sender_connects_while_waiting(peer: PeerAddr, now_ns: u128)
    ensures
        ServerState::WaitingForClient.heard_from(peer, now_ns)
            == (ServerState::ConnectedToClient { client_addr: peer, last_seen: now_ns }),
        ServerState::WaitingForClient.outcome_for(peer) == PeerOutcome::Connected,
        ServerState::WaitingForClient.client() is None,
{
}

/// A packet from the client moves the time at which it was last heard to the time
/// of the packet; one from somebody else moves nothing and is answered with the
/// client that is expected.
pub proof fn law_only_the_client_is_refreshed(
    client_addr: PeerAddr,
    last_seen: u128,
    peer: PeerAddr,
    now_ns: u128,
)
    ensures
        ({
            let state = ServerState::ConnectedToClient { client_addr, last_seen };
            &&& state.client() == Some(client_addr)
            &&& peer == client_addr ==> {
                &&& state.heard_from(peer, now_ns) == (ServerState::ConnectedToClient {
                    client_addr,
                    last_seen: now_ns,
                })
                &&& state.outcome_for(peer) == PeerOutcome::Refreshed
            }
            &&& peer != client_addr ==> {
                &&& state.heard_from(peer, now_ns) == state
                &&& state.outcome_for(peer) == (PeerOutcome::Ignored { expected: client_addr })
            }
        }),
{
}

/// A look at the clock lets the client go exactly when `timeout_ns` or more have
/// passed since it was last heard; a clock that stands before that time counts as
/// no time passed. Otherwise it changes nothing.
pub proof fn law_tick_measures_silence(
    client_addr: PeerAddr,
    last_seen: u128,
    now_ns: u128,
    timeout_ns: u128,
)
    ensures
        ({
            let state = ServerState::ConnectedToClient { client_addr, last_seen };
            let silent = now_ns - last_seen >= timeout_ns || timeout_ns == 0;
            &&& state.timed_out(now_ns, timeout_ns) <==> silent
            &&& silent ==> state.after_tick(now_ns, timeout_ns) == ServerState::WaitingForClient
            &&& !silent ==> state.after_tick(now_ns, timeout_ns) == state
        }),
        !ServerState::WaitingForClient.timed_out(now_ns, timeout_ns),
        ServerState::WaitingForClient.after_tick(now_ns, timeout_ns)
            == ServerState::WaitingForClient,
{
}

} // verus!
