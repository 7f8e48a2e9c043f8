//! The benchmark client: it keeps the server's attention with uplink packets and
//! keeps statistics on what the server sends back, over the whole run and over
//! the window since the last report.

use crate::clock::{secs_to_ns, unix_now_ns_u64, MonotonicClock};
use crate::session::PeerAddr;
use crate::stats::{BenchStats, ReportLine};
use crate::wire::{make_uplink_payload, BENCH_MESSAGE_SIZE};
use vstd::prelude::*;

verus! {

/// What became of a datagram.
#[derive(Clone, Copy, Debug, PartialEq, Eq, Structural)]
pub enum DatagramOutcome {
    /// It counts, and from now on only its sender does.
    LockedOn,
    /// It counts.
    Counted,
    /// It does not count: it is not from the sender that does.
    Ignored { expected: PeerAddr },
}

/// How many packets were sent to the server.
#[derive(Clone, Copy, Debug)]
pub struct UplinkStats {
    pub phase: &'static str,
    pub sent_to_server: u64,
    pub sent_to_server_cumulative: u64,
}

/// What is printed at a report: on the window, on the whole run, on the uplink.
#[derive(Clone, Copy, Debug)]
pub struct ClientReport {
    pub window: ReportLine<'static>,
    pub cumulative: ReportLine<'static>,
    pub uplink: UplinkStats,
}

/// A run of the benchmark client, after its first packet was sent.
pub struct BenchClient {
    pub cumulative: BenchStats,
    pub window: BenchStats,
    pub active_server_peer: Option<PeerAddr>,
    pub uplink_seq: u64,
    pub sent_to_server_total: u64,
    pub sent_to_server_window: u64,
    pub duration_ns: u128,
    pub clock: MonotonicClock,
}

/// What a run has gathered.
pub struct ClientView {
    pub cumulative: crate::stats::StatsView,
    pub window: crate::stats::StatsView,
    pub active_server_peer: Option<PeerAddr>,
    pub uplink_seq: u64,
    pub sent_to_server_total: u64,
    pub sent_to_server_window: u64,
}

impl View for BenchClient {
    type V = ClientView;

    open spec fn view(&self) -> ClientView {
        ClientView {
            cumulative: self.cumulative@,
            window: self.window@,
            active_server_peer: self.active_server_peer,
            uplink_seq: self.uplink_seq,
            sent_to_server_total: self.sent_to_server_total,
            sent_to_server_window: self.sent_to_server_window,
        }
    }
}

impl ClientView {
    /// At the start: the first packet, number zero, was sent.
    pub open spec fn start() -> ClientView {
        ClientView {
            cumulative: crate::stats::StatsView::empty(),
            window: crate::stats::StatsView::empty(),
            active_server_peer: None,
            uplink_seq: 0,
            sent_to_server_total: 1,
            sent_to_server_window: 1,
        }
    }

    /// Datagrams from `peer` count.
    pub open spec fn admits(self, peer: PeerAddr) -> bool {
        self.active_server_peer is None || self.active_server_peer == Some(peer)
    }

    /// After a datagram from `peer`. The two statistics each look at the clock.
    pub open spec fn after_datagram(
        self,
        peer: PeerAddr,
        packet: Seq<u8>,
        cumulative_now_ns: u64,
        window_now_ns: u64,
    ) -> ClientView {
        if self.admits(peer) {
            ClientView {
                cumulative: self.cumulative.after_packet(packet, cumulative_now_ns),
                window: self.window.after_packet(packet, window_now_ns),
                active_server_peer: Some(peer),
                ..self
            }
        } else {
            self
        }
    }

    /// What becomes of a datagram from `peer`.
    pub open spec fn outcome_for(self, peer: PeerAddr) -> DatagramOutcome {
        match self.active_server_peer {
            None => DatagramOutcome::LockedOn,
            Some(expected) => if expected == peer {
                DatagramOutcome::Counted
            } else {
                DatagramOutcome::Ignored { expected }
            },
        }
    }

    /// After a packet was made for the server.
    pub open spec fn after_uplink(self) -> ClientView {
        ClientView { uplink_seq: crate::bench_server::next_seq(self.uplink_seq), ..self }
    }

    /// After a packet was sent to the server.
    pub open spec fn after_sent(self) -> ClientView {
        ClientView {
            sent_to_server_total: crate::stats::counted(self.sent_to_server_total, 1),
            sent_to_server_window: crate::stats::counted(self.sent_to_server_window, 1),
            ..self
        }
    }

    /// After a report: a new window begins.
    pub open spec fn after_report(self) -> ClientView {
        ClientView {
            window: crate::stats::StatsView::empty(),
            sent_to_server_window: 0,
            ..self
        }
    }
}

impl BenchClient {
    /// A run of `duration_sec` seconds that starts now.
    pub fn new(duration_sec: u64) -> (client: BenchClient)
        ensures
            client@ == ClientView::start(),
            client.duration_ns == duration_sec * 1_000_000_000,
    {
        BenchClient {
            cumulative: BenchStats::default(),
            window: BenchStats::default(),
            active_server_peer: None,
            uplink_seq: 0,
            sent_to_server_total: 1,
            sent_to_server_window: 1,
            duration_ns: secs_to_ns(duration_sec),
            clock: MonotonicClock::start(),
        }
    }

    /// Whether the run is over `now_ns` nanoseconds after its start.
    pub fn is_over_at(&self, now_ns: u128) -> (over: bool)
        ensures
            over == (now_ns >= self.duration_ns),
    {
        now_ns >= self.duration_ns
    }

    /// Whether the run is over now.
    pub fn is_over(&self) -> (over: bool)
        ensures
            self.duration_ns == 0 ==> over,
    {
        self.is_over_at(self.clock.now_ns())
    }

    /// Makes the next packet for the server, now.
    pub fn next_uplink(&mut self) -> (payload: [u8; BENCH_MESSAGE_SIZE])
        ensures
            final(self)@ == old(self)@.after_uplink(),
            final(self).duration_ns == old(self).duration_ns,
            final(self).clock == old(self).clock,
            exists|now_ns: u64|
                payload@ == #[trigger] crate::wire::stamped_payload(
                    final(self).uplink_seq,
                    now_ns,
                ),
    {
        self.uplink_seq = self.uplink_seq.wrapping_add(1);
        make_uplink_payload(self.uplink_seq)
    }

    /// Takes note that a packet was sent to the server.
    pub fn uplink_sent(&mut self)
        ensures
            final(self)@ == old(self)@.after_sent(),
            final(self).duration_ns == old(self).duration_ns,
            final(self).clock == old(self).clock,
    {
        self.sent_to_server_total = self.sent_to_server_total.saturating_add(1);
        self.sent_to_server_window = self.sent_to_server_window.saturating_add(1);
    }

    /// Decides whether datagrams from `peer` count, and holds on to it if
    /// nobody's did so far.
    fn lock_onto(&mut self, peer: PeerAddr) -> (outcome: DatagramOutcome)
        ensures
            final(self)@ == (ClientView {
                active_server_peer: if old(self)@.admits(peer) {
                    Some(peer)
                } else {
                    old(self)@.active_server_peer
                },
                ..old(self)@
            }),
            final(self).duration_ns == old(self).duration_ns,
            final(self).clock == old(self).clock,
            outcome == old(self)@.outcome_for(peer),
    {
        match self.active_server_peer {
            None => {
                self.active_server_peer = Some(peer);
                DatagramOutcome::LockedOn
            },
            Some(expected) => if expected != peer {
                DatagramOutcome::Ignored { expected }
            } else {
                DatagramOutcome::Counted
            },
        }
    }

    /// Takes note of a datagram from `peer`, received now.
    pub fn on_datagram(&mut self, peer: PeerAddr, packet: &[u8]) -> (outcome: DatagramOutcome)
        ensures
            exists|cumulative_now_ns: u64, window_now_ns: u64|
                final(self)@ == #[trigger] old(self)@.after_datagram(
                    peer,
                    packet@,
                    cumulative_now_ns,
                    window_now_ns,
                ),
            final(self).duration_ns == old(self).duration_ns,
            final(self).clock == old(self).clock,
            outcome == old(self)@.outcome_for(peer),
    {
        let cumulative_now_ns: u64 = unix_now_ns_u64();
        let window_now_ns: u64 = unix_now_ns_u64();
        self.on_datagram_at(peer, packet, cumulative_now_ns, window_now_ns)
    }

    /// Takes note of a datagram from `peer`, at the times at which the two
    /// statistics look at the clock.
    pub fn on_datagram_at(
        &mut self,
        peer: PeerAddr,
        packet: &[u8],
        cumulative_now_ns: u64,
        window_now_ns: u64,
    ) -> (outcome: DatagramOutcome)
        ensures
            final(self)@ == old(self)@.after_datagram(
                peer,
                packet@,
                cumulative_now_ns,
                window_now_ns,
            ),
            final(self).duration_ns == old(self).duration_ns,
            final(self).clock == old(self).clock,
            outcome == old(self)@.outcome_for(peer),
    {
        let outcome = self.lock_onto(peer);
        if let DatagramOutcome::Ignored { .. } = outcome {
            return outcome;
        }
        self.cumulative.on_packet_at(packet, cumulative_now_ns);
        self.window.on_packet_at(packet, window_now_ns);
        outcome
    }

    /// The report on the window that ends now; a new window begins.
    pub fn on_report_tick(&mut self) -> (report: ClientReport)
        ensures
            final(self)@ == old(self)@.after_report(),
            final(self).duration_ns == old(self).duration_ns,
            final(self).clock == old(self).clock,
            report == client_report(old(self)@, "window", "cumulative", "window"),
    {
        let report = ClientReport {
            window: self.window.print_report("window"),
            cumulative: self.cumulative.print_report("cumulative"),
            uplink: UplinkStats {
                phase: "window",
                sent_to_server: self.sent_to_server_window,
                sent_to_server_cumulative: self.sent_to_server_total,
            },
        };
        self.window = BenchStats::default();
        self.sent_to_server_window = 0;
        report
    }

    /// The report at the end of the run.
    pub fn final_report(&self) -> (report: ClientReport)
        ensures
            report == client_report(self@, "window-final", "final", "final"),
    {
        ClientReport {
            window: self.window.print_report("window-final"),
            cumulative: self.cumulative.print_report("final"),
            uplink: UplinkStats {
                phase: "final",
                sent_to_server: self.sent_to_server_window,
                sent_to_server_cumulative: self.sent_to_server_total,
            },
        }
    }
}

/// The report on what a run has gathered, its parts under the given labels.
pub open spec fn client_report(
    client: ClientView,
    window: &'static str,
    cumulative: &'static str,
    uplink: &'static str,
) -> ClientReport {
    ClientReport {
        window: crate::stats::line_of(client.window, window),
        cumulative: crate::stats::line_of(client.cumulative, cumulative),
        uplink: UplinkStats {
            phase: uplink,
            sent_to_server: client.sent_to_server_window,
            sent_to_server_cumulative: client.sent_to_server_total,
        },
    }
}

/// What can happen to a run.
pub enum ClientEvent {
    /// A report was due.
    Report,
    /// A packet was made for the server and sent.
    Uplink,
    /// A datagram came in.
    Datagram { peer: PeerAddr, packet: Seq<u8>, cumulative_now_ns: u64, window_now_ns: u64 },
}

/// What a run has gathered after `events`.
pub open spec fn run(events: Seq<ClientEvent>) -> ClientView
    decreases events.len(),
{
    if events.len() == 0 {
        ClientView::start()
    } else {
        let before = run(events.drop_last());
        match events.last() {
            ClientEvent::Report => before.after_report(),
            ClientEvent::Uplink => before.after_uplink().after_sent(),
            ClientEvent::Datagram { peer, packet, cumulative_now_ns, window_now_ns } => {
                before.after_datagram(peer, packet, cumulative_now_ns, window_now_ns)
            },
        }
    }
}

/// The sender of the first datagram among `events`.
pub open spec fn first_sender(events: Seq<ClientEvent>) -> Option<PeerAddr>
    decreases events.len(),
{
    if events.len() == 0 {
        None
    } else {
        match (first_sender(events.drop_last()), events.last()) {
            (Some(peer), _) => Some(peer),
            (None, ClientEvent::Datagram { peer, .. }) => Some(peer),
            (None, _) => None,
        }
    }
}

/// The datagrams among `events` that came from the sender of the first one,
/// with the times at which they count for the whole run.
pub open spec fn counted_packets(events: Seq<ClientEvent>) -> Seq<(Seq<u8>, u64)>
    decreases events.len(),
{
    if events.len() == 0 {
        Seq::empty()
    } else {
        let before = counted_packets(events.drop_last());
        match events.last() {
            ClientEvent::Datagram { peer, packet, cumulative_now_ns, .. } if first_sender(events)
                == Some(peer) => before.push((packet, cumulative_now_ns)),
            _ => before,
        }
    }
}

/// Those of them since the last report, with the times at which they count for
/// the window.
pub open spec fn window_packets(events: Seq<ClientEvent>) -> Seq<(Seq<u8>, u64)>
    decreases events.len(),
{
    if events.len() == 0 {
        Seq::empty()
    } else {
        let before = window_packets(events.drop_last());
        match events.last() {
            ClientEvent::Datagram { peer, packet, window_now_ns, .. } if first_sender(events)
                == Some(peer) => before.push((packet, window_now_ns)),
            ClientEvent::Report => Seq::empty(),
            _ => before,
        }
    }
}

/// How many packets were sent to the server among `events`.
pub open spec fn uplinks(events: Seq<ClientEvent>) -> nat
    decreases events.len(),
{
    if events.len() == 0 {
        0
    } else {
        uplinks(events.drop_last()) + if events.last() is Uplink {
            1nat
        } else {
            0
        }
    }
}

/// A run locks onto the sender of the first datagram for good. Its statistics
/// are those of that sender's datagrams and of no others: all of them for the
/// whole run, and those since the last report for the window.
pub proof fn law_statistics_cover_first_sender(events: Seq<ClientEvent>)
    ensures
        run(events).active_server_peer == first_sender(events),
        run(events).cumulative == crate::stats::tally(counted_packets(events)),
        run(events).window == crate::stats::tally(window_packets(events)),
    decreases events.len(),
{
    if events.len() > 0 {
        let earlier = events.drop_last();
        law_statistics_cover_first_sender(earlier);
        if let ClientEvent::Datagram { peer, packet, cumulative_now_ns, window_now_ns } =
            events.last() {
            if first_sender(events) == Some(peer) {
                assert(counted_packets(events).drop_last() =~= counted_packets(earlier));
                assert(window_packets(events).drop_last() =~= window_packets(earlier));
            }
        }
    }
}

/// Every packet to the server is numbered and counted, the first one, number
/// zero, included; a window never counts more than the whole run.
pub proof fn law_uplink_is_counted(events: Seq<ClientEvent>)
    requires
        uplinks(events) < u64::MAX,
    ensures
        run(events).uplink_seq == uplinks(events),
        run(events).sent_to_server_total == uplinks(events) + 1,
        run(events).sent_to_server_window <= run(events).sent_to_server_total,
    decreases events.len(),
{
    if events.len() > 0 {
        law_uplink_is_counted(events.drop_last());
    }
}

/// Every packet to the server has the size that the bridge asks for.
pub proof fn law_uplink_has_protocol_size(seq: u64, now_ns: u64)
    ensures
        crate::wire::stamped_payload(seq, now_ns).len() == crate::wire::PROTOCOL_MESSAGE_SIZE,
{
    crate::wire::law_stamped_payload_reads_back(seq, now_ns);
}

/// What a run has gathered is what stands in its fields.
pub proof fn law_view_shows_the_fields(client: BenchClient)
    ensures
        client@.cumulative == client.cumulative@,
        client@.window == client.window@,
        client@.active_server_peer == client.active_server_peer,
        client@.uplink_seq == client.uplink_seq,
        client@.sent_to_server_total == client.sent_to_server_total,
        client@.sent_to_server_window == client.sent_to_server_window,
{
}

/// A run starts with one packet sent, number zero, and with nothing received from
/// anybody.
pub proof fn law_run_starts_with_one_packet_sent()
    ensures
        ClientView::start().uplink_seq == 0,
        ClientView::start().sent_to_server_total == 1,
        ClientView::start().sent_to_server_window == 1,
        ClientView::start().active_server_peer is None,
        ClientView::start().cumulative == crate::stats::tally(Seq::empty()),
        ClientView::start().window == crate::stats::tally(Seq::empty()),
{
}

/// A datagram counts, for the whole run and for the window, if it is from the
/// sender that the run holds on to, and the first one makes its sender that one.
/// Any other datagram changes nothing. None touches the uplink.
pub proof fn law_datagrams_count_by_sender(
    client: ClientView,
    peer: PeerAddr,
    packet: Seq<u8>,
    cumulative_now_ns: u64,
    window_now_ns: u64,
)
    ensures
        ({
            let after = client.after_datagram(peer, packet, cumulative_now_ns, window_now_ns);
            let outcome = client.outcome_for(peer);
            match client.active_server_peer {
                Some(expected) if expected != peer => {
                    &&& after == client
                    &&& outcome == (DatagramOutcome::Ignored { expected })
                },
                held => {
                    &&& outcome == if held is None {
                        DatagramOutcome::LockedOn
                    } else {
                        DatagramOutcome::Counted
                    }
                    &&& after.active_server_peer == Some(peer)
                    &&& after.cumulative == client.cumulative.after_packet(
                        packet,
                        cumulative_now_ns,
                    )
                    &&& after.window == client.window.after_packet(packet, window_now_ns)
                    &&& after.uplink_seq == client.uplink_seq
                    &&& after.sent_to_server_total == client.sent_to_server_total
                    &&& after.sent_to_server_window == client.sent_to_server_window
                },
            }
        }),
{
}

/// Making a packet for the server moves its number on by one, from the largest to
/// zero, and nothing else.
pub proof fn law_uplink_moves_the_number_only(client: ClientView)
    ensures
        ({
            let after = client.after_uplink();
            &&& client.uplink_seq < u64::MAX ==> after.uplink_seq == client.uplink_seq + 1
            &&& client.uplink_seq == u64::MAX ==> after.uplink_seq == 0
            &&& after.cumulative == client.cumulative && after.window == client.window
            &&& after.active_server_peer == client.active_server_peer
            &&& after.sent_to_server_total == client.sent_to_server_total
            &&& after.sent_to_server_window == client.sent_to_server_window
        }),
{
}

/// A packet sent to the server counts once in the run and once in the window, as
/// far as the counters reach, and changes nothing else.
pub proof fn law_sent_counts_once(client: ClientView)
    ensures
        ({
            let after = client.after_sent();
            &&& client.sent_to_server_total < u64::MAX ==> after.sent_to_server_total
                == client.sent_to_server_total + 1
            &&& client.sent_to_server_total == u64::MAX ==> after.sent_to_server_total == u64::MAX
            &&& client.sent_to_server_window < u64::MAX ==> after.sent_to_server_window
                == client.sent_to_server_window + 1
            &&& client.sent_to_server_window == u64::MAX ==> after.sent_to_server_window
                == u64::MAX
            &&& after.cumulative == client.cumulative && after.window == client.window
            &&& after.active_server_peer == client.active_server_peer
            &&& after.uplink_seq == client.uplink_seq
        }),
{
}

/// A report empties the window and leaves everything else as it is.
pub proof fn law_report_empties_the_window_only(client: ClientView)
    ensures
        ({
            let after = client.after_report();
            &&& after.window == crate::stats::tally(Seq::empty())
            &&& after.sent_to_server_window == 0
            &&& after.cumulative == client.cumulative
            &&& after.active_server_peer == client.active_server_peer
            &&& after.uplink_seq == client.uplink_seq
            &&& after.sent_to_server_total == client.sent_to_server_total
        }),
{
}

/// The parts of a report show, under their labels, the window's counters, the
/// run's counters, and the packets sent in each of the two.
pub proof fn law_report_parts_show_their_subject(
    client: ClientView,
    window: &'static str,
    cumulative: &'static str,
    uplink: &'static str,
)
    ensures
        ({
            let r = client_report(client, window, cumulative, uplink);
            &&& r.window.phase == window && r.cumulative.phase == cumulative
            &&& r.window.received == client.window.received
            &&& r.window.invalid_size == client.window.invalid_size
            &&& r.window.out_of_order == client.window.out_of_order
            &&& r.window.dropped_estimate == client.window.dropped_estimate
            &&& r.window.clock_skew_count == client.window.clock_skew_count
            &&& r.window.latency == crate::stats::line_of(client.window, window).latency
            &&& r.cumulative.received == client.cumulative.received
            &&& r.cumulative.invalid_size == client.cumulative.invalid_size
            &&& r.cumulative.out_of_order == client.cumulative.out_of_order
            &&& r.cumulative.dropped_estimate == client.cumulative.dropped_estimate
            &&& r.cumulative.clock_skew_count == client.cumulative.clock_skew_count
            &&& r.cumulative.latency == crate::stats::line_of(client.cumulative, cumulative).latency
            &&& r.uplink.phase == uplink
            &&& r.uplink.sent_to_server == client.sent_to_server_window
            &&& r.uplink.sent_to_server_cumulative == client.sent_to_server_total
        }),
{
}

} // verus!
