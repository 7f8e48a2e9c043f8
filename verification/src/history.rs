//! What the statistics say of a whole series of packets.

use crate::stats::{BenchStats, StatsView};
use vstd::prelude::*;

verus! {

/// How many numbers lie strictly between those of neighbouring packets, over all
/// neighbours of which the second has the greater number.
pub open spec fn skipped_numbers(kept: Seq<(Seq<u8>, u64)>) -> nat
    decreases kept.len(),
{
    if kept.len() < 2 {
        0
    } else {
        let (before, number) = (
            crate::wire::packet_seq(kept[kept.len() - 2].0),
            crate::wire::packet_seq(kept[kept.len() - 1].0),
        );
        skipped_numbers(kept.drop_last()) + if number > before {
            (number - before - 1) as nat
        } else {
            0
        }
    }
}

/// How many packets have a number that is not above that of the packet before.
pub open spec fn late_packets(kept: Seq<(Seq<u8>, u64)>) -> nat
    decreases kept.len(),
{
    if kept.len() < 2 {
        0
    } else {
        let (before, number) = (
            crate::wire::packet_seq(kept[kept.len() - 2].0),
            crate::wire::packet_seq(kept[kept.len() - 1].0),
        );
        late_packets(kept.drop_last()) + if number <= before {
            1nat
        } else {
            0
        }
    }
}

/// How many packets were sent later than they were received.
pub open spec fn packets_from_the_future(kept: Seq<(Seq<u8>, u64)>) -> nat
    decreases kept.len(),
{
    if kept.len() == 0 {
        0
    } else {
        packets_from_the_future(kept.drop_last()) + if crate::wire::packet_sent_ns(kept.last().0)
            > kept.last().1 {
            1nat
        } else {
            0
        }
    }
}

/// How long each packet was on its way, in the order in which they came, those from
/// the future aside.
pub open spec fn travel_times(kept: Seq<(Seq<u8>, u64)>) -> Seq<u64>
    decreases kept.len(),
{
    if kept.len() == 0 {
        Seq::empty()
    } else {
        let sent_ns = crate::wire::packet_sent_ns(kept.last().0);
        if sent_ns > kept.last().1 {
            travel_times(kept.drop_last())
        } else {
            travel_times(kept.drop_last()).push((kept.last().1 - sent_ns) as u64)
        }
    }
}

/// Packets in any order, with any gaps, repetitions and sizes among them, are told
/// by the counters exactly, as far as a counter reaches: of those with the
/// benchmark's size, the numbers that were skipped between neighbours, the ones
/// that came late, the ones from the future and the others, with their travel
/// times; of the rest, how many there were.
pub proof fn law_counters_tell_the_history(packets: Seq<(Seq<u8>, u64)>)
    ensures
        ({
            let t = crate::stats::tally(packets);
            let kept = crate::stats::right_sized(packets);
            &&& t.dropped_estimate == vstd::math::min(skipped_numbers(kept) as int, u64::MAX as int)
            &&& t.out_of_order == vstd::math::min(late_packets(kept) as int, u64::MAX as int)
            &&& t.clock_skew_count == vstd::math::min(
                packets_from_the_future(kept) as int,
                u64::MAX as int,
            )
            &&& t.latencies_ns == travel_times(kept)
            &&& t.received == vstd::math::min(travel_times(kept).len() as int, u64::MAX as int)
            &&& kept.len() <= packets.len()
            &&& t.invalid_size == vstd::math::min(
                packets.len() - kept.len(),
                u64::MAX as int,
            )
            &&& t.last_seq == if kept.len() == 0 {
                None
            } else {
                Some(crate::wire::packet_seq(kept.last().0))
            }
        }),
    decreases packets.len(),
{
    if packets.len() > 0 {
        let earlier = packets.drop_last();
        let before = crate::stats::right_sized(earlier);
        let kept = crate::stats::right_sized(packets);
        law_counters_tell_the_history(earlier);
        if packets.last().0.len() == 56 {
            assert(kept.drop_last() =~= before);
            assert(kept.last() == packets.last());
            if before.len() > 0 {
                assert(kept[kept.len() - 2] == before.last());
            }
        }
    }
}

/// `right_sized` picks the packets of 56 bytes, in the order in which they came.
pub proof fn law_right_sized_picks_by_size(packets: Seq<(Seq<u8>, u64)>)
    ensures
        crate::stats::right_sized(packets) == packets.filter(
            |packet: (Seq<u8>, u64)| packet.0.len() == 56,
        ),
    decreases packets.len(),
{
    reveal(Seq::filter);
    if packets.len() > 0 {
        law_right_sized_picks_by_size(packets.drop_last());
    } else {
        assert(packets =~= Seq::empty());
    }
}

/// Whatever the counters show, a packet of 56 bytes moves them so: one more late
/// packet if its number is not above that of the packet before; else as many more
/// skipped numbers as lie between the two; its number is the latest; and it gives
/// its travel time as a sample, or is one more from the future. Counters stay at
/// their largest value.
pub proof fn law_packet_moves_counters(stats: StatsView, packet: Seq<u8>, now_ns: u64)
    requires
        packet.len() == 56,
    ensures
        ({
            let t = stats.after_packet(packet, now_ns);
            let number = crate::wire::packet_seq(packet);
            let sent_ns = crate::wire::packet_sent_ns(packet);
            &&& t.last_seq == Some(number)
            &&& t.invalid_size == stats.invalid_size
            &&& match stats.last_seq {
                Some(before) if number <= before => {
                    &&& t.out_of_order == vstd::math::min(stats.out_of_order + 1, u64::MAX as int)
                    &&& t.dropped_estimate == stats.dropped_estimate
                },
                Some(before) => {
                    &&& t.out_of_order == stats.out_of_order
                    &&& t.dropped_estimate == vstd::math::min(
                        stats.dropped_estimate + (number - before - 1),
                        u64::MAX as int,
                    )
                },
                None => {
                    &&& t.out_of_order == stats.out_of_order
                    &&& t.dropped_estimate == stats.dropped_estimate
                },
            }
            &&& if sent_ns <= now_ns {
                &&& t.received == vstd::math::min(stats.received + 1, u64::MAX as int)
                &&& t.clock_skew_count == stats.clock_skew_count
                &&& t.latencies_ns.len() == stats.latencies_ns.len() + 1
                &&& t.latencies_ns.drop_last() =~= stats.latencies_ns
                &&& t.latencies_ns.last() == now_ns - sent_ns
            } else {
                &&& t.received == stats.received
                &&& t.clock_skew_count == vstd::math::min(
                    stats.clock_skew_count + 1,
                    u64::MAX as int,
                )
                &&& t.latencies_ns == stats.latencies_ns
            }
        }),
{
}

/// Whatever the counters show, a packet of any other size moves only the count of
/// those.
pub proof fn law_other_sizes_move_one_counter(stats: StatsView, packet: Seq<u8>, now_ns: u64)
    requires
        packet.len() != 56,
    ensures
        ({
            let t = stats.after_packet(packet, now_ns);
            &&& t.invalid_size == vstd::math::min(stats.invalid_size + 1, u64::MAX as int)
            &&& t.received == stats.received
            &&& t.clock_skew_count == stats.clock_skew_count
            &&& t.out_of_order == stats.out_of_order
            &&& t.dropped_estimate == stats.dropped_estimate
            &&& t.last_seq == stats.last_seq
            &&& t.latencies_ns == stats.latencies_ns
        }),
{
}

/// Before any packet all counters are zero, and there is no number and no sample.
pub proof fn law_nothing_counted_at_first()
    ensures
        ({
            let t = StatsView::empty();
            &&& t.received == 0 && t.invalid_size == 0 && t.clock_skew_count == 0
            &&& t.out_of_order == 0 && t.dropped_estimate == 0
            &&& t.last_seq is None
            &&& t.latencies_ns.len() == 0
        }),
{
}

/// The contents are what stands in the fields.
pub proof fn law_contents_show_the_fields(stats: BenchStats)
    ensures
        stats@.received == stats.received,
        stats@.invalid_size == stats.invalid_size,
        stats@.clock_skew_count == stats.clock_skew_count,
        stats@.out_of_order == stats.out_of_order,
        stats@.dropped_estimate == stats.dropped_estimate,
        stats@.last_seq == stats.last_seq,
        stats@.latencies_ns == stats.latencies_ns@,
{
}

/// A progress report shows each counter under the counter's own name, and the
/// summary of the samples if there are any.
pub proof fn law_line_shows_each_counter(stats: StatsView, label: &str)
    ensures
        ({
            let line = crate::stats::line_of(stats, label);
            &&& line.phase == label
            &&& line.received == stats.received
            &&& line.invalid_size == stats.invalid_size
            &&& line.out_of_order == stats.out_of_order
            &&& line.dropped_estimate == stats.dropped_estimate
            &&& line.clock_skew_count == stats.clock_skew_count
            &&& stats.latencies_ns.len() == 0 ==> line.latency is None
            &&& stats.latencies_ns.len() > 0 ==> line.latency == Some(
                crate::stats::summary_of(stats.latencies_ns),
            )
        }),
{
}

/// A final report shows each counter under the counter's own name, and each part of
/// the summary of the samples under that part's name, zero if there are none.
pub proof fn law_report_shows_each_counter(stats: StatsView, phase: &'static str)
    ensures
        ({
            let report = crate::stats::report_of(stats, phase);
            let summary = crate::stats::summary_of(stats.latencies_ns);
            &&& report.phase == phase
            &&& report.received == stats.received
            &&& report.invalid_size == stats.invalid_size
            &&& report.out_of_order == stats.out_of_order
            &&& report.dropped_estimate == stats.dropped_estimate
            &&& report.clock_skew_count == stats.clock_skew_count
            &&& if stats.latencies_ns.len() == 0 {
                &&& report.min_ns == 0 && report.avg_ns == 0 && report.max_ns == 0
                &&& report.p50_ns == 0 && report.p95_ns == 0 && report.p99_ns == 0
            } else {
                &&& report.min_ns == summary.min_ns
                &&& report.avg_ns == summary.avg_ns
                &&& report.p50_ns == summary.p50_ns
                &&& report.p95_ns == summary.p95_ns
                &&& report.p99_ns == summary.p99_ns
                &&& report.max_ns == summary.max_ns
            }
        }),
{
}

} // verus!
