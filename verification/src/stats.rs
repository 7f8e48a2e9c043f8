//! What a benchmark client learns from the packets it receives.

use crate::clock::unix_now_ns_u64;
use crate::double::{round_to_double, DOUBLE_SPAN};
use crate::wire::{read_le_u64, BENCH_MESSAGE_SIZE};
use vstd::prelude::*;

verus! {

/// Counters over the packets received, and one latency sample for each packet
/// that was well-formed and not from the future. Counters stay at their largest
/// value once they have reached it.
#[derive(Debug)]
pub struct BenchStats {
    /// Packets that gave a latency sample.
    pub received: u64,
    /// Packets that were not of the benchmark's size.
    pub invalid_size: u64,
    /// Packets that were sent later than they were received.
    pub clock_skew_count: u64,
    /// Packets whose number was not above that of the packet before.
    pub out_of_order: u64,
    /// Numbers that were skipped from one packet to the next.
    pub dropped_estimate: u64,
    /// The number of the latest packet.
    pub last_seq: Option<u64>,
    /// The samples, in the order in which the packets came.
    pub latencies_ns: Vec<u64>,
}

/// The contents of a `BenchStats`.
pub struct StatsView {
    pub received: u64,
    pub invalid_size: u64,
    pub clock_skew_count: u64,
    pub out_of_order: u64,
    pub dropped_estimate: u64,
    pub last_seq: Option<u64>,
    pub latencies_ns: Seq<u64>,
}

/// `counter` with `amount` added, as far as a `u64` reaches.
pub open spec fn counted(counter: u64, amount: int) -> u64 {
    if counter + amount > u64::MAX {
        u64::MAX
    } else {
        (counter + amount) as u64
    }
}

impl StatsView {
    /// Nothing received yet.
    pub open spec fn empty() -> StatsView {
        StatsView {
            received: 0,
            invalid_size: 0,
            clock_skew_count: 0,
            out_of_order: 0,
            dropped_estimate: 0,
            last_seq: None,
            latencies_ns: Seq::empty(),
        }
    }

    /// A packet with number `seq` does not come after the latest one.
    pub open spec fn is_late(self, seq: u64) -> bool {
        self.last_seq matches Some(last) && seq <= last
    }

    /// How many numbers lie between the latest packet and one with number `seq`.
    pub open spec fn gap_before(self, seq: u64) -> int {
        match self.last_seq {
            Some(last) => if seq > last {
                seq - last - 1
            } else {
                0
            },
            None => 0,
        }
    }

    /// The contents after `packet` was received at time `now_ns`.
    pub open spec fn after_packet(self, packet: Seq<u8>, now_ns: u64) -> StatsView {
        if packet.len() != BENCH_MESSAGE_SIZE {
            StatsView { invalid_size: counted(self.invalid_size, 1), ..self }
        } else {
            let seq = crate::wire::packet_seq(packet);
            let sent_ns = crate::wire::packet_sent_ns(packet);
            let timely = sent_ns <= now_ns;
            StatsView {
                received: counted(self.received, if timely { 1int } else { 0 }),
                invalid_size: self.invalid_size,
                clock_skew_count: counted(self.clock_skew_count, if timely { 0int } else { 1 }),
                out_of_order: counted(self.out_of_order, if self.is_late(seq) { 1int } else { 0 }),
                dropped_estimate: counted(self.dropped_estimate, self.gap_before(seq)),
                last_seq: Some(seq),
                latencies_ns: if timely {
                    self.latencies_ns.push((now_ns - sent_ns) as u64)
                } else {
                    self.latencies_ns
                },
            }
        }
    }
}

impl View for BenchStats {
    type V = StatsView;

    open spec fn view(&self) -> StatsView {
        StatsView {
            received: self.received,
            invalid_size: self.invalid_size,
            clock_skew_count: self.clock_skew_count,
            out_of_order: self.out_of_order,
            dropped_estimate: self.dropped_estimate,
            last_seq: self.last_seq,
            latencies_ns: self.latencies_ns@,
        }
    }
}

impl Default for BenchStats {
    /// Nothing received yet.
    fn default() -> (stats: BenchStats)
        ensures
            stats@ == StatsView::empty(),
    {
        BenchStats {
            received: 0,
            invalid_size: 0,
            clock_skew_count: 0,
            out_of_order: 0,
            dropped_estimate: 0,
            last_seq: None,
            latencies_ns: Vec::new(),
        }
    }
}

/// The denominator of `percent` hundredths as a double: the power of two that
/// gives it a numerator of 53 binary digits.
pub open spec fn share_denominator(percent: u8) -> nat {
    if percent >= 200 {
        0x8_0000_0000_0000
    } else if percent >= 100 {
        0x10_0000_0000_0000
    } else if percent >= 50 {
        0x20_0000_0000_0000
    } else if percent >= 25 {
        0x40_0000_0000_0000
    } else if percent >= 13 {
        0x80_0000_0000_0000
    } else if percent >= 7 {
        0x100_0000_0000_0000
    } else if percent >= 4 {
        0x200_0000_0000_0000
    } else if percent >= 2 {
        0x400_0000_0000_0000
    } else {
        0x800_0000_0000_0000
    }
}

/// The numerator of `percent` hundredths as a double: the nearest one.
pub open spec fn share_numerator(percent: u8) -> nat {
    (percent as nat * share_denominator(percent) + 50) / 100
}

/// The double nearest to `percent` hundredths of the last index among `len`
/// samples, over `share_denominator(percent)`.
pub open spec fn share_of_last_index(percent: u8, len: nat) -> nat {
    crate::double::nearest_double(
        share_numerator(percent) * crate::double::nearest_double((len - 1) as nat),
    )
}

/// The index of a percentile among `len` samples in ascending order: `percent`
/// hundredths of the last index, found with double-precision arithmetic, rounded
/// to the nearest whole number, and upwards from halfway between two.
pub open spec fn percentile_index(percent: u8, len: nat) -> nat {
    (2 * share_of_last_index(percent, len) + share_denominator(percent)) / (2 * share_denominator(
        percent,
    ))
}

/// The percentile of samples that stand in ascending order, zero without samples.
pub open spec fn percentile_of(sorted: Seq<u64>, percent: u8) -> u64 {
    if sorted.len() == 0 {
        0
    } else {
        sorted[percentile_index(percent, sorted.len()) as int]
    }
}

/// A share that is not zero has a numerator of 53 binary digits.
pub proof fn lemma_share_numerator(percent: u8)
    ensures
        percent > 0 ==> DOUBLE_SPAN <= 2 * share_numerator(percent),
        share_numerator(percent) <= DOUBLE_SPAN,
{
    if percent >= 200 {
        assert(share_numerator(percent) == (percent * 0x8_0000_0000_0000 + 50) / 100);
    } else if percent >= 100 {
        assert(share_numerator(percent) == (percent * 0x10_0000_0000_0000 + 50) / 100);
    } else if percent >= 50 {
        assert(share_numerator(percent) == (percent * 0x20_0000_0000_0000 + 50) / 100);
    } else if percent >= 25 {
        assert(share_numerator(percent) == (percent * 0x40_0000_0000_0000 + 50) / 100);
    } else if percent >= 13 {
        assert(share_numerator(percent) == (percent * 0x80_0000_0000_0000 + 50) / 100);
    } else if percent >= 7 {
        assert(share_numerator(percent) == (percent * 0x100_0000_0000_0000 + 50) / 100);
    } else if percent >= 4 {
        assert(share_numerator(percent) == (percent * 0x200_0000_0000_0000 + 50) / 100);
    } else if percent >= 2 {
        assert(share_numerator(percent) == (percent * 0x400_0000_0000_0000 + 50) / 100);
    } else {
        assert(share_numerator(percent) == (percent * 0x800_0000_0000_0000 + 50) / 100);
    }
}

/// From one percentage to the next the index does not shrink.
proof fn lemma_percentile_index_step(percent: u8, len: nat)
    requires
        percent < 255,
        len > 0,
    ensures
        percentile_index(percent, len) <= percentile_index((percent + 1) as u8, len),
{
    let next = (percent + 1) as u8;
    let (d, e) = (share_denominator(percent), share_denominator(next));
    let (s, t) = (share_numerator(percent), share_numerator(next));
    let (x, y) = (share_of_last_index(percent, len), share_of_last_index(next, len));
    let last = crate::double::nearest_double((len - 1) as nat);
    lemma_share_numerator(percent);
    lemma_share_numerator(next);
    if d == e {
        assert(percent as nat * d <= next as nat * d) by (nonlinear_arith)
            requires
                percent <= next,
        ;
        assert(s <= t);
        assert(s * last <= t * last) by (nonlinear_arith)
            requires
                s <= t,
        ;
        crate::double::lemma_nearest_double_grows(s * last, t * last);
        vstd::arithmetic::div_mod::lemma_div_is_ordered(
            (2 * x + d) as int,
            (2 * y + d) as int,
            (2 * d) as int,
        );
    } else {
        assert(d == 2 * e);
        assert(s <= 2 * t);
        assert(s * last <= 2 * (t * last)) by (nonlinear_arith)
            requires
                s <= 2 * t,
        ;
        crate::double::lemma_nearest_double_grows(s * last, 2 * (t * last));
        crate::double::lemma_nearest_double_of_twice(t * last);
        vstd::arithmetic::div_mod::lemma_div_is_ordered(
            (2 * x + d) as int,
            (2 * (2 * y + e)) as int,
            (2 * d) as int,
        );
        vstd::arithmetic::div_mod::lemma_div_multiples_vanish_quotient(
            2,
            (2 * y + e) as int,
            (2 * e) as int,
        );
    }
}

/// The index grows with the percentage.
proof fn lemma_percentile_index_grows(low: u8, high: u8, len: nat)
    requires
        low <= high,
        len > 0,
    ensures
        percentile_index(low, len) <= percentile_index(high, len),
    decreases high - low,
{
    if low < high {
        lemma_percentile_index_grows(low, (high - 1) as u8, len);
        lemma_percentile_index_step((high - 1) as u8, len);
    }
}

/// Up to the ninety-ninth percentile there is a sample at the index, however
/// many samples there are.
proof fn lemma_percentile_index_below_hundred(percent: u8, len: nat)
    requires
        percent <= 99,
        len > 0,
    ensures
        percentile_index(percent, len) < len,
{
    let last = (len - 1) as nat;
    let rounded = crate::double::nearest_double(last);
    let share = share_numerator(99);
    lemma_percentile_index_grows(percent, 99, len);
    crate::double::lemma_nearest_double_is_close(last);
    crate::double::lemma_nearest_double_is_close(share * rounded);
    assert(share == 8917127262193582);
    assert(share_of_last_index(99, len) <= DOUBLE_SPAN * last);
    vstd::arithmetic::div_mod::lemma_div_is_ordered(
        2 * share_of_last_index(99, len) + DOUBLE_SPAN,
        2 * DOUBLE_SPAN * last + DOUBLE_SPAN,
        2 * DOUBLE_SPAN,
    );
    vstd::arithmetic::div_mod::lemma_div_multiples_vanish_fancy(
        last as int,
        DOUBLE_SPAN as int,
        2 * DOUBLE_SPAN,
    );
}

/// At whole and at half shares of an index that is a double, nothing is lost.
pub proof fn lemma_percentile_index_exact(len: nat)
    requires
        0 < len <= DOUBLE_SPAN + 1,
    ensures
        percentile_index(0, len) == 0,
        percentile_index(50, len) == len / 2,
        percentile_index(100, len) == len - 1,
{
    let last = (len - 1) as nat;
    let half_span: nat = 0x10_0000_0000_0000;
    crate::double::lemma_small_numbers_are_doubles(last);
    crate::double::lemma_small_numbers_are_doubles(0);
    assert(vstd::arithmetic::power2::pow2(52) == half_span) by {
        vstd::arithmetic::power2::lemma2_to64_rest();
    }
    crate::double::lemma_nearest_double_scales(last, 52);
    assert(share_numerator(0) == 0);
    assert(share_numerator(0) * last == 0);
    assert(share_numerator(50) == half_span);
    assert(share_numerator(100) == half_span);
    assert(share_of_last_index(50, len) == half_span * last);
    assert(share_of_last_index(100, len) == half_span * last);
    assert(share_of_last_index(0, len) == 0);
    vstd::arithmetic::div_mod::lemma_div_multiples_vanish_fancy(
        0,
        share_denominator(0) as int,
        (2 * share_denominator(0)) as int,
    );
    vstd::arithmetic::div_mod::lemma_div_multiples_vanish_fancy(
        last as int,
        half_span as int,
        (2 * half_span) as int,
    );
    vstd::arithmetic::div_mod::lemma_div_multiples_vanish_quotient(
        (2 * half_span) as int,
        len as int,
        2,
    );
}

/// The denominator of `percent` hundredths as a double.
fn find_share_denominator(percent: u8) -> (denominator: u128)
    ensures
        denominator == share_denominator(percent),
{
    if percent >= 200 {
        0x8_0000_0000_0000
    } else if percent >= 100 {
        0x10_0000_0000_0000
    } else if percent >= 50 {
        0x20_0000_0000_0000
    } else if percent >= 25 {
        0x40_0000_0000_0000
    } else if percent >= 13 {
        0x80_0000_0000_0000
    } else if percent >= 7 {
        0x100_0000_0000_0000
    } else if percent >= 4 {
        0x200_0000_0000_0000
    } else if percent >= 2 {
        0x400_0000_0000_0000
    } else {
        0x800_0000_0000_0000
    }
}

/// The percentile `percent` of `sorted`, which stands in ascending order; zero
/// if it is empty. Of percentages above a hundred, those that still round to an
/// index can be asked for.
pub fn percentile(sorted: &[u64], percent: u8) -> (value: u64)
    requires
        ({
            ||| sorted@.len() == 0
            ||| percent <= 99
            ||| percent == 100 && sorted@.len() <= DOUBLE_SPAN + 1
            ||| percentile_index(percent, sorted@.len()) < sorted@.len()
        }),
    ensures
        value == percentile_of(sorted@, percent),
{
    if sorted.len() == 0 {
        return 0;
    }
    let denominator: u128 = find_share_denominator(percent);
    let share: u128 = (percent as u128 * denominator + 50) / 100;
    let ghost last = (sorted@.len() - 1) as nat;
    proof {
        if percent <= 99 {
            lemma_percentile_index_below_hundred(percent, sorted@.len());
        } else if percent == 100 && sorted@.len() <= DOUBLE_SPAN + 1 {
            lemma_percentile_index_exact(sorted@.len());
        }
        lemma_share_numerator(percent);
        crate::double::lemma_nearest_double_is_close(last);
    }
    let rounded: u128 = round_to_double(sorted.len() as u128 - 1);
    proof {
        assert(share * rounded <= DOUBLE_SPAN * rounded) by (nonlinear_arith)
            requires
                share <= DOUBLE_SPAN,
        ;
        crate::double::lemma_nearest_double_is_close((share * rounded) as nat);
    }
    let product: u128 = round_to_double(share * rounded);
    let index: u128 = (2 * product + denominator) / (2 * denominator);
    sorted[index as usize]
}

/// Every percentile from the lowest to the hundredth can be asked for, as long
/// as every index is a double; up to the ninety-ninth, of any number of samples.
pub proof fn law_percentiles_up_to_hundred_exist(percent: u8, len: nat)
    requires
        percent <= 100,
        len > 0,
        percent <= 99 || len <= DOUBLE_SPAN + 1,
    ensures
        percentile_index(percent, len) < len,
{
    if percent == 100 {
        lemma_percentile_index_exact(len);
    } else {
        lemma_percentile_index_below_hundred(percent, len);
    }
}

/// The lowest percentile is the first sample, the hundredth is the last, and the
/// fiftieth is the median: the upper one of the two in the middle, if there are
/// two. This holds as long as every index is a double.
pub proof fn law_percentile_ends_and_median(sorted: Seq<u64>)
    requires
        0 < sorted.len() <= DOUBLE_SPAN + 1,
    ensures
        percentile_of(sorted, 0) == sorted.first(),
        percentile_of(sorted, 50) == sorted[sorted.len() as int / 2],
        percentile_of(sorted, 100) == sorted.last(),
{
    lemma_percentile_index_exact(sorted.len());
}

/// Percentiles of samples in ascending order grow with the percentage and lie
/// between the first sample and the last.
pub proof fn law_percentile_grows(sorted: Seq<u64>, low: u8, high: u8)
    requires
        sorted.len() > 0,
        forall|i: int, j: int| 0 <= i <= j < sorted.len() ==> sorted[i] <= sorted[j],
        low <= high <= 100,
        high <= 99 || sorted.len() <= DOUBLE_SPAN + 1,
    ensures
        sorted.first() <= percentile_of(sorted, low) <= percentile_of(sorted, high)
            <= sorted.last(),
{
    lemma_percentile_index_grows(low, high, sorted.len());
    law_percentiles_up_to_hundred_exist(high, sorted.len());
}

impl BenchStats {
    /// Takes note of `packet`, received now.
    pub fn on_packet(&mut self, packet: &[u8])
        ensures
            exists|now_ns: u64| final(self)@ == #[trigger] old(self)@.after_packet(packet@, now_ns),
    {
        let now_ns: u64 = unix_now_ns_u64();
        self.on_packet_at(packet, now_ns);
    }

    /// Takes note of `packet`, received at time `now_ns`.
    pub fn on_packet_at(&mut self, packet: &[u8], now_ns: u64)
        ensures
            final(self)@ == old(self)@.after_packet(packet@, now_ns),
    {
        if packet.len() != BENCH_MESSAGE_SIZE {
            self.invalid_size = self.invalid_size.saturating_add(1);
            return ;
        }
        let seq: u64 = read_le_u64(packet, 0);
        let sent_ns: u64 = read_le_u64(packet, 8);
        if let Some(last) = self.last_seq {
            if seq <= last {
                self.out_of_order = self.out_of_order.saturating_add(1);
            } else {
                self.dropped_estimate =
                self.dropped_estimate.saturating_add(seq.saturating_sub(last + 1));
            }
        }
        self.last_seq = Some(seq);
        if now_ns < sent_ns {
            self.clock_skew_count = self.clock_skew_count.saturating_add(1);
            return ;
        }
        self.received = self.received.saturating_add(1);
        self.latencies_ns.push(now_ns - sent_ns);
    }
}

/// Latencies at a glance, in nanoseconds.
#[derive(Clone, Copy, Debug, PartialEq, Eq, Structural)]
pub struct LatencySummary {
    pub min_ns: u64,
    pub avg_ns: u64,
    pub p50_ns: u64,
    pub p95_ns: u64,
    pub p99_ns: u64,
    pub max_ns: u64,
}

/// A progress report: the counters under a label and, once there are samples,
/// their summary.
#[derive(Clone, Copy, Debug)]
pub struct ReportLine<'a> {
    pub phase: &'a str,
    pub received: u64,
    pub invalid_size: u64,
    pub out_of_order: u64,
    pub dropped_estimate: u64,
    pub clock_skew_count: u64,
    pub latency: Option<LatencySummary>,
}

/// A final report. Without samples all its latencies are zero.
#[derive(Clone, Copy, Debug)]
pub struct BenchReport {
    pub phase: &'static str,
    pub received: u64,
    pub invalid_size: u64,
    pub out_of_order: u64,
    pub dropped_estimate: u64,
    pub clock_skew_count: u64,
    pub min_ns: u64,
    pub avg_ns: u64,
    pub p50_ns: u64,
    pub p95_ns: u64,
    pub p99_ns: u64,
    pub max_ns: u64,
}

/// The order of samples.
pub open spec fn ascending() -> spec_fn(u64, u64) -> bool {
    |a: u64, b: u64| a <= b
}

/// `samples` in ascending order.
pub open spec fn in_order(samples: Seq<u64>) -> Seq<u64> {
    samples.sort_by(ascending())
}

/// The sum of `samples`.
pub open spec fn total(samples: Seq<u64>) -> nat
    decreases samples.len(),
{
    if samples.len() == 0 {
        0
    } else {
        total(samples.drop_last()) + samples.last() as nat
    }
}

/// The summary of `samples`: the least and the greatest of them, their mean
/// rounded down, and their percentiles.
pub open spec fn summary_of(samples: Seq<u64>) -> LatencySummary {
    LatencySummary {
        min_ns: in_order(samples).first(),
        avg_ns: (total(samples) / samples.len()) as u64,
        p50_ns: percentile_of(in_order(samples), 50),
        p95_ns: percentile_of(in_order(samples), 95),
        p99_ns: percentile_of(in_order(samples), 99),
        max_ns: in_order(samples).last(),
    }
}

/// `in_order` rearranges the samples and leaves none that is greater than a
/// later one.
pub proof fn lemma_in_order(samples: Seq<u64>)
    ensures
        in_order(samples).to_multiset() == samples.to_multiset(),
        in_order(samples).len() == samples.len(),
        forall|i: int, j: int|
            0 <= i <= j < samples.len() ==> in_order(samples)[i] <= in_order(samples)[j],
{
    broadcast use vstd::seq_lib::group_to_multiset_ensures;

    assert(vstd::relations::total_ordering(ascending()));
    samples.lemma_sort_by_ensures(ascending());
    assert(in_order(samples).to_multiset().len() == samples.to_multiset().len());
    assert forall|i: int, j: int| 0 <= i <= j < samples.len() implies in_order(samples)[i]
        <= in_order(samples)[j] by {
        if i < j {
            assert(ascending()(in_order(samples)[i], in_order(samples)[j]));
        }
    }
}

/// There is one way to put samples in ascending order.
pub proof fn lemma_in_order_unique(samples: Seq<u64>, sorted: Seq<u64>)
    requires
        sorted.to_multiset() == samples.to_multiset(),
        forall|i: int, j: int| 0 <= i <= j < sorted.len() ==> sorted[i] <= sorted[j],
    ensures
        sorted == in_order(samples),
{
    assert(vstd::relations::total_ordering(ascending()));
    samples.lemma_sort_by_ensures(ascending());
    assert(vstd::relations::sorted_by(sorted, ascending()));
    vstd::seq_lib::lemma_sorted_unique(sorted, in_order(samples), ascending());
}

/// Samples between `low` and `high` sum up to no less than `low` and no more
/// than `high` for each.
proof fn lemma_total_bounds(samples: Seq<u64>, low: u64, high: u64)
    requires
        forall|i: int| 0 <= i < samples.len() ==> low <= #[trigger] samples[i] <= high,
    ensures
        low * samples.len() <= total(samples) <= high * samples.len(),
    decreases samples.len(),
{
    if samples.len() > 0 {
        let earlier = samples.drop_last();
        assert forall|i: int| 0 <= i < earlier.len() implies low <= #[trigger] earlier[i]
            <= high by {
            assert(earlier[i] == samples[i]);
        }
        lemma_total_bounds(earlier, low, high);
        assert(low * samples.len() == low * earlier.len() + low) by (nonlinear_arith)
            requires
                samples.len() == earlier.len() + 1,
        ;
        assert(high * samples.len() == high * earlier.len() + high) by (nonlinear_arith)
            requires
                samples.len() == earlier.len() + 1,
        ;
        assert(low <= samples[samples.len() - 1] <= high);
    }
}

/// The mean of samples between `low` and `high` lies between them.
proof fn lemma_mean_bounds(samples: Seq<u64>, low: u64, high: u64)
    requires
        samples.len() > 0,
        forall|i: int| 0 <= i < samples.len() ==> low <= #[trigger] samples[i] <= high,
    ensures
        low <= total(samples) / samples.len() <= high,
{
    lemma_total_bounds(samples, low, high);
    let sum = total(samples) as int;
    let len = samples.len() as int;
    assert(low <= sum / len <= high) by (nonlinear_arith)
        requires
            len > 0,
            low * len <= sum <= high * len,
    ;
}

/// Calls `<[u64]>::sort_unstable`, which puts the values in ascending order and
/// neither adds nor removes any.
#[verifier::external_body]
fn sort_ascending(values: &mut Vec<u64>)
    ensures
        final(values)@.to_multiset() == old(values)@.to_multiset(),
        forall|i: int, j: int|
            0 <= i <= j < final(values)@.len() ==> final(values)@[i] <= final(values)@[j],
{
    values.sort_unstable()
}

/// The mean of `samples`, rounded down.
fn mean(samples: &Vec<u64>) -> (avg: u64)
    requires
        samples@.len() > 0,
    ensures
        avg == total(samples@) / samples@.len(),
{
    let mut sum: u128 = 0;
    let mut i: usize = 0;
    while i < samples.len()
        invariant
            i <= samples.len(),
            sum == total(samples@.take(i as int)),
            sum <= u64::MAX * i,
        decreases samples.len() - i,
    {
        assert(samples@.take(i + 1).drop_last() =~= samples@.take(i as int));
        assert(u64::MAX * (i + 1) <= u128::MAX) by (nonlinear_arith)
            requires
                i < usize::MAX,
        ;
        sum = sum + samples[i] as u128;
        i = i + 1;
    }
    proof {
        assert(samples@.take(i as int) =~= samples@);
        lemma_mean_bounds(samples@, 0, u64::MAX);
    }
    (sum / samples.len() as u128) as u64
}

impl BenchStats {
    /// The summary of the samples, if there are any.
    fn latency_summary(&self) -> (summary: Option<LatencySummary>)
        ensures
            summary == if self.latencies_ns@.len() == 0 {
                None
            } else {
                Some(summary_of(self.latencies_ns@))
            },
    {
        if self.latencies_ns.len() == 0 {
            return None;
        }
        let mut sorted = self.latencies_ns.clone();
        sort_ascending(&mut sorted);
        proof {
            lemma_in_order_unique(self.latencies_ns@, sorted@);
            lemma_in_order(self.latencies_ns@);
        }
        Some(
            LatencySummary {
                min_ns: sorted[0],
                avg_ns: mean(&self.latencies_ns),
                p50_ns: percentile(&sorted, 50),
                p95_ns: percentile(&sorted, 95),
                p99_ns: percentile(&sorted, 99),
                max_ns: sorted[sorted.len() - 1],
            },
        )
    }

    /// What a progress report under `label` prints.
    pub fn print_report<'a>(&self, label: &'a str) -> (line: ReportLine<'a>)
        ensures
            line == line_of(self@, label),
            line.phase == label,
            line.received == self.received,
            line.invalid_size == self.invalid_size,
            line.out_of_order == self.out_of_order,
            line.dropped_estimate == self.dropped_estimate,
            line.clock_skew_count == self.clock_skew_count,
            line.latency is None <==> self.latencies_ns@.len() == 0,
    {
        ReportLine {
            phase: label,
            received: self.received,
            invalid_size: self.invalid_size,
            out_of_order: self.out_of_order,
            dropped_estimate: self.dropped_estimate,
            clock_skew_count: self.clock_skew_count,
            latency: self.latency_summary(),
        }
    }

    /// The final report under the name `phase`.
    pub fn to_report(&self, phase: &'static str) -> (report: BenchReport)
        ensures
            report == report_of(self@, phase),
            report.phase == phase,
            report.received == self.received,
            report.invalid_size == self.invalid_size,
            report.out_of_order == self.out_of_order,
            report.dropped_estimate == self.dropped_estimate,
            report.clock_skew_count == self.clock_skew_count,
    {
        let latency = match self.latency_summary() {
            Some(latency) => latency,
            None => LatencySummary {
                min_ns: 0,
                avg_ns: 0,
                p50_ns: 0,
                p95_ns: 0,
                p99_ns: 0,
                max_ns: 0,
            },
        };
        BenchReport {
            phase,
            received: self.received,
            invalid_size: self.invalid_size,
            out_of_order: self.out_of_order,
            dropped_estimate: self.dropped_estimate,
            clock_skew_count: self.clock_skew_count,
            min_ns: latency.min_ns,
            avg_ns: latency.avg_ns,
            p50_ns: latency.p50_ns,
            p95_ns: latency.p95_ns,
            p99_ns: latency.p99_ns,
            max_ns: latency.max_ns,
        }
    }
}

/// The progress report on `stats` under `label`.
pub open spec fn line_of<'a>(stats: StatsView, label: &'a str) -> ReportLine<'a> {
    ReportLine {
        phase: label,
        received: stats.received,
        invalid_size: stats.invalid_size,
        out_of_order: stats.out_of_order,
        dropped_estimate: stats.dropped_estimate,
        clock_skew_count: stats.clock_skew_count,
        latency: if stats.latencies_ns.len() == 0 {
            None
        } else {
            Some(summary_of(stats.latencies_ns))
        },
    }
}

/// The final report of `stats` under the name `phase`.
pub open spec fn report_of(stats: StatsView, phase: &'static str) -> BenchReport {
    let latency = if stats.latencies_ns.len() == 0 {
        LatencySummary { min_ns: 0, avg_ns: 0, p50_ns: 0, p95_ns: 0, p99_ns: 0, max_ns: 0 }
    } else {
        summary_of(stats.latencies_ns)
    };
    BenchReport {
        phase,
        received: stats.received,
        invalid_size: stats.invalid_size,
        out_of_order: stats.out_of_order,
        dropped_estimate: stats.dropped_estimate,
        clock_skew_count: stats.clock_skew_count,
        min_ns: latency.min_ns,
        avg_ns: latency.avg_ns,
        p50_ns: latency.p50_ns,
        p95_ns: latency.p95_ns,
        p99_ns: latency.p99_ns,
        max_ns: latency.max_ns,
    }
}

/// The contents after `packets`, each with the time at which it was received,
/// counted from the beginning.
pub open spec fn tally(packets: Seq<(Seq<u8>, u64)>) -> StatsView
    decreases packets.len(),
{
    if packets.len() == 0 {
        StatsView::empty()
    } else {
        tally(packets.drop_last()).after_packet(packets.last().0, packets.last().1)
    }
}

/// A summary stays within the samples: the least one, the percentiles in their
/// order and the greatest one follow each other, the mean, rounded down, lies
/// between the outermost two, and every sample does too. All but the mean are
/// samples.
pub proof fn law_summary_is_ordered(samples: Seq<u64>)
    requires
        samples.len() > 0,
    ensures
        ({
            let s = summary_of(samples);
            &&& s.min_ns <= s.p50_ns <= s.p95_ns <= s.p99_ns <= s.max_ns
            &&& s.avg_ns == total(samples) / samples.len()
            &&& s.min_ns <= s.avg_ns <= s.max_ns
            &&& forall|i: int|
                0 <= i < samples.len() ==> s.min_ns <= #[trigger] samples[i] <= s.max_ns
            &&& samples.contains(s.min_ns) && samples.contains(s.max_ns)
            &&& samples.contains(s.p50_ns) && samples.contains(s.p95_ns) && samples.contains(
                s.p99_ns,
            )
        }),
{
    broadcast use vstd::seq_lib::group_to_multiset_ensures;

    let sorted = in_order(samples);
    let len = samples.len() as int;
    lemma_in_order(samples);
    law_percentile_grows(sorted, 50, 95);
    law_percentile_grows(sorted, 95, 99);
    law_percentiles_up_to_hundred_exist(50, samples.len());
    law_percentiles_up_to_hundred_exist(95, samples.len());
    law_percentiles_up_to_hundred_exist(99, samples.len());
    assert forall|i: int| 0 <= i < len implies samples.contains(#[trigger] sorted[i]) by {
        assert(sorted.to_multiset().count(sorted[i]) > 0);
    }
    assert forall|i: int| 0 <= i < len implies sorted.first() <= #[trigger] samples[i]
        <= sorted.last() by {
        assert(samples.to_multiset().count(samples[i]) > 0);
        assert(sorted.contains(samples[i]));
    }
    lemma_mean_bounds(samples, sorted.first(), sorted.last());
}

/// Every packet counts exactly once: as received, as of the wrong size, or as
/// from the future; and there are as many samples as packets received.
pub proof fn law_packets_are_counted_once(packets: Seq<(Seq<u8>, u64)>)
    requires
        packets.len() <= u64::MAX,
    ensures
        ({
            let t = tally(packets);
            &&& t.received + t.invalid_size + t.clock_skew_count == packets.len()
            &&& t.received == t.latencies_ns.len()
        }),
    decreases packets.len(),
{
    if packets.len() > 0 {
        law_packets_are_counted_once(packets.drop_last());
    }
}

/// The contents always know the number of the latest packet that had the
/// benchmark's size.
pub proof fn law_latest_number_is_kept(packets: Seq<(Seq<u8>, u64)>, packet: Seq<u8>, now_ns: u64)
    ensures
        packet.len() == BENCH_MESSAGE_SIZE ==> tally(packets.push((packet, now_ns))).last_seq
            == Some(crate::wire::packet_seq(packet)),
        packet.len() != BENCH_MESSAGE_SIZE ==> tally(packets.push((packet, now_ns))).last_seq
            == tally(packets).last_seq,
{
    assert(packets.push((packet, now_ns)).drop_last() =~= packets);
}

/// The packets among `packets` that have the benchmark's size.
pub open spec fn right_sized(packets: Seq<(Seq<u8>, u64)>) -> Seq<(Seq<u8>, u64)>
    decreases packets.len(),
{
    if packets.len() == 0 {
        Seq::empty()
    } else if packets.last().0.len() == BENCH_MESSAGE_SIZE {
        right_sized(packets.drop_last()).push(packets.last())
    } else {
        right_sized(packets.drop_last())
    }
}

/// Packets of the wrong size are counted as such and leave no other trace.
pub proof fn law_wrong_sizes_leave_no_other_trace(packets: Seq<(Seq<u8>, u64)>)
    ensures
        tally(packets) == (StatsView {
            invalid_size: tally(packets).invalid_size,
            ..tally(right_sized(packets))
        }),
        packets.len() - right_sized(packets).len() <= u64::MAX ==> tally(packets).invalid_size
            == packets.len() - right_sized(packets).len(),
        right_sized(packets).len() <= packets.len(),
        tally(right_sized(packets)).invalid_size == 0,
    decreases packets.len(),
{
    if packets.len() > 0 {
        let earlier = packets.drop_last();
        law_wrong_sizes_leave_no_other_trace(earlier);
        if packets.last().0.len() == BENCH_MESSAGE_SIZE {
            assert(right_sized(packets).drop_last() =~= right_sized(earlier));
        }
    }
}

/// What `law_growing_numbers_account_for_all` says of packets that all have the
/// benchmark's size.
proof fn lemma_growing_numbers(packets: Seq<(Seq<u8>, u64)>)
    requires
        packets.len() > 0,
        forall|i: int|
            0 <= i < packets.len() ==> (#[trigger] packets[i]).0.len() == BENCH_MESSAGE_SIZE,
        forall|i: int, j: int|
            0 <= i < j < packets.len() ==> crate::wire::packet_seq((#[trigger] packets[i]).0)
                < crate::wire::packet_seq((#[trigger] packets[j]).0),
    ensures
        tally(packets).out_of_order == 0,
        tally(packets).dropped_estimate + packets.len() == crate::wire::packet_seq(
            packets.last().0,
        ) - crate::wire::packet_seq(packets.first().0) + 1,
        tally(packets).last_seq == Some(crate::wire::packet_seq(packets.last().0)),
    decreases packets.len(),
{
    let earlier = packets.drop_last();
    if earlier.len() > 0 {
        assert forall|i: int| 0 <= i < earlier.len() implies (#[trigger] earlier[i]).0.len()
            == BENCH_MESSAGE_SIZE by {
            assert(earlier[i] == packets[i]);
        }
        assert forall|i: int, j: int| 0 <= i < j < earlier.len() implies crate::wire::packet_seq(
            (#[trigger] earlier[i]).0,
        ) < crate::wire::packet_seq((#[trigger] earlier[j]).0) by {
            assert(earlier[i] == packets[i] && earlier[j] == packets[j]);
        }
        lemma_growing_numbers(earlier);
        assert(packets[packets.len() - 2] == earlier.last());
        assert(packets[packets.len() - 1] == packets.last());
        assert(packets[0] == earlier.first());
    } else {
        assert(tally(earlier) == StatsView::empty());
        assert(packets[0] == packets.last());
    }
}

/// Every packet that `right_sized` keeps has the benchmark's size.
proof fn lemma_right_sized(packets: Seq<(Seq<u8>, u64)>)
    ensures
        forall|i: int|
            0 <= i < right_sized(packets).len() ==> (#[trigger] right_sized(packets)[i]).0.len()
                == BENCH_MESSAGE_SIZE,
    decreases packets.len(),
{
    if packets.len() > 0 {
        let before = right_sized(packets.drop_last());
        lemma_right_sized(packets.drop_last());
        assert forall|i: int| 0 <= i < right_sized(packets).len() implies (
        #[trigger] right_sized(packets)[i]).0.len() == BENCH_MESSAGE_SIZE by {
            if i < before.len() {
                assert(right_sized(packets)[i] == before[i]);
            }
        }
    }
}

/// Where all packets have the benchmark's size, `right_sized` keeps all.
pub proof fn lemma_all_right_sized(packets: Seq<(Seq<u8>, u64)>)
    requires
        forall|i: int|
            0 <= i < packets.len() ==> (#[trigger] packets[i]).0.len() == BENCH_MESSAGE_SIZE,
    ensures
        right_sized(packets) == packets,
    decreases packets.len(),
{
    if packets.len() > 0 {
        let earlier = packets.drop_last();
        assert forall|i: int| 0 <= i < earlier.len() implies (#[trigger] earlier[i]).0.len()
            == BENCH_MESSAGE_SIZE by {
            assert(earlier[i] == packets[i]);
        }
        lemma_all_right_sized(earlier);
        assert(packets[packets.len() - 1] == packets.last());
        assert(right_sized(packets) =~= packets);
    } else {
        assert(packets =~= Seq::empty());
    }
}

/// Over packets whose numbers only grow, packets of the wrong size aside,
/// nothing is out of order, and the numbers that never came are exactly those
/// estimated as dropped: together with the packets they fill the range from the
/// first number to the last.
pub proof fn law_growing_numbers_account_for_all(packets: Seq<(Seq<u8>, u64)>)
    requires
        right_sized(packets).len() > 0,
        forall|i: int, j: int|
            0 <= i < j < right_sized(packets).len() ==> crate::wire::packet_seq(
                (#[trigger] right_sized(packets)[i]).0,
            ) < crate::wire::packet_seq((#[trigger] right_sized(packets)[j]).0),
    ensures
        tally(packets).out_of_order == 0,
        tally(packets).dropped_estimate + right_sized(packets).len() == crate::wire::packet_seq(
            right_sized(packets).last().0,
        ) - crate::wire::packet_seq(right_sized(packets).first().0) + 1,
        tally(packets).last_seq == Some(crate::wire::packet_seq(right_sized(packets).last().0)),
{
    lemma_right_sized(packets);
    lemma_growing_numbers(right_sized(packets));
    law_wrong_sizes_leave_no_other_trace(packets);
}

/// Over packets that are numbered without a gap, packets of the wrong size
/// aside, nothing counts as dropped or as out of order.
pub proof fn law_no_gap_nothing_dropped(packets: Seq<(Seq<u8>, u64)>)
    requires
        forall|i: int|
            0 <= i < right_sized(packets).len() ==> crate::wire::packet_seq(
                (#[trigger] right_sized(packets)[i]).0,
            ) == crate::wire::packet_seq(right_sized(packets)[0].0) + i,
    ensures
        tally(packets).out_of_order == 0,
        tally(packets).dropped_estimate == 0,
{
    let kept = right_sized(packets);
    if kept.len() > 0 {
        law_growing_numbers_account_for_all(packets);
        assert(kept[kept.len() - 1] == kept.last());
    } else {
        law_wrong_sizes_leave_no_other_trace(packets);
        assert(tally(kept) == StatsView::empty());
    }
}

/// A message that was made at `sent_ns` and is received at `now_ns`, no earlier,
/// gives the time between as its sample; one received earlier gives none.
pub proof fn law_sample_is_travel_time(stats: StatsView, seq: u64, sent_ns: u64, now_ns: u64)
    ensures
        stats.after_packet(crate::wire::stamped_payload(seq, sent_ns), now_ns).last_seq == Some(
            seq,
        ),
        stats.after_packet(crate::wire::stamped_payload(seq, sent_ns), now_ns).latencies_ns == if now_ns
            >= sent_ns {
            stats.latencies_ns.push((now_ns - sent_ns) as u64)
        } else {
            stats.latencies_ns
        },
{
    crate::wire::law_stamped_payload_reads_back(seq, sent_ns);
}

} // verus!
