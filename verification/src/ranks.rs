//! Where the percentiles and the mean of a summary stand among the samples.

use crate::double::DOUBLE_SPAN;
use vstd::prelude::*;

verus! {

/// A share is the double nearest to `percent` hundredths: its denominator is a
/// power of two, its numerator has 53 binary digits, and no other numerator over
/// that denominator is as close.
pub proof fn law_share_is_nearest_to_percent(percent: u8)
    ensures
        ({
            let numerator = crate::stats::share_numerator(percent);
            let denominator = crate::stats::share_denominator(percent);
            &&& exists|e: nat| denominator == #[trigger] vstd::arithmetic::power2::pow2(e)
            &&& 0x8_0000_0000_0000 <= denominator <= 0x800_0000_0000_0000
            &&& -50 < 100 * numerator - percent * denominator < 50
            &&& percent > 0 ==> 0x10_0000_0000_0000 <= numerator <= 0x20_0000_0000_0000
        }),
{
    let s = crate::stats::share_numerator(percent) as int;
    let d = crate::stats::share_denominator(percent) as int;
    let product = percent * d;
    crate::stats::lemma_share_numerator(percent);
    vstd::arithmetic::power2::lemma2_to64_rest();
    if percent >= 200 {
        assert(d == vstd::arithmetic::power2::pow2(51));
    } else if percent >= 100 {
        assert(d == vstd::arithmetic::power2::pow2(52));
    } else if percent >= 50 {
        assert(d == vstd::arithmetic::power2::pow2(53));
    } else if percent >= 25 {
        assert(d == vstd::arithmetic::power2::pow2(54));
    } else if percent >= 13 {
        assert(d == vstd::arithmetic::power2::pow2(55));
    } else if percent >= 7 {
        assert(d == vstd::arithmetic::power2::pow2(56));
    } else if percent >= 4 {
        assert(d == vstd::arithmetic::power2::pow2(57));
    } else if percent >= 2 {
        assert(d == vstd::arithmetic::power2::pow2(58));
    } else {
        assert(d == vstd::arithmetic::power2::pow2(59));
    }
    // The product is a multiple of four, so it never ends in fifty hundredths.
    let quarter = d / 4;
    assert(product == 4 * (percent * quarter)) by (nonlinear_arith)
        requires
            product == percent * d,
            d == 4 * quarter,
    ;
    assert(s == (product + 50) / 100);
}

/// The index of a percentile is the whole number nearest to the share of the last
/// index that double-precision arithmetic gives, the upper one from halfway
/// between two.
pub proof fn law_index_is_nearest_to_share(percent: u8, len: nat)
    requires
        len > 0,
    ensures
        ({
            let k = crate::stats::percentile_index(percent, len);
            let d = crate::stats::share_denominator(percent);
            let share = crate::double::nearest_double(
                crate::stats::share_numerator(percent) * crate::double::nearest_double(
                    (len - 1) as nat,
                ),
            );
            2 * (k * d) - d <= 2 * share < 2 * (k * d) + d
        }),
{
    let k = crate::stats::percentile_index(percent, len);
    let d = crate::stats::share_denominator(percent);
    let share = crate::stats::share_of_last_index(percent, len);
    let dividend = 2 * share + d;
    law_share_is_nearest_to_percent(percent);
    vstd::arithmetic::div_mod::lemma_fundamental_div_mod(dividend as int, (2 * d) as int);
    assert((2 * d) * k == 2 * (k * d)) by (nonlinear_arith);
    assert(dividend % (2 * d) < 2 * d);
}

/// The index of a percentile is nearest to `percent` hundredths of the last index:
/// no more than half an index away.
pub proof fn law_index_is_nearest_to_percent(percent: u8, len: nat)
    requires
        0 < len <= 0x800_0000_0000,
    ensures
        ({
            let k = crate::stats::percentile_index(percent, len);
            -50 <= 100 * k - percent * (len - 1) <= 50
        }),
{
    let n = (len - 1) as nat;
    let k = crate::stats::percentile_index(percent, len);
    let d = crate::stats::share_denominator(percent);
    let s = crate::stats::share_numerator(percent);
    let p = s * n;
    let x = crate::double::nearest_double(p);
    let unit = crate::double::double_unit(p);
    let off = 100 * s - percent * d;
    let exact = (percent * n) * d;
    law_share_is_nearest_to_percent(percent);
    crate::stats::lemma_share_numerator(percent);
    law_index_is_nearest_to_share(percent, len);
    crate::double::lemma_small_numbers_are_doubles(n);
    crate::double::lemma_double_unit(p);
    crate::double::lemma_nearest_double_within_half_a_unit(p);
    assert(p <= DOUBLE_SPAN * n) by (nonlinear_arith)
        requires
            p == s * n,
            s <= DOUBLE_SPAN,
    ;
    assert(100 * p == exact + off * n && -50 * n <= off * n <= 50 * n) by (nonlinear_arith)
        requires
            p == s * n,
            exact == (percent * n) * d,
            off == 100 * s - percent * d,
            -50 < off < 50,
    ;
    if p < DOUBLE_SPAN {
        crate::double::lemma_small_numbers_are_doubles(p);
    }
    assert(-(n as int) <= x - p <= n);
    let gap = 100 * k - percent * n;
    let scaled = k * d;
    assert(100 * scaled - exact == gap * d) by (nonlinear_arith)
        requires
            scaled == k * d,
            exact == (percent * n) * d,
            gap == 100 * k - percent * n,
    ;
    assert(-51 * d < gap * d < 51 * d);
    assert(-51 < gap < 51) by (nonlinear_arith)
        requires
            -51 * d < gap * d < 51 * d,
            d > 0,
    ;
}

/// The shares of the two upper percentiles of a summary: next to nothing below
/// their hundredths.
proof fn lemma_upper_shares(percent: u8)
    requires
        percent == 95 || percent == 99,
    ensures
        crate::stats::share_denominator(percent) == DOUBLE_SPAN,
        percent * DOUBLE_SPAN - 40 <= 100 * crate::stats::share_numerator(percent),
        100 * crate::stats::share_numerator(percent) <= percent * DOUBLE_SPAN,
        crate::stats::share_numerator(percent) <= DOUBLE_SPAN,
{
    if percent == 95 {
        assert(crate::stats::share_numerator(95) == (95 * 0x20_0000_0000_0000 + 50) / 100);
    } else {
        assert(crate::stats::share_numerator(99) == (99 * 0x20_0000_0000_0000 + 50) / 100);
    }
}

/// The product behind an upper percentile: next to nothing below `percent`
/// hundredths of the last index.
proof fn lemma_upper_product(percent: u8, len: nat)
    requires
        percent == 95 || percent == 99,
        0 < len <= DOUBLE_SPAN,
    ensures
        ({
            let n = (len - 1) as nat;
            let k = crate::stats::percentile_index(percent, len);
            let p = crate::stats::share_numerator(percent) * n;
            let x = crate::double::nearest_double(p);
            &&& (percent * n) * DOUBLE_SPAN - 40 * n <= 100 * p <= (percent * n) * DOUBLE_SPAN
            &&& 94 * (n * DOUBLE_SPAN) <= 100 * p
            &&& p <= DOUBLE_SPAN * n
            &&& 2 * (k * DOUBLE_SPAN) - DOUBLE_SPAN <= 2 * x < 2 * (k * DOUBLE_SPAN) + DOUBLE_SPAN
        }),
{
    let n = (len - 1) as nat;
    let s = crate::stats::share_numerator(percent);
    let p = s * n;
    lemma_upper_shares(percent);
    law_index_is_nearest_to_share(percent, len);
    crate::double::lemma_small_numbers_are_doubles(n);
    assert((percent * n) * DOUBLE_SPAN - 40 * n <= 100 * p && 100 * p <= (percent * n)
        * DOUBLE_SPAN) by (nonlinear_arith)
        requires
            p == s * n,
            percent * DOUBLE_SPAN - 40 <= 100 * s <= percent * DOUBLE_SPAN,
    ;
    assert(94 * (n * DOUBLE_SPAN) <= 100 * p) by (nonlinear_arith)
        requires
            p == s * n,
            94 * DOUBLE_SPAN <= 100 * s,
    ;
    assert(p <= DOUBLE_SPAN * n) by (nonlinear_arith)
        requires
            p == s * n,
            s <= DOUBLE_SPAN,
    ;
}

/// `percent` hundredths of the last index, rounded to the nearest whole number and
/// upwards from halfway, is the index of the two upper percentiles of a summary.
proof fn lemma_upper_index_exact(percent: u8, len: nat)
    requires
        percent == 95 || percent == 99,
        0 < len <= 0x800_0000_0000,
    ensures
        crate::stats::percentile_index(percent, len) == (percent * (len - 1) + 50) / 100,
{
    let n = (len - 1) as nat;
    let k = crate::stats::percentile_index(percent, len);
    law_index_is_nearest_to_percent(percent, len);
    if (percent * n) % 100 == 50 {
        let s = crate::stats::share_numerator(percent);
        let p = s * n;
        let j = ((percent * n) / 100) as nat;
        let half: nat = 0x10_0000_0000_0000;
        let target = (2 * j + 1) * half;
        let unit = crate::double::double_unit(p);
        lemma_upper_product(percent, len);
        crate::double::lemma_double_unit(p);
        assert(percent * n == 100 * j + 50);
        assert(94 * n < 100 * unit);
        vstd::arithmetic::power2::lemma2_to64_rest();
        let times = crate::double::lemma_unit_divides(p, 52);
        assert(target == ((2 * j + 1) * times) * unit) by (nonlinear_arith)
            requires
                target == (2 * j + 1) * half,
                half == times * unit,
        ;
        crate::double::lemma_rounds_up_to_near_multiple(p, (2 * j + 1) * times, target);
        law_index_is_nearest_to_share(percent, len);
        assert(k == j + 1);
    }
}

/// The index of an upper percentile is not above the whole number that follows its
/// share of the last index.
proof fn lemma_upper_index_not_above(percent: u8, len: nat)
    requires
        percent == 95 || percent == 99,
        0 < len <= DOUBLE_SPAN,
    ensures
        100 * crate::stats::percentile_index(percent, len) <= percent * (len - 1) + 99,
{
    let n = (len - 1) as nat;
    let share = (percent * n) as nat;
    let above = (share + 99) / 100;
    let p = crate::stats::share_numerator(percent) * n;
    lemma_upper_product(percent, len);
    assert(share <= 99 * n) by (nonlinear_arith)
        requires
            share == percent * n,
            percent <= 99,
    ;
    vstd::arithmetic::power2::lemma2_to64_rest();
    crate::double::lemma_small_numbers_are_doubles(above);
    crate::double::lemma_nearest_double_scales(above, 53);
    crate::double::lemma_nearest_double_grows(p, (DOUBLE_SPAN * above) as nat);
}

/// Rounding by a quarter of `DOUBLE_SPAN` at most leaves the index `k` of a product
/// not far below `share` hundredths.
proof fn lemma_not_below_after_little_rounding(share: int, n: int, p: int, x: int, k: int)
    requires
        share * DOUBLE_SPAN - 40 * n <= 100 * p,
        94 * (n * DOUBLE_SPAN) <= 100 * p,
        p < DOUBLE_SPAN * 0x10_0000_0000_0000,
        2 * p <= 2 * x + 0x10_0000_0000_0000,
        2 * x < 2 * (k * DOUBLE_SPAN) + DOUBLE_SPAN,
    ensures
        share <= 100 * k + 100,
{
}

/// A product that rounds to a multiple of `DOUBLE_SPAN` leaves nothing to round, so
/// its index `k` is not far below `share` hundredths either.
proof fn lemma_not_below_after_full_rounding(
    share: int,
    n: int,
    p: int,
    x: int,
    k: int,
    factor: int,
)
    requires
        share * DOUBLE_SPAN - 40 * n <= 100 * p,
        n <= DOUBLE_SPAN,
        2 * p <= 2 * x + DOUBLE_SPAN,
        x == factor * DOUBLE_SPAN,
        2 * x < 2 * (k * DOUBLE_SPAN) + DOUBLE_SPAN,
    ensures
        share <= 100 * k + 100,
{
    assert(factor <= k);
}

/// The index of an upper percentile is not far below its share of the last index.
proof fn lemma_upper_index_not_below(percent: u8, len: nat)
    requires
        percent == 95 || percent == 99,
        0 < len <= DOUBLE_SPAN,
    ensures
        percent * (len - 1) <= 100 * crate::stats::percentile_index(percent, len) + 100,
{
    let n = (len - 1) as nat;
    let share = percent * n;
    let k = crate::stats::percentile_index(percent, len) as int;
    let p = crate::stats::share_numerator(percent) * n;
    let x = crate::double::nearest_double(p);
    let unit = crate::double::double_unit(p);
    lemma_upper_product(percent, len);
    crate::double::lemma_nearest_double_within_half_a_unit(p);
    vstd::arithmetic::power2::lemma2_to64_rest();
    if p < DOUBLE_SPAN * 0x10_0000_0000_0000 {
        let times = crate::double::lemma_unit_divides(p, 52);
        assert(unit <= 0x10_0000_0000_0000) by (nonlinear_arith)
            requires
                0x10_0000_0000_0000 == times * unit,
                times >= 1,
        ;
        lemma_not_below_after_little_rounding(share, n as int, p as int, x as int, k);
    } else {
        crate::double::lemma_unit_is_power(p, 53);
        let factor = crate::double::lemma_nearest_double_is_multiple(p);
        lemma_not_below_after_full_rounding(
            share,
            n as int,
            p as int,
            x as int,
            k,
            factor as int,
        );
    }
}

/// Rearranging samples does not change how many of them meet a condition.
proof fn lemma_count_by_contents(samples: Seq<u64>, condition: spec_fn(u64) -> bool)
    ensures
        samples.filter(condition).len() == samples.to_multiset().filter(condition).len(),
    decreases samples.len(),
{
    broadcast use vstd::seq_lib::group_to_multiset_ensures;
    broadcast use vstd::multiset::group_multiset_axioms;

    reveal(Seq::filter);
    if samples.len() == 0 {
        assert(samples.to_multiset().filter(condition) =~= vstd::multiset::Multiset::empty());
    } else {
        let earlier = samples.drop_last();
        let last = samples.last();
        lemma_count_by_contents(earlier, condition);
        vstd::seq_lib::to_multiset_build(earlier, last);
        assert(earlier.push(last) =~= samples);
        let before = earlier.to_multiset().filter(condition);
        if condition(last) {
            assert(samples.to_multiset().filter(condition) =~= before.insert(last));
        } else {
            assert(samples.to_multiset().filter(condition) =~= before);
        }
    }
}

/// Where no sample from index `from` on meets a condition, at most `from` do.
proof fn lemma_at_most_the_first(samples: Seq<u64>, condition: spec_fn(u64) -> bool, from: nat)
    requires
        from <= samples.len(),
        forall|i: int| from <= i < samples.len() ==> !condition(#[trigger] samples[i]),
    ensures
        samples.filter(condition).len() <= from,
    decreases samples.len(),
{
    reveal(Seq::filter);
    if samples.len() > 0 {
        let earlier = samples.drop_last();
        assert forall|i: int| from <= i < earlier.len() implies !condition(
            #[trigger] earlier[i],
        ) by {
            assert(earlier[i] == samples[i]);
        }
        if from < samples.len() {
            assert(!condition(samples[samples.len() - 1]));
            lemma_at_most_the_first(earlier, condition, from);
        } else {
            lemma_at_most_the_first(earlier, condition, (from - 1) as nat);
        }
    }
}

/// Where no sample before index `from` meets a condition, at most the rest do.
proof fn lemma_at_most_the_rest(samples: Seq<u64>, condition: spec_fn(u64) -> bool, from: nat)
    requires
        from <= samples.len(),
        forall|i: int| 0 <= i < from ==> !condition(#[trigger] samples[i]),
    ensures
        samples.filter(condition).len() <= samples.len() - from,
    decreases samples.len(),
{
    reveal(Seq::filter);
    if samples.len() > 0 {
        let earlier = samples.drop_last();
        let kept = if from < samples.len() {
            from
        } else {
            (from - 1) as nat
        };
        assert forall|i: int| 0 <= i < kept implies !condition(#[trigger] earlier[i]) by {
            assert(earlier[i] == samples[i]);
        }
        lemma_at_most_the_rest(earlier, condition, kept);
        if from == samples.len() {
            assert(!condition(samples[samples.len() - 1]));
        }
    }
}

/// No more than `k` samples are less than the one that stands at index `k` in
/// ascending order, and no more than those that follow it are greater.
proof fn lemma_rank(samples: Seq<u64>, k: int)
    requires
        0 <= k < samples.len(),
    ensures
        ({
            let value = crate::stats::in_order(samples)[k];
            &&& samples.contains(value)
            &&& samples.filter(|sample: u64| sample < value).len() <= k
            &&& samples.filter(|sample: u64| sample > value).len() <= samples.len() - 1 - k
        }),
{
    broadcast use vstd::seq_lib::group_to_multiset_ensures;

    let sorted = crate::stats::in_order(samples);
    let value = sorted[k];
    let (less, greater) = (|sample: u64| sample < value, |sample: u64| sample > value);
    crate::stats::lemma_in_order(samples);
    assert(sorted.to_multiset().count(value) > 0);
    lemma_count_by_contents(samples, less);
    lemma_count_by_contents(sorted, less);
    lemma_at_most_the_first(sorted, less, k as nat);
    lemma_count_by_contents(samples, greater);
    lemma_count_by_contents(sorted, greater);
    lemma_at_most_the_rest(sorted, greater, (k + 1) as nat);
}

/// The percentiles of a summary split the samples by their percentage: each is a
/// sample, and, give or take one sample, no more than its percentage of the others
/// are less and no more than the rest of them are greater.
pub proof fn law_percentiles_split_samples(samples: Seq<u64>)
    requires
        0 < samples.len() <= 0x20_0000_0000_0000,
    ensures
        ({
            let summary = crate::stats::summary_of(samples);
            let others = samples.len() - 1;
            let less = |value: u64| samples.filter(|sample: u64| sample < value).len();
            let greater = |value: u64| samples.filter(|sample: u64| sample > value).len();
            &&& samples.contains(summary.p50_ns)
            &&& 100 * less(summary.p50_ns) <= 50 * others + 100
            &&& 100 * greater(summary.p50_ns) <= 50 * others + 100
            &&& samples.contains(summary.p95_ns)
            &&& 100 * less(summary.p95_ns) <= 95 * others + 100
            &&& 100 * greater(summary.p95_ns) <= 5 * others + 100
            &&& samples.contains(summary.p99_ns)
            &&& 100 * less(summary.p99_ns) <= 99 * others + 100
            &&& 100 * greater(summary.p99_ns) <= 1 * others + 100
        }),
{
    let len = samples.len();
    crate::stats::lemma_in_order(samples);
    crate::stats::lemma_percentile_index_exact(len);
    lemma_upper_index_not_above(95, len);
    lemma_upper_index_not_below(95, len);
    lemma_upper_index_not_above(99, len);
    lemma_upper_index_not_below(99, len);
    crate::stats::law_percentiles_up_to_hundred_exist(95, len);
    crate::stats::law_percentiles_up_to_hundred_exist(99, len);
    lemma_rank(samples, len as int / 2);
    lemma_rank(samples, crate::stats::percentile_index(95, len) as int);
    lemma_rank(samples, crate::stats::percentile_index(99, len) as int);
}

/// With the samples put in ascending order, the percentiles of their summary stand
/// at the index nearest to that percentage of the last index, at the upper one from
/// halfway between two; the least and the greatest stand at the ends.
pub proof fn law_percentiles_stand_at_their_rank(samples: Seq<u64>, sorted: Seq<u64>)
    requires
        0 < samples.len() <= 0x800_0000_0000,
        sorted.to_multiset() == samples.to_multiset(),
        forall|i: int, j: int| 0 <= i <= j < sorted.len() ==> sorted[i] <= sorted[j],
    ensures
        ({
            let summary = crate::stats::summary_of(samples);
            let last = samples.len() - 1;
            &&& sorted.len() == samples.len()
            &&& summary.min_ns == sorted[0]
            &&& summary.p50_ns == sorted[(50 * last + 50) / 100]
            &&& summary.p95_ns == sorted[(95 * last + 50) / 100]
            &&& summary.p99_ns == sorted[(99 * last + 50) / 100]
            &&& summary.max_ns == sorted[last]
        }),
{
    crate::stats::lemma_in_order(samples);
    crate::stats::lemma_in_order_unique(samples, sorted);
    crate::stats::lemma_percentile_index_exact(samples.len());
    lemma_upper_index_exact(95, samples.len());
    lemma_upper_index_exact(99, samples.len());
}

/// The percentile `percent` of samples in ascending order is the one at the index
/// nearest to `percent` hundredths of the last index.
pub proof fn law_percentile_stands_nearest_to_percent(sorted: Seq<u64>, percent: u8)
    requires
        0 < sorted.len() <= 0x800_0000_0000,
    ensures
        exists|k: int|
            -50 <= 100 * k - percent * (sorted.len() - 1) <= 50
                && crate::stats::percentile_of(sorted, percent) == #[trigger] sorted[k],
{
    let k = crate::stats::percentile_index(percent, sorted.len()) as int;
    law_index_is_nearest_to_percent(percent, sorted.len());
    assert(crate::stats::percentile_of(sorted, percent) == sorted[k]);
}

/// The percentile `percent` of any number of samples in ascending order is the one
/// at the index `k` nearest to the share of the last index that double-precision
/// arithmetic gives, the upper one from halfway between two.
pub proof fn law_percentile_stands_nearest_to_share(sorted: Seq<u64>, percent: u8, k: nat)
    requires
        sorted.len() > 0,
        ({
            let d = crate::stats::share_denominator(percent);
            let share = crate::double::nearest_double(
                crate::stats::share_numerator(percent) * crate::double::nearest_double(
                    (sorted.len() - 1) as nat,
                ),
            );
            2 * (k * d) - d <= 2 * share < 2 * (k * d) + d
        }),
    ensures
        crate::stats::percentile_of(sorted, percent) == sorted[k as int],
{
    let d = crate::stats::share_denominator(percent);
    let index = crate::stats::percentile_index(percent, sorted.len());
    law_index_is_nearest_to_share(percent, sorted.len());
    assert(index == k) by (nonlinear_arith)
        requires
            k * d < index * d + d,
            index * d < k * d + d,
    ;
}

/// Without samples every percentile is zero.
pub proof fn law_no_samples_no_percentile(sorted: Seq<u64>, percent: u8)
    requires
        sorted.len() == 0,
    ensures
        crate::stats::percentile_of(sorted, percent) == 0,
{
}

/// Adding the samples up one by one gives their total.
proof fn lemma_total_is_sum(samples: Seq<u64>)
    ensures
        crate::stats::total(samples) == samples.fold_left(0int, |sum: int, v: u64| sum + v),
    decreases samples.len(),
{
    reveal_with_fuel(Seq::fold_left, 2);
    if samples.len() > 0 {
        lemma_total_is_sum(samples.drop_last());
    }
}

/// The mean of a summary, taken once for every sample, comes to the sum of the
/// samples, short of it by less than one for every sample.
pub proof fn law_mean_times_count_is_sum(samples: Seq<u64>)
    requires
        samples.len() > 0,
    ensures
        ({
            let avg = crate::stats::summary_of(samples).avg_ns;
            let sum = samples.fold_left(0int, |sum: int, v: u64| sum + v);
            avg * samples.len() <= sum < (avg + 1) * samples.len()
        }),
{
    let sum = crate::stats::total(samples) as int;
    let len = samples.len() as int;
    lemma_total_is_sum(samples);
    crate::stats::law_summary_is_ordered(samples);
    vstd::arithmetic::div_mod::lemma_fundamental_div_mod(sum, len);
    let avg = sum / len;
    assert(avg * len <= sum < (avg + 1) * len) by (nonlinear_arith)
        requires
            sum == len * avg + sum % len,
            len > 0,
    ;
}

} // verus!
