//! The final report as a CSV file: one line of column names, one of values.

use crate::stats::BenchReport;
use vstd::prelude::*;

verus! {

/// The latency columns of a report as text, in microseconds.
#[derive(Debug)]
pub struct LatencyColumns {
    pub min_us: String,
    pub avg_us: String,
    pub p50_us: String,
    pub p95_us: String,
    pub p99_us: String,
    pub max_us: String,
}

/// The decimal digit `d`.
pub open spec fn digit_char(d: nat) -> char {
    ('0' as nat + d) as char
}

/// `n` in decimal digits, without leading zeros.
pub open spec fn decimal(n: nat) -> Seq<char>
    decreases n,
{
    if n < 10 {
        seq![digit_char(n)]
    } else {
        decimal(n / 10).push(digit_char(n % 10))
    }
}

/// `fields` with a comma between each two.
pub open spec fn comma_separated(fields: Seq<Seq<char>>) -> Seq<char>
    decreases fields.len(),
{
    if fields.len() == 0 {
        Seq::empty()
    } else if fields.len() == 1 {
        fields[0]
    } else {
        comma_separated(fields.drop_last()) + ","@ + fields.last()
    }
}

/// The names of the columns.
pub open spec fn column_names() -> Seq<Seq<char>> {
    seq![
        "phase"@,
        "received"@,
        "invalid_size"@,
        "out_of_order"@,
        "dropped_estimate"@,
        "clock_skew_count"@,
        "sent_to_server_total"@,
        "min_us"@,
        "avg_us"@,
        "p50_us"@,
        "p95_us"@,
        "p99_us"@,
        "max_us"@,
    ]
}

/// The values in the columns.
pub open spec fn column_values(
    report: BenchReport,
    sent_to_server_total: u64,
    latency: LatencyColumns,
) -> Seq<Seq<char>> {
    seq![
        report.phase@,
        decimal(report.received as nat),
        decimal(report.invalid_size as nat),
        decimal(report.out_of_order as nat),
        decimal(report.dropped_estimate as nat),
        decimal(report.clock_skew_count as nat),
        decimal(sent_to_server_total as nat),
        latency.min_us@,
        latency.avg_us@,
        latency.p50_us@,
        latency.p95_us@,
        latency.p99_us@,
        latency.max_us@,
    ]
}

/// The contents of the file.
pub open spec fn csv_text(
    report: BenchReport,
    sent_to_server_total: u64,
    latency: LatencyColumns,
) -> Seq<char> {
    comma_separated(column_names()) + "\n"@ + comma_separated(
        column_values(report, sent_to_server_total, latency),
    ) + "\n"@
}

/// The text of the decimal digit `d`.
fn digit_text(d: u64) -> (text: &'static str)
    requires
        d < 10,
    ensures
        text@ == seq![digit_char(d as nat)],
{
    proof {
        reveal_strlit("0");
        reveal_strlit("1");
        reveal_strlit("2");
        reveal_strlit("3");
        reveal_strlit("4");
        reveal_strlit("5");
        reveal_strlit("6");
        reveal_strlit("7");
        reveal_strlit("8");
        reveal_strlit("9");
    }
    if d == 0 {
        "0"
    } else if d == 1 {
        "1"
    } else if d == 2 {
        "2"
    } else if d == 3 {
        "3"
    } else if d == 4 {
        "4"
    } else if d == 5 {
        "5"
    } else if d == 6 {
        "6"
    } else if d == 7 {
        "7"
    } else if d == 8 {
        "8"
    } else {
        "9"
    }
}

/// Appends `n` in decimal digits to `out`.
fn append_decimal(out: &mut String, n: u64)
    ensures
        final(out)@ == old(out)@ + decimal(n as nat),
    decreases n,
{
    if n >= 10 {
        append_decimal(out, n / 10);
    }
    out.append(digit_text(n % 10));
    assert(out@ =~= old(out)@ + decimal(n as nat));
}

/// `n` in decimal digits.
fn decimal_text(n: u64) -> (text: String)
    ensures
        text@ == decimal(n as nat),
{
    let mut text = String::new();
    append_decimal(&mut text, n);
    assert(text@ =~= decimal(n as nat));
    text
}

/// Appends `fields`, with a comma between each two, and the end of the line.
fn append_line(out: &mut String, fields: &Vec<&str>)
    ensures
        final(out)@ == old(out)@ + comma_separated(fields@.map_values(|f: &str| f@)) + "\n"@,
{
    let ghost texts = fields@.map_values(|f: &str| f@);
    let mut i: usize = 0;
    while i < fields.len()
        invariant
            i <= fields.len(),
            texts == fields@.map_values(|f: &str| f@),
            out@ == old(out)@ + comma_separated(texts.take(i as int)),
        decreases fields.len() - i,
    {
        let ghost before = out@;
        if i > 0 {
            out.append(",");
        }
        out.append(fields[i]);
        proof {
            assert(texts.take(i + 1).drop_last() =~= texts.take(i as int));
            assert(out@ =~= old(out)@ + comma_separated(texts.take(i + 1)));
        }
        i = i + 1;
    }
    assert(texts.take(i as int) =~= texts);
    out.append("\n");
}

/// The contents of the file for `report`: the column names, the values, each on
/// a line of its own.
pub fn csv_report(
    report: &BenchReport,
    sent_to_server_total: u64,
    latency: &LatencyColumns,
) -> (text: String)
    ensures
        text@ == csv_text(*report, sent_to_server_total, *latency),
{
    let names: Vec<&str> = vec![
        "phase",
        "received",
        "invalid_size",
        "out_of_order",
        "dropped_estimate",
        "clock_skew_count",
        "sent_to_server_total",
        "min_us",
        "avg_us",
        "p50_us",
        "p95_us",
        "p99_us",
        "max_us",
    ];
    let received = decimal_text(report.received);
    let invalid_size = decimal_text(report.invalid_size);
    let out_of_order = decimal_text(report.out_of_order);
    let dropped_estimate = decimal_text(report.dropped_estimate);
    let clock_skew_count = decimal_text(report.clock_skew_count);
    let sent_total = decimal_text(sent_to_server_total);
    let values: Vec<&str> = vec![
        report.phase,
        received.as_str(),
        invalid_size.as_str(),
        out_of_order.as_str(),
        dropped_estimate.as_str(),
        clock_skew_count.as_str(),
        sent_total.as_str(),
        latency.min_us.as_str(),
        latency.avg_us.as_str(),
        latency.p50_us.as_str(),
        latency.p95_us.as_str(),
        latency.p99_us.as_str(),
        latency.max_us.as_str(),
    ];
    let mut text = String::new();
    append_line(&mut text, &names);
    append_line(&mut text, &values);
    proof {
        assert(names@.map_values(|f: &str| f@) =~= column_names());
        assert(values@.map_values(|f: &str| f@) =~= column_values(
            *report,
            sent_to_server_total,
            *latency,
        ));
        assert(text@ =~= csv_text(*report, sent_to_server_total, *latency));
    }
    text
}

/// There is a value for each column.
pub proof fn law_one_value_per_column(
    report: BenchReport,
    sent_to_server_total: u64,
    latency: LatencyColumns,
)
    ensures
        column_values(report, sent_to_server_total, latency).len() == column_names().len(),
{
}

/// The digits of a number are digits, there is at least one of them, and they
/// spell the number.
pub proof fn law_decimal_reads_back(n: nat)
    ensures
        decimal(n).len() > 0,
        forall|i: int|
            0 <= i < decimal(n).len() ==> crate::args::is_digit(#[trigger] decimal(n)[i]),
        crate::args::decimal_value(decimal(n)) == n,
    decreases n,
{
    if n < 10 {
        assert(decimal(n).drop_last() =~= Seq::<char>::empty());
        assert(crate::args::decimal_value(decimal(n).drop_last()) == 0);
    } else {
        law_decimal_reads_back(n / 10);
        assert(decimal(n).drop_last() =~= decimal(n / 10));
    }
}

/// A counter in the file is a number that an option on the command line could
/// have, and reads back as the counter.
pub proof fn law_counters_parse_back(n: u64)
    ensures
        crate::args::parsed_u64(decimal(n as nat)) == Some(n),
{
    law_decimal_reads_back(n as nat);
    assert(crate::args::is_digit(decimal(n as nat)[0]));
}

/// One more field comes after a comma.
proof fn lemma_next_field(fields: Seq<Seq<char>>, k: int)
    requires
        1 <= k < fields.len(),
    ensures
        comma_separated(fields.take(k + 1)) == comma_separated(fields.take(k)) + ","@ + fields[k],
{
    assert(fields.take(k + 1).drop_last() =~= fields.take(k));
}

/// Thirteen fields, one after the other.
proof fn lemma_thirteen_fields(f: Seq<Seq<char>>)
    requires
        f.len() == 13,
    ensures
        comma_separated(f) == f[0] + ","@ + f[1] + ","@ + f[2] + ","@ + f[3] + ","@ + f[4] + ","@
            + f[5] + ","@ + f[6] + ","@ + f[7] + ","@ + f[8] + ","@ + f[9] + ","@ + f[10] + ","@
            + f[11] + ","@ + f[12],
{
    lemma_next_field(f, 1);
    lemma_next_field(f, 2);
    lemma_next_field(f, 3);
    lemma_next_field(f, 4);
    lemma_next_field(f, 5);
    lemma_next_field(f, 6);
    lemma_next_field(f, 7);
    lemma_next_field(f, 8);
    lemma_next_field(f, 9);
    lemma_next_field(f, 10);
    lemma_next_field(f, 11);
    lemma_next_field(f, 12);
    assert(f.take(13) =~= f);
}

/// The file has two lines. The first names the columns; the second holds, in the
/// same order, what each of them is named after, counters in decimal digits.
pub proof fn law_file_has_names_and_values(
    report: BenchReport,
    sent_to_server_total: u64,
    latency: LatencyColumns,
)
    ensures
        ({
            let names = "phase"@ + ","@ + "received"@ + ","@ + "invalid_size"@ + ","@
                + "out_of_order"@ + ","@ + "dropped_estimate"@ + ","@ + "clock_skew_count"@ + ","@
                + "sent_to_server_total"@ + ","@ + "min_us"@ + ","@ + "avg_us"@ + ","@ + "p50_us"@
                + ","@ + "p95_us"@ + ","@ + "p99_us"@ + ","@ + "max_us"@;
            let values = report.phase@ + ","@ + decimal(report.received as nat) + ","@
                + decimal(report.invalid_size as nat) + ","@ + decimal(report.out_of_order as nat)
                + ","@ + decimal(report.dropped_estimate as nat) + ","@
                + decimal(report.clock_skew_count as nat) + ","@
                + decimal(sent_to_server_total as nat) + ","@ + latency.min_us@ + ","@
                + latency.avg_us@ + ","@ + latency.p50_us@ + ","@ + latency.p95_us@ + ","@
                + latency.p99_us@ + ","@ + latency.max_us@;
            csv_text(report, sent_to_server_total, latency) == names + "\n"@ + values + "\n"@
        }),
{
    lemma_thirteen_fields(column_names());
    lemma_thirteen_fields(column_values(report, sent_to_server_total, latency));
}

/// The digits of a number do not start with a zero, unless it is zero.
pub proof fn law_decimal_has_no_leading_zero(n: nat)
    ensures
        decimal(n)[0] == '0' <==> n == 0,
        n == 0 ==> decimal(n).len() == 1,
    decreases n,
{
    if n >= 10 {
        law_decimal_reads_back(n / 10);
        law_decimal_has_no_leading_zero(n / 10);
        assert(decimal(n)[0] == decimal(n / 10)[0]);
    }
}

} // verus!
