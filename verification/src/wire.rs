//! The fixed-size messages that travel over UDP, and their little-endian fields.

use crate::clock::unix_now_ns_u64;
use vstd::prelude::*;

verus! {

/// Size in bytes of every protocol message.
pub const PROTOCOL_MESSAGE_SIZE: usize = 56;

/// Size in bytes of every benchmark message.
pub const BENCH_MESSAGE_SIZE: usize = 56;

/// 256 to the power `n`: how many values fit in `n` bytes.
pub open spec fn byte_span(n: nat) -> nat
    decreases n,
{
    if n == 0 {
        1
    } else {
        256 * byte_span((n - 1) as nat)
    }
}

/// The number that `bytes` spell, least significant byte first.
pub open spec fn le_value(bytes: Seq<u8>) -> nat
    decreases bytes.len(),
{
    if bytes.len() == 0 {
        0
    } else {
        bytes[0] as nat + 256 * le_value(bytes.drop_first())
    }
}

/// The lowest `n` bytes of `value`, least significant byte first.
pub open spec fn le_bytes(value: nat, n: nat) -> Seq<u8>
    decreases n,
{
    if n == 0 {
        Seq::empty()
    } else {
        seq![(value % 256) as u8] + le_bytes(value / 256, (n - 1) as nat)
    }
}

/// `n` zero bytes.
pub open spec fn zeros(n: nat) -> Seq<u8> {
    Seq::new(n, |i: int| 0u8)
}

/// What a mock driver message carries: its sequence number, then zeros.
pub open spec fn mock_driver_payload(seq: u32) -> Seq<u8> {
    le_bytes(seq as nat, 4) + zeros((PROTOCOL_MESSAGE_SIZE - 4) as nat)
}

/// What a benchmark message carries: its sequence number, the time at which it
/// was made in nanoseconds since the Unix epoch, then zeros.
pub open spec fn stamped_payload(seq: u64, sent_ns: u64) -> Seq<u8> {
    le_bytes(seq as nat, 8) + le_bytes(sent_ns as nat, 8) + zeros((BENCH_MESSAGE_SIZE - 16) as nat)
}

/// The sequence number in a benchmark message.
pub open spec fn packet_seq(packet: Seq<u8>) -> u64 {
    le_value(packet.subrange(0, 8)) as u64
}

/// The sending time in a benchmark message.
pub open spec fn packet_sent_ns(packet: Seq<u8>) -> u64 {
    le_value(packet.subrange(8, 16)) as u64
}

/// `n` bytes spell less than `256^n`.
proof fn lemma_le_value_bound(bytes: Seq<u8>)
    ensures
        le_value(bytes) < byte_span(bytes.len()),
    decreases bytes.len(),
{
    if bytes.len() > 0 {
        lemma_le_value_bound(bytes.drop_first());
    }
}

/// `le_bytes` gives as many bytes as it is asked for.
proof fn lemma_le_bytes_len(value: nat, n: nat)
    ensures
        le_bytes(value, n).len() == n,
    decreases n,
{
    if n > 0 {
        lemma_le_bytes_len(value / 256, (n - 1) as nat);
    }
}

/// Reading back the bytes of a number that fits in them gives the number.
pub proof fn law_le_bytes_read_back(value: nat, n: nat)
    requires
        value < byte_span(n),
    ensures
        le_value(le_bytes(value, n)) == value,
    decreases n,
{
    if n > 0 {
        law_le_bytes_read_back(value / 256, (n - 1) as nat);
        assert(le_bytes(value, n).drop_first() =~= le_bytes(value / 256, (n - 1) as nat));
    }
}

/// Eight bytes hold exactly the values of `u64`.
proof fn lemma_byte_span_u64()
    ensures
        byte_span(8) == u64::MAX + 1,
        byte_span(4) == u32::MAX + 1,
{
    reveal_with_fuel(byte_span, 9);
}

/// Writes the lowest `width` bytes of `value` into `message` from index `at` on.
fn put_le(message: &mut [u8; BENCH_MESSAGE_SIZE], at: usize, width: usize, value: u64)
    requires
        at + width <= BENCH_MESSAGE_SIZE,
    ensures
        final(message)@ == old(message)@.take(at as int) + le_bytes(value as nat, width as nat)
            + old(message)@.skip(at + width),
{
    let mut rest: u64 = value;
    let mut i: usize = 0;
    while i < width
        invariant
            i <= width,
            at + width <= BENCH_MESSAGE_SIZE,
            message@.len() == BENCH_MESSAGE_SIZE,
            message@.take(at as int) == old(message)@.take(at as int),
            message@.skip(at + width) == old(message)@.skip(at + width),
            message@.subrange(at as int, at + i) + le_bytes(rest as nat, (width - i) as nat)
                == le_bytes(value as nat, width as nat),
        decreases width - i,
    {
        let ghost before = message@;
        message[at + i] = (rest % 256) as u8;
        proof {
            assert(message@.take(at as int) =~= before.take(at as int));
            assert(message@.skip(at + width) =~= before.skip(at + width));
            assert(message@.subrange(at as int, at + i + 1) =~= before.subrange(
                at as int,
                at + i,
            ).push((rest % 256) as u8));
            assert(message@.subrange(at as int, at + i + 1) + le_bytes(
                (rest / 256) as nat,
                (width - i - 1) as nat,
            ) =~= before.subrange(at as int, at + i) + le_bytes(
                rest as nat,
                (width - i) as nat,
            ));
        }
        rest = rest / 256;
        i = i + 1;
    }
    assert(message@ =~= message@.take(at as int) + message@.subrange(at as int, at + width)
        + message@.skip(at + width));
}

/// Reads eight bytes of `packet` from index `at` on, least significant first.
pub fn read_le_u64(packet: &[u8], at: usize) -> (value: u64)
    requires
        at + 8 <= packet.len(),
    ensures
        value == le_value(packet@.subrange(at as int, at + 8)),
{
    let mut value: u64 = 0;
    let mut i: usize = 8;
    while i > 0
        invariant
            i <= 8,
            at + 8 <= packet.len(),
            value == le_value(packet@.subrange(at + i, at + 8)),
        decreases i,
    {
        proof {
            let tail = packet@.subrange(at + i - 1, at + 8);
            assert(tail.drop_first() =~= packet@.subrange(at + i, at + 8));
            lemma_le_value_bound(tail);
            lemma_byte_span_u64();
            lemma_byte_span_monotone(tail.len(), 8);
        }
        i = i - 1;
        value = value * 256 + packet[at + i] as u64;
    }
    value
}

/// More bytes hold more values.
proof fn lemma_byte_span_monotone(m: nat, n: nat)
    requires
        m <= n,
    ensures
        byte_span(m) <= byte_span(n),
        byte_span(n) >= 1,
    decreases n,
{
    if m < n {
        lemma_byte_span_monotone(m, (n - 1) as nat);
    } else if n > 0 {
        lemma_byte_span_monotone((m - 1) as nat, (n - 1) as nat);
    }
}

/// The message that the mock driver emits as number `seq`.
pub fn make_mock_driver_payload(seq: u32) -> (payload: [u8; PROTOCOL_MESSAGE_SIZE])
    ensures
        payload@ == mock_driver_payload(seq),
{
    let mut payload: [u8; 56] = [0u8; 56];
    put_le(&mut payload, 0, 4, seq as u64);
    proof {
        lemma_le_bytes_len(seq as nat, 4);
        assert(payload@ =~= mock_driver_payload(seq));
    }
    payload
}

/// The benchmark message with number `seq`, sent at `sent_ns`.
pub fn make_stamped_payload(seq: u64, sent_ns: u64) -> (payload: [u8; BENCH_MESSAGE_SIZE])
    ensures
        payload@ == stamped_payload(seq, sent_ns),
{
    let mut payload: [u8; 56] = [0u8; 56];
    put_le(&mut payload, 0, 8, seq);
    put_le(&mut payload, 8, 8, sent_ns);
    proof {
        lemma_le_bytes_len(seq as nat, 8);
        lemma_le_bytes_len(sent_ns as nat, 8);
        assert(payload@ =~= stamped_payload(seq, sent_ns));
    }
    payload
}

/// The message with number `seq` that the benchmark server sends now.
pub fn make_bench_payload(seq: u64) -> (payload: [u8; BENCH_MESSAGE_SIZE])
    ensures
        exists|now_ns: u64| payload@ == #[trigger] stamped_payload(seq, now_ns),
{
    let now_ns: u64 = unix_now_ns_u64();
    make_stamped_payload(seq, now_ns)
}

/// The message with number `seq` that the benchmark client sends now.
pub fn make_uplink_payload(seq: u64) -> (payload: [u8; BENCH_MESSAGE_SIZE])
    ensures
        exists|now_ns: u64| payload@ == #[trigger] stamped_payload(seq, now_ns),
{
    let now_ns: u64 = unix_now_ns_u64();
    make_stamped_payload(seq, now_ns)
}

/// A benchmark message has the protocol's size and gives back the sequence
/// number and the sending time that went into it.
pub proof fn law_stamped_payload_reads_back(seq: u64, sent_ns: u64)
    ensures
        stamped_payload(seq, sent_ns).len() == BENCH_MESSAGE_SIZE,
        packet_seq(stamped_payload(seq, sent_ns)) == seq,
        packet_sent_ns(stamped_payload(seq, sent_ns)) == sent_ns,
{
    let payload = stamped_payload(seq, sent_ns);
    lemma_byte_span_u64();
    lemma_le_bytes_len(seq as nat, 8);
    lemma_le_bytes_len(sent_ns as nat, 8);
    law_le_bytes_read_back(seq as nat, 8);
    law_le_bytes_read_back(sent_ns as nat, 8);
    assert(payload.subrange(0, 8) =~= le_bytes(seq as nat, 8));
    assert(payload.subrange(8, 16) =~= le_bytes(sent_ns as nat, 8));
}

/// The sequence number and the sending time in a packet are the numbers that
/// its first and its second eight bytes spell.
pub proof fn law_packet_fields_are_their_bytes(packet: Seq<u8>)
    requires
        packet.len() >= 16,
    ensures
        packet_seq(packet) == le_value(packet.subrange(0, 8)),
        packet_sent_ns(packet) == le_value(packet.subrange(8, 16)),
{
    lemma_byte_span_u64();
    lemma_le_value_bound(packet.subrange(0, 8));
    lemma_le_value_bound(packet.subrange(8, 16));
}

/// A mock driver message has the protocol's size and starts with the four
/// bytes of its sequence number.
pub proof fn law_mock_driver_payload_reads_back(seq: u32)
    ensures
        mock_driver_payload(seq).len() == PROTOCOL_MESSAGE_SIZE,
        le_value(mock_driver_payload(seq).subrange(0, 4)) == seq,
{
    lemma_byte_span_u64();
    lemma_le_bytes_len(seq as nat, 4);
    law_le_bytes_read_back(seq as nat, 4);
    assert(mock_driver_payload(seq).subrange(0, 4) =~= le_bytes(seq as nat, 4));
}

/// Eight bytes spell the sum of each byte times its power of 256, the first byte
/// counting least.
pub proof fn law_eight_bytes_spell_their_sum(bytes: Seq<u8>)
    requires
        bytes.len() == 8,
    ensures
        le_value(bytes) == bytes[0] + 0x100 * bytes[1] + 0x1_0000 * bytes[2] + 0x100_0000 * bytes[3]
            + 0x1_0000_0000 * bytes[4] + 0x100_0000_0000 * bytes[5] + 0x1_0000_0000_0000 * bytes[6]
            + 0x100_0000_0000_0000 * bytes[7],
{
    reveal_with_fuel(le_value, 9);
    lemma_drop_firsts(bytes);
}

/// What is left after some first bytes went, byte by byte.
proof fn lemma_drop_firsts(bytes: Seq<u8>)
    ensures
        forall|n: int, i: int|
            0 <= n <= i < bytes.len() ==> #[trigger] bytes.skip(n)[i - n] == bytes[i],
{
}

/// The fields of a packet are the sums of their bytes: the first eight for the
/// sequence number, the second eight for the sending time, and the first byte of
/// each counting least.
pub proof fn law_packet_fields_sum_their_bytes(packet: Seq<u8>)
    requires
        packet.len() >= 16,
    ensures
        packet_seq(packet) == packet[0] + 0x100 * packet[1] + 0x1_0000 * packet[2] + 0x100_0000
            * packet[3] + 0x1_0000_0000 * packet[4] + 0x100_0000_0000 * packet[5]
            + 0x1_0000_0000_0000 * packet[6] + 0x100_0000_0000_0000 * packet[7],
        packet_sent_ns(packet) == packet[8] + 0x100 * packet[9] + 0x1_0000 * packet[10]
            + 0x100_0000 * packet[11] + 0x1_0000_0000 * packet[12] + 0x100_0000_0000 * packet[13]
            + 0x1_0000_0000_0000 * packet[14] + 0x100_0000_0000_0000 * packet[15],
{
    law_packet_fields_are_their_bytes(packet);
    law_eight_bytes_spell_their_sum(packet.subrange(0, 8));
    law_eight_bytes_spell_their_sum(packet.subrange(8, 16));
}

/// A benchmark message has 56 bytes: eight that sum up to its sequence number,
/// eight that sum up to its sending time, and zeros.
pub proof fn law_stamped_payload_byte_by_byte(seq: u64, sent_ns: u64)
    ensures
        ({
            let m = stamped_payload(seq, sent_ns);
            &&& m.len() == 56
            &&& seq == m[0] + 0x100 * m[1] + 0x1_0000 * m[2] + 0x100_0000 * m[3] + 0x1_0000_0000
                * m[4] + 0x100_0000_0000 * m[5] + 0x1_0000_0000_0000 * m[6]
                + 0x100_0000_0000_0000 * m[7]
            &&& sent_ns == m[8] + 0x100 * m[9] + 0x1_0000 * m[10] + 0x100_0000 * m[11]
                + 0x1_0000_0000 * m[12] + 0x100_0000_0000 * m[13] + 0x1_0000_0000_0000 * m[14]
                + 0x100_0000_0000_0000 * m[15]
            &&& forall|i: int| 16 <= i < 56 ==> #[trigger] m[i] == 0
        }),
{
    law_stamped_payload_reads_back(seq, sent_ns);
    law_packet_fields_sum_their_bytes(stamped_payload(seq, sent_ns));
    lemma_le_bytes_len(seq as nat, 8);
    lemma_le_bytes_len(sent_ns as nat, 8);
}

/// A mock driver message has 56 bytes: four that sum up to its sequence number,
/// and zeros.
pub proof fn law_mock_driver_payload_byte_by_byte(seq: u32)
    ensures
        ({
            let m = mock_driver_payload(seq);
            &&& m.len() == 56
            &&& seq == m[0] + 0x100 * m[1] + 0x1_0000 * m[2] + 0x100_0000 * m[3]
            &&& forall|i: int| 4 <= i < 56 ==> #[trigger] m[i] == 0
        }),
{
    let first = mock_driver_payload(seq).subrange(0, 4);
    law_mock_driver_payload_reads_back(seq);
    lemma_le_bytes_len(seq as nat, 4);
    reveal_with_fuel(le_value, 5);
    lemma_drop_firsts(first);
}

} // verus!
