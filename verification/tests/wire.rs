use tokio_udp_demo::wire::{
    make_bench_payload, make_mock_driver_payload, make_stamped_payload, make_uplink_payload,
    read_le_u64, BENCH_MESSAGE_SIZE, PROTOCOL_MESSAGE_SIZE,
};

#[test]
fn sizes_agree() {
    assert_eq!(PROTOCOL_MESSAGE_SIZE, 56);
    assert_eq!(BENCH_MESSAGE_SIZE, 56);
}

#[test]
fn mock_driver_payload_starts_with_its_number() {
    let payload = make_mock_driver_payload(0x0102_0304);
    assert_eq!(&payload[0..4], &0x0102_0304_u32.to_le_bytes());
    assert_eq!(&payload[0..4], &[4, 3, 2, 1]);
    assert!(payload[4..].iter().all(|b| *b == 0));
    assert_eq!(make_mock_driver_payload(u32::MAX)[0..5], [255, 255, 255, 255, 0]);
}

#[test]
fn stamped_payload_holds_number_and_time() {
    let payload = make_stamped_payload(0x0102_0304_0506_0708, u64::MAX - 1);
    assert_eq!(&payload[0..8], &[8, 7, 6, 5, 4, 3, 2, 1]);
    assert_eq!(&payload[8..16], &(u64::MAX - 1).to_le_bytes());
    assert!(payload[16..].iter().all(|b| *b == 0));
}

#[test]
fn fields_read_back() {
    for seq in [0, 1, 255, 256, 65_535, 1 << 40, u64::MAX] {
        for sent in [0, 7, u64::MAX] {
            let payload = make_stamped_payload(seq, sent);
            assert_eq!(read_le_u64(&payload, 0), seq);
            assert_eq!(read_le_u64(&payload, 8), sent);
        }
    }
}

#[test]
fn reading_agrees_with_std() {
    let bytes: Vec<u8> = (0..40).map(|i| (i * 37 + 11) as u8).collect();
    for at in 0..=32 {
        let expected = u64::from_le_bytes(bytes[at..at + 8].try_into().unwrap());
        assert_eq!(read_le_u64(&bytes, at), expected);
    }
}

#[test]
fn current_payloads_carry_the_current_time() {
    // 2020-01-01 as nanoseconds since the Unix epoch.
    let year_2020: u64 = 1_577_836_800_000_000_000;
    for payload in [make_bench_payload(9), make_uplink_payload(9)] {
        assert_eq!(read_le_u64(&payload, 0), 9);
        assert!(read_le_u64(&payload, 8) > year_2020);
        assert!(payload[16..].iter().all(|b| *b == 0));
    }
}
