use tokio_udp_demo::double::{round_to_double, DOUBLE_SPAN};

#[test]
fn span_is_two_to_the_fifty_three() {
    assert_eq!(DOUBLE_SPAN, 1 << 53);
}

#[test]
fn small_numbers_stay() {
    for p in [0, 1, 7, DOUBLE_SPAN - 1, DOUBLE_SPAN] {
        assert_eq!(round_to_double(p), p);
    }
}

#[test]
fn halfway_goes_to_the_even_neighbour() {
    assert_eq!(round_to_double(DOUBLE_SPAN + 1), DOUBLE_SPAN);
    assert_eq!(round_to_double(DOUBLE_SPAN + 2), DOUBLE_SPAN + 2);
    assert_eq!(round_to_double(DOUBLE_SPAN + 3), DOUBLE_SPAN + 4);
    assert_eq!(round_to_double(u64::MAX as u128), 1 << 64);
}

#[test]
fn rounding_agrees_with_floating_point() {
    let mut p: u128 = 1;
    for step in 0..20_000u128 {
        p = (p.wrapping_mul(6_364_136_223_846_793_005).wrapping_add(step * 2 + 1)) % (1 << 120);
        let shifted = p >> (step % 100);
        assert_eq!(round_to_double(shifted), shifted as f64 as u128);
        let near_tie = (shifted | 1 << 60) & !0x1ff | 0x100;
        assert_eq!(round_to_double(near_tie), near_tie as f64 as u128);
    }
}
