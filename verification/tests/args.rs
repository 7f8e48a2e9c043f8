use tokio_udp_demo::args::{get_arg, get_arg_or, parse_u64_arg, NumberErrorKind};

fn args(list: &[&str]) -> Vec<String> {
    list.iter().map(|s| s.to_string()).collect()
}

#[test]
fn option_value_follows_its_key() {
    let given = args(&["prog", "--a", "1", "--b", "2"]);
    assert_eq!(get_arg(&given, "--a"), Some("1".to_string()));
    assert_eq!(get_arg(&given, "--b"), Some("2".to_string()));
    assert_eq!(get_arg(&given, "--c"), None);
    assert_eq!(get_arg(&[], "--a"), None);
    assert_eq!(get_arg(&given, ""), None);
}

#[test]
fn first_option_counts() {
    let given = args(&["prog", "--a", "1", "--a", "2", "--b"]);
    assert_eq!(get_arg(&given, "--a"), Some("1".to_string()));
    assert_eq!(get_arg(&given, "--b"), None);
    // Any position counts, a value's too.
    assert_eq!(get_arg(&given, "1"), Some("--a".to_string()));
    assert_eq!(get_arg(&given, "prog"), Some("--a".to_string()));
}

#[test]
fn default_stands_in_for_a_missing_option() {
    let given = args(&["prog", "--recv-addr", "0.0.0.0:1"]);
    assert_eq!(get_arg_or(&given, "--recv-addr", "127.0.0.1:7001"), "0.0.0.0:1");
    assert_eq!(get_arg_or(&given, "--send-bind-addr", "127.0.0.1:0"), "127.0.0.1:0");
}

#[test]
fn numbers_are_parsed() {
    let parse = |value: &str| parse_u64_arg(&args(&["prog", "--n", value]), "--n", 7);
    assert_eq!(parse_u64_arg(&args(&["prog"]), "--n", 7).unwrap(), 7);
    assert_eq!(parse("0").unwrap(), 0);
    assert_eq!(parse("0020").unwrap(), 20);
    assert_eq!(parse("+5").unwrap(), 5);
    assert_eq!(parse("18446744073709551615").unwrap(), u64::MAX);
    assert_eq!(parse("000000000000000000000000000000018446744073709551615").unwrap(), u64::MAX);
}

#[test]
fn other_values_are_errors() {
    let kind = |value: &str| {
        let error = parse_u64_arg(&args(&["prog", "--n", value]), "--n", 7).unwrap_err();
        assert_eq!(Some(error.cause), value.parse::<u64>().err());
        error.kind
    };
    assert_eq!(kind(""), NumberErrorKind::Empty);
    for malformed in ["x", "+", "-", "-1", "1 ", " 1", "1_000", "++1", "1.5", "\u{0661}", "9x"] {
        assert_eq!(kind(malformed), NumberErrorKind::InvalidDigit);
    }
    assert_eq!(kind("999999999999999999x"), NumberErrorKind::InvalidDigit);
    assert_eq!(kind("18446744073709551616"), NumberErrorKind::PosOverflow);
    assert_eq!(kind("+99999999999999999999999"), NumberErrorKind::PosOverflow);
}
