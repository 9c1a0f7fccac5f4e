use relay::config::parse_port;

#[test]
fn accepts_plain_ports() {
    assert_eq!(parse_port("0"), Some(0));
    assert_eq!(parse_port("80"), Some(80));
    assert_eq!(parse_port("1300"), Some(1300));
    assert_eq!(parse_port("65535"), Some(65535));
}

#[test]
fn accepts_a_leading_plus_sign() {
    assert_eq!(parse_port("+80"), Some(80));
    assert_eq!(parse_port("+0"), Some(0));
}

#[test]
fn accepts_leading_zeros() {
    assert_eq!(parse_port("007"), Some(7));
    assert_eq!(parse_port("00000000000065535"), Some(65535));
}

#[test]
fn rejects_values_over_u16() {
    assert_eq!(parse_port("65536"), None);
    assert_eq!(parse_port("99999999999999"), None);
}

#[test]
fn rejects_non_digits() {
    assert_eq!(parse_port(""), None);
    assert_eq!(parse_port("+"), None);
    assert_eq!(parse_port("12a"), None);
    assert_eq!(parse_port("-1"), None);
    assert_eq!(parse_port(" 80"), None);
    assert_eq!(parse_port("8 0"), None);
    assert_eq!(parse_port("++8"), None);
}

#[test]
fn agrees_with_the_standard_parser() {
    let samples = ["0", "80", "+80", "65535", "65536", "007", "", "+", "12a", "-1"];
    for s in samples {
        assert_eq!(parse_port(s), s.parse::<u16>().ok(), "on {:?}", s);
    }
}
