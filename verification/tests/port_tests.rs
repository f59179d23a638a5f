use yamux_cli::port::{parse_port, PortError, PORT_MAX};

fn std_kind(s: &str) -> Result<u16, PortError> {
    match s.parse::<u16>() {
        Ok(v) => Ok(v),
        Err(e) => match e.kind() {
            std::num::IntErrorKind::Empty => Err(PortError::Empty),
            std::num::IntErrorKind::InvalidDigit => Err(PortError::InvalidDigit),
            std::num::IntErrorKind::PosOverflow => Err(PortError::TooLarge),
            other => panic!("unexpected kind {:?}", other),
        },
    }
}

#[test]
fn parse_port_plain_numbers() {
    assert_eq!(parse_port("80"), Ok(80));
    assert_eq!(parse_port("0"), Ok(0));
    assert_eq!(parse_port("8080"), Ok(8080));
    assert_eq!(parse_port("65535"), Ok(PORT_MAX));
}

#[test]
fn parse_port_leading_plus_and_zeros() {
    assert_eq!(parse_port("+22"), Ok(22));
    assert_eq!(parse_port("0080"), Ok(80));
    assert_eq!(parse_port("+000065535"), Ok(65535));
}

#[test]
fn parse_port_empty() {
    assert_eq!(parse_port(""), Err(PortError::Empty));
}

#[test]
fn parse_port_invalid_digit() {
    assert_eq!(parse_port("+"), Err(PortError::InvalidDigit));
    assert_eq!(parse_port("-"), Err(PortError::InvalidDigit));
    assert_eq!(parse_port("-1"), Err(PortError::InvalidDigit));
    assert_eq!(parse_port("8o"), Err(PortError::InvalidDigit));
    assert_eq!(parse_port(" 80"), Err(PortError::InvalidDigit));
    assert_eq!(parse_port("++1"), Err(PortError::InvalidDigit));
    assert_eq!(parse_port("８０"), Err(PortError::InvalidDigit));
}

#[test]
fn parse_port_too_large() {
    assert_eq!(parse_port("65536"), Err(PortError::TooLarge));
    assert_eq!(parse_port("99999999999999999999"), Err(PortError::TooLarge));
    // The overflow is met before the bad character.
    assert_eq!(parse_port("999999x"), Err(PortError::TooLarge));
    // The bad character is met before any overflow.
    assert_eq!(parse_port("9x99999"), Err(PortError::InvalidDigit));
}

#[test]
fn parse_port_agrees_with_std() {
    let samples = [
        "", "+", "-", "0", "00", "+0", "-0", "1", "65535", "65536", "065535", "+65535",
        "100000", "6553a", "a", "1 ", "12_3", "٣", "+-1", "-+1", "4294967296", "999999x",
        "x999999", "65530", "65539",
    ];
    for s in samples.iter() {
        assert_eq!(parse_port(s), std_kind(s), "on {:?}", s);
    }
    for n in (0u32..70000).step_by(7) {
        let s = n.to_string();
        assert_eq!(parse_port(&s), std_kind(&s), "on {:?}", s);
    }
}

#[test]
fn port_error_messages_are_std_wording() {
    for s in ["", "x", "70000"].iter() {
        let std_msg = s.parse::<u16>().unwrap_err().to_string();
        assert_eq!(parse_port(s).unwrap_err().message(), std_msg);
    }
}
