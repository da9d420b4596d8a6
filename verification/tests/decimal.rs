use p2p::decimal::{format_port, parse_port};

#[test]
fn format_port_writes_shortest_decimal() {
    assert_eq!(format_port(0), b"0".to_vec());
    assert_eq!(format_port(7), b"7".to_vec());
    assert_eq!(format_port(10), b"10".to_vec());
    assert_eq!(format_port(1248), b"1248".to_vec());
    assert_eq!(format_port(65535), b"65535".to_vec());
}

#[test]
fn parse_port_accepts_what_u16_from_str_accepts() {
    assert_eq!(parse_port(b"1248"), Some(1248));
    assert_eq!(parse_port(b"0"), Some(0));
    assert_eq!(parse_port(b"+80"), Some(80));
    assert_eq!(parse_port(b"007"), Some(7));
    assert_eq!(parse_port(b"65535"), Some(65535));
}

#[test]
fn parse_port_rejects_the_rest() {
    assert_eq!(parse_port(b""), None);
    assert_eq!(parse_port(b"+"), None);
    assert_eq!(parse_port(b"-1"), None);
    assert_eq!(parse_port(b"65536"), None);
    assert_eq!(parse_port(b"99999999999"), None);
    assert_eq!(parse_port(b"12a"), None);
    assert_eq!(parse_port(b" 12"), None);
    assert_eq!(parse_port(b"++1"), None);
}

#[test]
fn parse_port_agrees_with_std_parse() {
    let samples: [&str; 12] = ["", "+", "0", "+0", "00012", "65535", "65536", "-0", "1a", "99999", "3000", "+65535"];
    for s in samples.iter() {
        assert_eq!(parse_port(s.as_bytes()), s.parse::<u16>().ok(), "on {:?}", s);
    }
}

#[test]
fn port_text_round_trips() {
    for port in [0u16, 1, 9, 10, 99, 100, 1248, 8080, 65534, 65535] {
        assert_eq!(parse_port(&format_port(port)), Some(port));
        assert_eq!(format_port(port), port.to_string().into_bytes());
    }
}
