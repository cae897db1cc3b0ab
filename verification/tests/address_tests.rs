use telemetry::address::{address_key, locate_key, parse_ipv4, peer_address, LOOPBACK};

#[test]
fn peer_address_is_what_stands_before_the_port() {
    assert_eq!(peer_address(Some(b"203.0.113.7:4321")), b"203.0.113.7".to_vec());
    assert_eq!(peer_address(Some(b"10.0.0.1")), b"10.0.0.1".to_vec());
    assert_eq!(peer_address(Some(b"host:1:2")), b"host".to_vec());
    assert_eq!(peer_address(Some(b"host:")), b"host".to_vec());
}

#[test]
fn missing_source_address_gives_loopback() {
    assert_eq!(peer_address(None), b"127.0.0.1".to_vec());
    assert_eq!(peer_address(Some(b"")), b"127.0.0.1".to_vec());
}

#[test]
fn source_address_that_starts_with_a_colon_has_an_empty_peer() {
    assert_eq!(peer_address(Some(b":8080")), Vec::<u8>::new());
    assert_eq!(peer_address(Some(b"::1")), Vec::<u8>::new());
}

#[test]
fn dotted_decimal_is_parsed() {
    assert_eq!(parse_ipv4(b"203.0.113.7"), Some(0xcb00_7107));
    assert_eq!(parse_ipv4(b"0.0.0.0"), Some(0));
    assert_eq!(parse_ipv4(b"255.255.255.255"), Some(u32::MAX));
    assert_eq!(parse_ipv4(b"127.0.0.1"), Some(LOOPBACK));
    assert_eq!(parse_ipv4(b"1.2.3.4"), Some(0x0102_0304));
}

#[test]
fn leading_zeros_do_not_change_the_address() {
    assert_eq!(parse_ipv4(b"001.02.3.004"), Some(0x0102_0304));
    assert_eq!(parse_ipv4(b"127.000.000.001"), Some(LOOPBACK));
}

#[test]
fn what_is_not_an_address_is_refused() {
    assert_eq!(parse_ipv4(b""), None);
    assert_eq!(parse_ipv4(b"1.2.3"), None);
    assert_eq!(parse_ipv4(b"1.2.3.4.5"), None);
    assert_eq!(parse_ipv4(b"1.2.3.4."), None);
    assert_eq!(parse_ipv4(b".1.2.3.4"), None);
    assert_eq!(parse_ipv4(b"1..3.4"), None);
    assert_eq!(parse_ipv4(b"256.1.1.1"), None);
    assert_eq!(parse_ipv4(b"1.1.1.256"), None);
    assert_eq!(parse_ipv4(b"1.1.1.999"), None);
    assert_eq!(parse_ipv4(b"1.1.1.0001"), None);
    assert_eq!(parse_ipv4(b"1.2.3.4:80"), None);
    assert_eq!(parse_ipv4(b"1.2.3.a"), None);
    assert_eq!(parse_ipv4(b" 1.2.3.4"), None);
    assert_eq!(parse_ipv4(b"localhost"), None);
}

#[test]
fn cache_key_falls_back_to_loopback() {
    assert_eq!(address_key(b"203.0.113.7"), 0xcb00_7107);
    assert_eq!(address_key(b"example.org"), LOOPBACK);
    assert_eq!(address_key(b""), LOOPBACK);
    assert_eq!(LOOPBACK, 0x7f00_0001);
}

#[test]
fn cache_key_of_a_connection() {
    assert_eq!(locate_key(Some(b"203.0.113.7:4321")), 0xcb00_7107);
    assert_eq!(locate_key(Some(b"198.51.100.20")), 0xc633_6414);
    assert_eq!(locate_key(None), LOOPBACK);
    assert_eq!(locate_key(Some(b"")), LOOPBACK);
    assert_eq!(locate_key(Some(b":8080")), LOOPBACK);
    assert_eq!(locate_key(Some(b"[::1]:8080")), LOOPBACK);
}
