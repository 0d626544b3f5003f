use openports::error::ScanError;
use openports::ip::parse_address_port;

fn bytes_of(s: &str) -> Vec<u8> {
    s.as_bytes().to_vec()
}

#[test]
fn parses_hex_address_port_pairs() {
    // "0100007F:1F90" spells the address 1.0.0.127 and port 8080
    let (addr, port) = parse_address_port(&bytes_of("0100007F:1F90")).unwrap();
    assert_eq!(addr.octets, vec![1, 0, 0, 127]);
    assert_eq!(port, 8080);

    // "0800A8C0:CFE6" spells the address 8.0.168.192 and port 53222
    let (addr, port) = parse_address_port(&bytes_of("0800A8C0:CFE6")).unwrap();
    assert_eq!(addr.octets, vec![8, 0, 168, 192]);
    assert_eq!(port, 53222);
}

#[test]
fn parses_v6_token() {
    let (addr, port) = parse_address_port(&bytes_of("00000000000000000000000001000000:0050")).unwrap();
    let mut expected = vec![0u8; 16];
    expected[12] = 1;
    assert_eq!(addr.octets, expected);
    assert_eq!(port, 80);
}

#[test]
fn lowercase_hex_digits_are_accepted() {
    let (addr, port) = parse_address_port(&bytes_of("0800a8c0:cfe6")).unwrap();
    assert_eq!(addr.octets, vec![8, 0, 168, 192]);
    assert_eq!(port, 53222);
}

#[test]
fn second_colon_makes_the_port_malformed() {
    // the port half is the whole remainder after the first colon, and
    // "1F90:0BAD" is not a base-16 16-bit integer
    assert_eq!(
        parse_address_port(&bytes_of("0100007F:1F90:0BAD")),
        Err(ScanError::MalformedPort)
    );
}

#[test]
fn unsupported_address_lengths_fail() {
    for token in ["", "0100", "0100007:1F90", "0100007F0:1F90"] {
        let mut t = bytes_of(token);
        if !t.contains(&b':') {
            t.extend_from_slice(b":1F90");
        }
        assert_eq!(
            parse_address_port(&t),
            Err(ScanError::UnsupportedAddressLength),
            "token {token:?}"
        );
    }
    // 31 and 33 hex characters are not a v6 address either
    assert_eq!(
        parse_address_port(&bytes_of("0000000000000000000000000100000:0050")),
        Err(ScanError::UnsupportedAddressLength)
    );
    assert_eq!(
        parse_address_port(&bytes_of("000000000000000000000000010000000:0050")),
        Err(ScanError::UnsupportedAddressLength)
    );
}

#[test]
fn token_without_colon_is_malformed() {
    assert_eq!(
        parse_address_port(&bytes_of("0100007F")),
        Err(ScanError::MalformedToken)
    );
    assert_eq!(parse_address_port(&bytes_of("")), Err(ScanError::MalformedToken));
}

#[test]
fn non_hex_address_is_malformed() {
    assert_eq!(
        parse_address_port(&bytes_of("0100007G:1F90")),
        Err(ScanError::MalformedToken)
    );
}

#[test]
fn bad_ports_are_malformed() {
    assert_eq!(
        parse_address_port(&bytes_of("0100007F:")),
        Err(ScanError::MalformedPort)
    );
    assert_eq!(
        parse_address_port(&bytes_of("0100007F:XYZ")),
        Err(ScanError::MalformedPort)
    );
    // 0x10000 does not fit 16 bits
    assert_eq!(
        parse_address_port(&bytes_of("0100007F:10000")),
        Err(ScanError::MalformedPort)
    );
}
