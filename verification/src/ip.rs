//! The address codec: decoding the kernel's hexadecimal `ADDR:PORT`
//! token into an IP address and a numeric port.

use crate::bytes::all_base_digits;
use crate::bytes::digit_value;
use crate::bytes::find_byte;
use crate::bytes::hex_decode;
use crate::bytes::lemma_find_byte;
use crate::bytes::parse_uint;
use crate::bytes::spec_find_byte;
use crate::bytes::spec_hex_decode;
use crate::bytes::spec_parse_uint;
use crate::bytes::subvec;
use crate::error::ScanError;
use vstd::prelude::*;

verus! {

/// The `:` separator between the address half and the port half.
pub const COLON: u8 = 58;

/// An IP address held as its raw octets: 4 of them for version 4, 16 for
/// version 6, in the order the kernel writes them.
#[derive(Debug, PartialEq, Eq)]
pub struct IpAddress {
    pub octets: Vec<u8>,
}

impl IpAddress {
    pub open spec fn well_formed(&self) -> bool {
        self.octets@.len() == 4 || self.octets@.len() == 16
    }

    pub open spec fn is_v4(&self) -> bool {
        self.octets@.len() == 4
    }
}

/// The parse of an `ADDR:PORT` token. The token splits at its first `:`;
/// the port half is the whole remainder. An address half of 8 hex
/// characters decodes to the 4 octets it spells, one of 32 to 16 octets;
/// any other length is unsupported. The port half is a base-16 unsigned
/// 16-bit integer.
pub open spec fn spec_parse_address_port(token: Seq<u8>) -> Result<(Seq<u8>, u16), ScanError> {
    match spec_find_byte(token, COLON) {
        None => Err(ScanError::MalformedToken),
        Some(k) => {
            let addr = token.take(k);
            let port_str = token.skip(k + 1);
            if addr.len() != 8 && addr.len() != 32 {
                Err(ScanError::UnsupportedAddressLength)
            } else if !all_base_digits(addr, 16) {
                Err(ScanError::MalformedToken)
            } else {
                match spec_parse_uint(port_str, 16, 0xFFFF) {
                    Some(p) => Ok((spec_hex_decode(addr), p as u16)),
                    None => Err(ScanError::MalformedPort),
                }
            }
        },
    }
}

/// Decodes an `ADDR:PORT` token. On success the returned address holds
/// exactly the octets that the spec-level parse gives, and the port its
/// value; on failure the error is the one the spec-level parse gives.
pub fn parse_address_port(token: &Vec<u8>) -> (r: Result<(IpAddress, u16), ScanError>)
    ensures
        r matches Ok(ap) ==> ap.0.well_formed() && spec_parse_address_port(token@) == Ok::<
            (Seq<u8>, u16),
            ScanError,
        >((ap.0.octets@, ap.1)),
        r matches Err(e) ==> spec_parse_address_port(token@) == Err::<
            (Seq<u8>, u16),
            ScanError,
        >(e),
{
    let k = match find_byte(token, COLON) {
        Some(k) => k,
        None => {
            return Err(ScanError::MalformedToken);
        },
    };
    proof {
        lemma_find_byte(token@, COLON);
    }
    let n = token.len();
    let addr = subvec(token, 0, k);
    let port_str = subvec(token, k + 1, n);
    if addr.len() != 8 && addr.len() != 32 {
        return Err(ScanError::UnsupportedAddressLength);
    }
    let octets = match hex_decode(&addr) {
        Some(o) => o,
        None => {
            return Err(ScanError::MalformedToken);
        },
    };
    let port = match parse_uint(&port_str, 16, 0xFFFF) {
        Some(p) => p as u16,
        None => {
            return Err(ScanError::MalformedPort);
        },
    };
    Ok((IpAddress { octets }, port))
}

/// Decoding law: when a token parses to a version-4 address, the address
/// half is exactly the first 8 characters of the token, and each octet is
/// the value of its pair of hex digits, in the order they appear.
pub proof fn lemma_ipv4_octets_follow_hex_pairs(token: Seq<u8>, octets: Seq<u8>, port: u16)
    requires
        spec_parse_address_port(token) == Ok::<(Seq<u8>, u16), ScanError>((octets, port)),
        octets.len() == 4,
    ensures
        spec_find_byte(token, COLON) == Some(8int),
        forall|i: int|
            0 <= i < 4 ==> octets[i] == (digit_value(token[2 * i]) * 16 + digit_value(
                token[2 * i + 1],
            )) as u8,
{
    let k = spec_find_byte(token, COLON).unwrap();
    lemma_find_byte(token, COLON);
    let addr = token.take(k);
    assert(octets == spec_hex_decode(addr));
    assert(addr.len() == 8) by {
        if addr.len() == 32 {
            assert(spec_hex_decode(addr).len() == 16);
        }
    }
    assert(forall|i: int| 0 <= i < 8 ==> addr[i] == token[i]);
}

/// Length law: a token with both halves whose address half is neither 8
/// nor 32 characters long always fails as an unsupported address length.
pub proof fn lemma_unsupported_address_length(token: Seq<u8>, k: int)
    requires
        spec_find_byte(token, COLON) == Some(k),
        token.take(k).len() != 8,
        token.take(k).len() != 32,
    ensures
        spec_parse_address_port(token) == Err::<(Seq<u8>, u16), ScanError>(
            ScanError::UnsupportedAddressLength,
        ),
{
}

} // verus!
