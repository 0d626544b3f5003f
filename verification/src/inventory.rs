//! The process inventory's decisions: which registry entries name a live
//! process, and which descriptor symlink targets carry a socket inode.
//! Listing the registry and resolving the links stays with the caller,
//! which hands each name and each target in as plain bytes.

use crate::bytes::all_base_digits;
use crate::bytes::all_digits_in_base;
use crate::bytes::is_whitespace;
use crate::bytes::is_ws;
use crate::bytes::parse_uint;
use crate::bytes::spec_parse_uint;
use crate::bytes::subvec;
use crate::error::ScanError;
use vstd::prelude::*;

verus! {

/// The registry-entry filter: a name denotes a live process exactly when
/// it is a decimal number strictly greater than 1 that fits 32 bits.
pub open spec fn spec_pid_from_name(name: Seq<u8>) -> Option<u32> {
    match spec_parse_uint(name, 10, 0xFFFF_FFFF) {
        Some(v) => if v > 1 {
            Some(v as u32)
        } else {
            None
        },
        None => None,
    }
}

/// Reads a registry-entry name as a process identifier. The idle and
/// init identifiers 0 and 1, and every non-numeric name, yield nothing.
pub fn pid_from_name(name: &Vec<u8>) -> (r: Option<u32>)
    ensures
        r == spec_pid_from_name(name@),
{
    match parse_uint(name, 10, 0xFFFF_FFFF) {
        Some(v) => {
            if v > 1 {
                Some(v as u32)
            } else {
                None
            }
        },
        None => None,
    }
}

/// Identifier law: the filter never yields 0 or 1, nor anything below.
pub proof fn lemma_low_ids_excluded(name: Seq<u8>)
    ensures
        spec_pid_from_name(name) matches Some(p) ==> p > 1,
{
}

/// The fixed prefix of a socket descriptor target: `socket:[`.
pub open spec fn socket_prefix() -> Seq<u8> {
    seq![115u8, 111u8, 99u8, 107u8, 101u8, 116u8, 58u8, 91u8]
}

/// The shape of a socket descriptor target: `socket:[`, then at least
/// one decimal digit, then `]`.
pub open spec fn matches_socket_target(t: Seq<u8>) -> bool {
    t.len() >= 10 && t.take(8) == socket_prefix() && t.last() == 93 && all_base_digits(
        t.subrange(8, t.len() - 1),
        10,
    )
}

/// The inode a descriptor target carries: nothing for a target that is
/// not of the `socket:[<digits>]` shape, the digits' value when it fits
/// 32 bits, and an error when it does not.
pub open spec fn spec_inode_from_target(t: Seq<u8>) -> Result<Option<u32>, ScanError> {
    if matches_socket_target(t) {
        match spec_parse_uint(t.subrange(8, t.len() - 1), 10, 0xFFFF_FFFF) {
            Some(v) => Ok(Some(v as u32)),
            None => Err(ScanError::InodeDecodeError),
        }
    } else {
        Ok(None)
    }
}

/// Reads a descriptor symlink target. A target of the
/// `socket:[<digits>]` shape yields its inode, or the decode error when
/// the digits overflow 32 bits; any other target yields nothing.
pub fn inode_from_link_target(t: &Vec<u8>) -> (r: Result<Option<u32>, ScanError>)
    ensures
        r == spec_inode_from_target(t@),
{
    if t.len() < 10 {
        return Ok(None);
    }
    let prefix_ok = t[0] == 115 && t[1] == 111 && t[2] == 99 && t[3] == 107 && t[4] == 101
        && t[5] == 116 && t[6] == 58 && t[7] == 91;
    proof {
        if prefix_ok {
            assert(t@.take(8) =~= socket_prefix());
        } else {
            assert(t@.take(8) != socket_prefix()) by {
                if t@.take(8) == socket_prefix() {
                    assert(t@[0] == t@.take(8)[0]);
                    assert(t@[1] == t@.take(8)[1]);
                    assert(t@[2] == t@.take(8)[2]);
                    assert(t@[3] == t@.take(8)[3]);
                    assert(t@[4] == t@.take(8)[4]);
                    assert(t@[5] == t@.take(8)[5]);
                    assert(t@[6] == t@.take(8)[6]);
                    assert(t@[7] == t@.take(8)[7]);
                }
            }
        }
    }
    if !prefix_ok {
        return Ok(None);
    }
    let n = t.len();
    if t[n - 1] != 93 {
        return Ok(None);
    }
    let inner = subvec(t, 8, n - 1);
    if !all_digits_in_base(&inner, 10) {
        return Ok(None);
    }
    match parse_uint(&inner, 10, 0xFFFF_FFFF) {
        Some(v) => Ok(Some(v as u32)),
        None => Err(ScanError::InodeDecodeError),
    }
}

/// The length of `s` once its trailing whitespace is removed: the
/// shortest prefix that holds everything up to the last non-whitespace
/// character.
pub open spec fn spec_trimmed_len(s: Seq<u8>) -> int
    decreases s.len(),
{
    if s.len() == 0 {
        0
    } else if is_ws(s.last()) {
        spec_trimmed_len(s.drop_last())
    } else {
        s.len() as int
    }
}

/// Trims trailing whitespace, including the final newline, from a
/// command name read as raw bytes.
pub fn trim_trailing_whitespace(s: &Vec<u8>) -> (r: Vec<u8>)
    ensures
        r@ == s@.take(spec_trimmed_len(s@)),
{
    let mut end: usize = s.len();
    proof {
        assert(s@.take(s@.len() as int) =~= s@);
    }
    while end > 0 && is_whitespace(s[end - 1])
        invariant
            0 <= end <= s@.len(),
            spec_trimmed_len(s@) == spec_trimmed_len(s@.take(end as int)),
        decreases end,
    {
        proof {
            assert(s@.take(end as int).last() == s@[end - 1]);
            assert(s@.take(end as int).drop_last() =~= s@.take(end as int - 1));
        }
        end = end - 1;
    }
    proof {
        if end > 0 {
            assert(s@.take(end as int).last() == s@[end - 1]);
        }
        assert(spec_trimmed_len(s@.take(end as int)) == end);
    }
    subvec(s, 0, end)
}

/// Descriptor law: a target that is not of the `socket:[<digits>]`
/// shape produces no inode and no error.
pub proof fn lemma_non_socket_target_ignored(t: Seq<u8>)
    requires
        !matches_socket_target(t),
    ensures
        spec_inode_from_target(t) == Ok::<Option<u32>, ScanError>(None),
{
}

} // verus!
