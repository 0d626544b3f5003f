use vstd::prelude::*;

verus! {

/// The failures that abort a scan. Codec failures and table failures are
/// fatal because the kernel-written table files are assumed well formed;
/// a descriptor target whose digits do not fit a 32-bit inode is fatal
/// for the same reason.
#[derive(Clone, Copy, Debug, PartialEq, Eq, Structural)]
pub enum ScanError {
    /// An `ADDR:PORT` token is missing one of its halves, or its address
    /// half holds a character that is not a hexadecimal digit.
    MalformedToken,
    /// The address half of a token is neither 8 nor 32 hexadecimal
    /// characters long.
    UnsupportedAddressLength,
    /// The port half of a token is not a base-16 unsigned 16-bit integer.
    MalformedPort,
    /// A kept table row is missing its inode field, or that field is not
    /// a decimal unsigned 32-bit integer.
    TableParseError,
    /// A `socket:[<digits>]` target whose digits do not parse as an
    /// unsigned 32-bit inode.
    InodeDecodeError,
}

} // verus!
