//! Inventory of TCP listening sockets, correlated with the processes that
//! own them.
//!
//! The library holds the verified core: decoding the kernel's hexadecimal
//! `ADDR:PORT` encoding, parsing the whitespace-delimited socket-table
//! format, recognising `socket:[<digits>]` descriptor targets, and joining
//! discovered descriptor inodes against the listening-socket snapshot.
//! All file and directory reading stays with the caller, which hands table
//! lines, directory-entry names and symlink targets in as plain byte
//! vectors and receives structured records back.

pub mod bytes;
pub mod correlate;
pub mod error;
pub mod inventory;
pub mod ip;
pub mod ports;
