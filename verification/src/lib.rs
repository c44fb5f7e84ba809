//! Repair library for DDP (Disc Description Protocol) image folders whose
//! CDTEXT.BIN file carries a duplicated genre packet.
//!
//! The library works on file contents handed to it as plain byte vectors:
//! it removes the duplicated 18-byte packet from the CDTEXT.BIN bytes,
//! rewrites the six-digit CDTEXT size field inside the descriptor text, and
//! rewrites the digest lines of the `checksum.md5` manifest. All reading and
//! writing of actual files is left to the caller.

pub mod bytes;
pub mod descriptor;
pub mod digest;
pub mod manifest;
pub mod patch;
pub mod repair;
