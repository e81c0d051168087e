//! Encryption of files under a password, with forward error correction
//! across eight slices.
//!
//! A file is encrypted with a block cipher in counter mode and checked by a
//! CRC-32C of its cleartext. In protected form the encrypted bytes are
//! encoded, twelve at a time, with the extended Golay code and striped
//! over eight slices, so that the file survives the loss of any one slice
//! and up to three flipped bits in every group of 24 bytes. The modules go
//! from the primitives up to whole files; none of them touches a file.

pub mod compat;
pub mod crc32c;
pub mod ctr;
pub mod golay;
pub mod known_answer;
pub mod names;
pub mod process;
pub mod protect;
pub mod speck;
pub mod stripe;
pub mod trailer;
pub mod transfer;
