//! How processing a file can end, and the exit code of each outcome.

use vstd::prelude::*;

verus! {

/// Exit code: the file was processed.
pub const PHNX_OK: i32 = 0;

/// Exit code: a file could not be opened, read, written or renamed.
pub const PHNX_IO_ERROR: i32 = 1;

/// Exit code: the trailer does not open under the key.
pub const PHNX_WRONG_PASSWORD: i32 = 2;

/// Exit code: a codeword could not be corrected, or too many slices are
/// missing.
pub const PHNX_UNCORRECTABLE_ERROR: i32 = 3;

/// Exit code: the file is too short for a trailer, or a checksum does not
/// match.
pub const PHNX_FORMAT_ERROR: i32 = 4;

/// Exit code: a self-test failed.
pub const PHNX_SELF_TEST_FAILED: i32 = 5;

/// Why a file could not be processed.
#[derive(Clone, Copy, PartialEq, Eq, Structural, Debug)]
pub enum Failure {
    /// A file could not be read or written, or a slice is too short.
    Io,
    /// The two halves of the trailer's first word disagree.
    WrongPassword,
    /// A codeword could not be corrected, or more than one slice is missing.
    Uncorrectable,
    /// The file is too short for a trailer, or a checksum does not match.
    Format,
}

/// The exit code of an outcome.
pub open spec fn code_of(outcome: Option<Failure>) -> i32 {
    match outcome {
        None => PHNX_OK,
        Some(Failure::Io) => PHNX_IO_ERROR,
        Some(Failure::WrongPassword) => PHNX_WRONG_PASSWORD,
        Some(Failure::Uncorrectable) => PHNX_UNCORRECTABLE_ERROR,
        Some(Failure::Format) => PHNX_FORMAT_ERROR,
    }
}

/// Gives the exit code of an outcome.
pub fn exit_code(outcome: Option<Failure>) -> (code: i32)
    ensures
        code == code_of(outcome),
{
    match outcome {
        None => PHNX_OK,
        Some(Failure::Io) => PHNX_IO_ERROR,
        Some(Failure::WrongPassword) => PHNX_WRONG_PASSWORD,
        Some(Failure::Uncorrectable) => PHNX_UNCORRECTABLE_ERROR,
        Some(Failure::Format) => PHNX_FORMAT_ERROR,
    }
}

/// The nonce of a file of `length` bytes, given a fresh random number.
pub open spec fn nonce_of(length: u64, random: u64) -> u64 {
    length ^ random
}

/// Mixes the length of a file with a fresh random number into its nonce.
pub fn mix_nonce(length: u64, random: u64) -> (nonce: u64)
    ensures
        nonce == nonce_of(length, random),
{
    length ^ random
}

} // verus!
