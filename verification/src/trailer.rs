//! The trailer that follows an encrypted payload.
//!
//! A trailer carries the checksum of the cleartext, twice in one word, and
//! the nonce of the payload; in protected files it also carries the length
//! of the cleartext. Its words are xored with the keystream of the all-ones
//! nonce, taken from the all-ones counter downwards, and written as
//! little-endian bytes. A trailer opened under another key shows two
//! different halves in its first word.

use vstd::prelude::*;
use crate::ctr::word_byte;
use crate::speck::{bytes_to_uint64, encrypt_block, le_word, lemma_le_word_eight, speck_encrypt};

verus! {

/// Bytes of the trailer of a protected file.
pub const PROTECTED_TRAILER_BYTES: usize = 24;

/// Bytes of the trailer of a file encrypted in place.
pub const COMPAT_TRAILER_BYTES: usize = 16;

/// What a trailer carries.
#[derive(Clone, Copy, PartialEq, Eq, Structural, Debug)]
pub struct Trailer {
    /// CRC-32C of the cleartext.
    pub crc: u32,
    /// Nonce of the payload's keystream.
    pub nonce: u64,
    /// Length of the cleartext in bytes. Trailers of files encrypted in
    /// place carry no length; there it is zero.
    pub length: u64,
}

/// The eight little-endian bytes of `w`.
pub open spec fn word_bytes(w: u64) -> Seq<u8> {
    Seq::new(8, |i: int| word_byte(w, i))
}

/// The word that holds `crc` in both halves.
pub open spec fn twin(crc: u32) -> u64 {
    ((crc as u64) << 32) | (crc as u64)
}

/// Low half of `w`.
pub open spec fn low_half(w: u64) -> u32 {
    w as u32
}

/// High half of `w`.
pub open spec fn high_half(w: u64) -> u32 {
    (w >> 32) as u32
}

/// Keystream word `i` of the trailer: the two words of the block with
/// nonce and counter all ones, then the first word of the block whose
/// counter is one less.
pub open spec fn trailer_pad(schedule: Seq<u64>, i: int) -> u64 {
    if i < 2 {
        encrypt_block(seq![0xffff_ffff_ffff_ffff, 0xffff_ffff_ffff_ffff], schedule)[i]
    } else {
        encrypt_block(seq![0xffff_ffff_ffff_ffff, 0xffff_ffff_ffff_fffe], schedule)[0]
    }
}

/// The 24 bytes of a protected file's trailer.
pub open spec fn protected_trailer(t: Trailer, schedule: Seq<u64>) -> Seq<u8> {
    word_bytes(twin(t.crc) ^ trailer_pad(schedule, 0)) + word_bytes(
        t.nonce ^ trailer_pad(schedule, 1),
    ) + word_bytes(t.length ^ trailer_pad(schedule, 2))
}

/// The 16 bytes of the trailer of a file encrypted in place.
pub open spec fn compat_trailer(t: Trailer, schedule: Seq<u64>) -> Seq<u8> {
    word_bytes(twin(t.crc) ^ trailer_pad(schedule, 0)) + word_bytes(
        t.nonce ^ trailer_pad(schedule, 1),
    )
}

/// Word `i` of a trailer's bytes, with the keystream taken off.
pub open spec fn opened_word(bytes: Seq<u8>, schedule: Seq<u64>, i: int) -> u64 {
    le_word(bytes.subrange(8 * i, 8 * i + 8)) ^ trailer_pad(schedule, i)
}

/// Whether the first word of a trailer, opened under `schedule`, holds the
/// same value in both halves.
pub open spec fn halves_agree(bytes: Seq<u8>, schedule: Seq<u64>) -> bool {
    low_half(opened_word(bytes, schedule, 0)) == high_half(opened_word(bytes, schedule, 0))
}

/// What the 24 bytes of a protected file's trailer carry, or `None` where
/// the halves of the first word disagree.
pub open spec fn opened_protected(bytes: Seq<u8>, schedule: Seq<u64>) -> Option<Trailer> {
    if halves_agree(bytes, schedule) {
        Some(
            Trailer {
                crc: low_half(opened_word(bytes, schedule, 0)),
                nonce: opened_word(bytes, schedule, 1),
                length: opened_word(bytes, schedule, 2),
            },
        )
    } else {
        None
    }
}

/// What the 16 bytes of the trailer of a file encrypted in place carry, or
/// `None` where the halves of the first word disagree.
pub open spec fn opened_compat(bytes: Seq<u8>, schedule: Seq<u64>) -> Option<Trailer> {
    if halves_agree(bytes, schedule) {
        Some(
            Trailer {
                crc: low_half(opened_word(bytes, schedule, 0)),
                nonce: opened_word(bytes, schedule, 1),
                length: 0,
            },
        )
    } else {
        None
    }
}

/// The tag of a file that carries its checksums in its name: the low half
/// of the first word of the encrypted block made of both checksums and the
/// length.
pub open spec fn checksum_tag(before: u32, after: u32, length: u64, schedule: Seq<u64>) -> u32 {
    low_half(encrypt_block(seq![((before as u64) << 32) | (after as u64), length], schedule)[0])
}

proof fn lemma_join_bytes(w: u64)
    by (bit_vector)
    ensures
        0 | (((w >> 0) as u8) as u64) << 0 | (((w >> 8) as u8) as u64) << 8 | (((w >> 16) as u8) as u64)
            << 16 | (((w >> 24) as u8) as u64) << 24 | (((w >> 32) as u8) as u64) << 32 | (((w
            >> 40) as u8) as u64) << 40 | (((w >> 48) as u8) as u64) << 48 | (((w >> 56) as u8) as u64)
            << 56 == w,
{
}

proof fn lemma_word_facts(crc: u32, w: u64, k: u64)
    by (bit_vector)
    ensures
        (((crc as u64) << 32) | (crc as u64)) as u32 == crc,
        ((((crc as u64) << 32) | (crc as u64)) >> 32) as u32 == crc,
        (w ^ k) ^ k == w,
{
}

/// Reading the bytes of a word gives back the word.
pub proof fn lemma_le_word_of_word_bytes(w: u64)
    ensures
        le_word(word_bytes(w)) == w,
{
    lemma_le_word_eight(word_bytes(w));
    lemma_join_bytes(w);
}

/// A protected trailer, opened under the schedule that it was sealed
/// under, shows what was sealed.
pub proof fn lemma_open_sealed_protected(t: Trailer, schedule: Seq<u64>)
    ensures
        opened_protected(protected_trailer(t, schedule), schedule) == Some(t),
        protected_trailer(t, schedule).len() == PROTECTED_TRAILER_BYTES,
{
    let bytes = protected_trailer(t, schedule);
    let w0 = twin(t.crc) ^ trailer_pad(schedule, 0);
    let w1 = t.nonce ^ trailer_pad(schedule, 1);
    let w2 = t.length ^ trailer_pad(schedule, 2);
    assert(bytes.subrange(0, 8) =~= word_bytes(w0));
    assert(bytes.subrange(8, 16) =~= word_bytes(w1));
    assert(bytes.subrange(16, 24) =~= word_bytes(w2));
    lemma_le_word_of_word_bytes(w0);
    lemma_le_word_of_word_bytes(w1);
    lemma_le_word_of_word_bytes(w2);
    lemma_word_facts(t.crc, twin(t.crc), trailer_pad(schedule, 0));
    lemma_word_facts(t.crc, t.nonce, trailer_pad(schedule, 1));
    lemma_word_facts(t.crc, t.length, trailer_pad(schedule, 2));
}

/// The trailer of a file encrypted in place, opened under the schedule
/// that it was sealed under, shows the checksum and the nonce that were
/// sealed.
pub proof fn lemma_open_sealed_compat(t: Trailer, schedule: Seq<u64>)
    ensures
        opened_compat(compat_trailer(t, schedule), schedule) == Some(
            Trailer { crc: t.crc, nonce: t.nonce, length: 0 },
        ),
        compat_trailer(t, schedule).len() == COMPAT_TRAILER_BYTES,
{
    let bytes = compat_trailer(t, schedule);
    let w0 = twin(t.crc) ^ trailer_pad(schedule, 0);
    let w1 = t.nonce ^ trailer_pad(schedule, 1);
    assert(bytes.subrange(0, 8) =~= word_bytes(w0));
    assert(bytes.subrange(8, 16) =~= word_bytes(w1));
    lemma_le_word_of_word_bytes(w0);
    lemma_le_word_of_word_bytes(w1);
    lemma_word_facts(t.crc, twin(t.crc), trailer_pad(schedule, 0));
    lemma_word_facts(t.crc, t.nonce, trailer_pad(schedule, 1));
}

/// Whether a trailer sealed under `sealed` shows disagreeing halves when
/// opened under `opened`: the first keystream words of the two differ by a
/// word whose halves differ. For two schedules picked at random this fails
/// once in 2^32 times.
pub open spec fn pads_differ(sealed: Seq<u64>, opened: Seq<u64>) -> bool {
    low_half(trailer_pad(sealed, 0) ^ trailer_pad(opened, 0)) != high_half(
        trailer_pad(sealed, 0) ^ trailer_pad(opened, 0),
    )
}

proof fn lemma_halves_shifted(crc: u32, p: u64, q: u64)
    by (bit_vector)
    ensures
        ((((((crc as u64) << 32) | (crc as u64)) ^ p) ^ q) as u32 == ((((((crc as u64) << 32) | (
        crc as u64)) ^ p) ^ q) >> 32) as u32) == ((p ^ q) as u32 == ((p ^ q) >> 32) as u32),
{
}

/// A trailer sealed under one schedule and opened under another shows
/// agreeing halves only if the first keystream words of the two differ by
/// a word whose halves agree.
pub proof fn lemma_halves_under_other_schedule(
    bytes: Seq<u8>,
    t: Trailer,
    sealed: Seq<u64>,
    opened: Seq<u64>,
)
    requires
        bytes == protected_trailer(t, sealed) || bytes == compat_trailer(t, sealed),
    ensures
        halves_agree(bytes, opened) == !pads_differ(sealed, opened),
{
    let w0 = twin(t.crc) ^ trailer_pad(sealed, 0);
    assert(bytes.subrange(0, 8) =~= word_bytes(w0));
    lemma_le_word_of_word_bytes(w0);
    lemma_halves_shifted(t.crc, trailer_pad(sealed, 0), trailer_pad(opened, 0));
}

/// The three keystream words of the trailer.
fn trailer_pads(schedule: &[u64; 34]) -> (pads: [u64; 3])
    ensures
        forall|i: int| 0 <= i < 3 ==> pads[i] == trailer_pad(schedule@, i),
{
    let first: [u64; 2] = [0xffff_ffff_ffff_ffff, 0xffff_ffff_ffff_ffff];
    let second: [u64; 2] = [0xffff_ffff_ffff_ffff, 0xffff_ffff_ffff_fffe];
    assert(first@ =~= seq![0xffff_ffff_ffff_ffffu64, 0xffff_ffff_ffff_ffffu64]);
    assert(second@ =~= seq![0xffff_ffff_ffff_ffffu64, 0xffff_ffff_ffff_fffeu64]);
    let gamma1 = speck_encrypt(&first, schedule);
    let gamma2 = speck_encrypt(&second, schedule);
    [gamma1[0], gamma1[1], gamma2[0]]
}

/// Appends the eight little-endian bytes of `w` to `out`.
pub fn push_word(out: &mut Vec<u8>, w: u64)
    ensures
        final(out)@ == old(out)@ + word_bytes(w),
{
    let mut i: usize = 0;
    while i < 8
        invariant
            i <= 8,
            out@.len() == old(out)@.len() + i,
            forall|p: int| 0 <= p < old(out)@.len() ==> out@[p] == old(out)@[p],
            forall|p: int| 0 <= p < i ==> out@[old(out)@.len() + p] == word_byte(w, p),
        decreases 8 - i,
    {
        out.push((w >> ((i * 8) as u64)) as u8);
        i = i + 1;
    }
    assert(out@ =~= old(out)@ + word_bytes(w));
}

/// Seals the trailer of a protected file.
pub fn seal_protected_trailer(t: &Trailer, schedule: &[u64; 34]) -> (bytes: Vec<u8>)
    ensures
        bytes@ == protected_trailer(*t, schedule@),
        bytes@.len() == PROTECTED_TRAILER_BYTES,
{
    let pads = trailer_pads(schedule);
    let mut bytes: Vec<u8> = Vec::new();
    push_word(&mut bytes, ((t.crc as u64) << 32 | (t.crc as u64)) ^ pads[0]);
    push_word(&mut bytes, t.nonce ^ pads[1]);
    push_word(&mut bytes, t.length ^ pads[2]);
    bytes
}

/// Seals the trailer of a file encrypted in place.
pub fn seal_compat_trailer(t: &Trailer, schedule: &[u64; 34]) -> (bytes: Vec<u8>)
    ensures
        bytes@ == compat_trailer(*t, schedule@),
        bytes@.len() == COMPAT_TRAILER_BYTES,
{
    let pads = trailer_pads(schedule);
    let mut bytes: Vec<u8> = Vec::new();
    push_word(&mut bytes, ((t.crc as u64) << 32 | (t.crc as u64)) ^ pads[0]);
    push_word(&mut bytes, t.nonce ^ pads[1]);
    bytes
}

/// Opens the trailer of a protected file. `None` means that the halves of
/// the first word disagree: the key is not the one the file was sealed
/// under.
pub fn open_protected_trailer(bytes: &[u8], schedule: &[u64; 34]) -> (t: Option<Trailer>)
    requires
        bytes@.len() == PROTECTED_TRAILER_BYTES,
    ensures
        t == opened_protected(bytes@, schedule@),
{
    let pads = trailer_pads(schedule);
    let w0 = bytes_to_uint64(vstd::slice::slice_subrange(bytes, 0, 8)) ^ pads[0];
    let w1 = bytes_to_uint64(vstd::slice::slice_subrange(bytes, 8, 16)) ^ pads[1];
    let w2 = bytes_to_uint64(vstd::slice::slice_subrange(bytes, 16, 24)) ^ pads[2];
    let crc0: u32 = w0 as u32;
    let crc1: u32 = (w0 >> 32) as u32;
    if crc0 != crc1 {
        None
    } else {
        Some(Trailer { crc: crc0, nonce: w1, length: w2 })
    }
}

/// Opens the trailer of a file encrypted in place. `None` means that the
/// halves of the first word disagree.
pub fn open_compat_trailer(bytes: &[u8], schedule: &[u64; 34]) -> (t: Option<Trailer>)
    requires
        bytes@.len() == COMPAT_TRAILER_BYTES,
    ensures
        t == opened_compat(bytes@, schedule@),
{
    let pads = trailer_pads(schedule);
    let w0 = bytes_to_uint64(vstd::slice::slice_subrange(bytes, 0, 8)) ^ pads[0];
    let w1 = bytes_to_uint64(vstd::slice::slice_subrange(bytes, 8, 16)) ^ pads[1];
    let crc0: u32 = w0 as u32;
    let crc1: u32 = (w0 >> 32) as u32;
    if crc0 != crc1 {
        None
    } else {
        Some(Trailer { crc: crc0, nonce: w1, length: 0 })
    }
}

/// Computes the tag of a file that carries its checksums in its name.
pub fn compute_checksum_tag(before: u32, after: u32, length: u64, schedule: &[u64; 34]) -> (tag:
    u32)
    ensures
        tag == checksum_tag(before, after, length, schedule@),
{
    let input: [u64; 2] = [((before as u64) << 32) | (after as u64), length];
    assert(input@ =~= seq![((before as u64) << 32) | (after as u64), length]);
    let output = speck_encrypt(&input, schedule);
    output[0] as u32
}

} // verus!
