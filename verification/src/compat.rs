//! Files encrypted in place: the cleartext xored with the keystream,
//! followed by a trailer of sixteen bytes; and files that carry a checksum
//! tag in their name instead of a trailer.

use vstd::prelude::*;
use crate::crc32c::crc32c;
use crate::ctr::{ctr_xor, lemma_ctr_xor_twice};
use crate::process::{mix_nonce, nonce_of, Failure};
use crate::trailer::{
    checksum_tag, compat_trailer, compute_checksum_tag, lemma_halves_under_other_schedule,
    lemma_open_sealed_compat, open_compat_trailer, opened_compat, pads_differ,
    seal_compat_trailer, Trailer, COMPAT_TRAILER_BYTES,
};
use crate::transfer::Transfer;

verus! {

/// The outcome of decrypting a payload whose trailer is `t` and whose
/// cleartext has the checksum `checksum`.
pub fn decrypt_verdict(t: &Trailer, checksum: u32) -> (failure: Option<Failure>)
    ensures
        failure == (if checksum != t.crc {
            Some(Failure::Format)
        } else {
            None
        }),
{
    if checksum != t.crc {
        Some(Failure::Format)
    } else {
        None
    }
}

/// The outcome of checking a file of `length` bytes against the tag
/// `expected`, given the checksums of what went into the cipher and of
/// what came out.
pub fn verify_verdict(
    expected: u32,
    before: u32,
    after: u32,
    length: u64,
    schedule: &[u64; 34],
) -> (failure: Option<Failure>)
    ensures
        failure == (if checksum_tag(before, after, length, schedule@) != expected {
            Some(Failure::Format)
        } else {
            None
        }),
{
    if compute_checksum_tag(before, after, length, schedule) != expected {
        Some(Failure::Format)
    } else {
        None
    }
}

/// Content and outcome of processing a file.
pub struct Processed {
    /// What the file holds afterwards.
    pub content: Vec<u8>,
    /// Why processing failed, if it did.
    pub failure: Option<Failure>,
}

/// A file encrypted in place: the cleartext xored with the keystream of
/// `nonce`, followed by the trailer.
pub open spec fn encrypted_file(plain: Seq<u8>, schedule: Seq<u64>, nonce: u64) -> Seq<u8> {
    ctr_xor(plain, schedule, nonce, 0) + compat_trailer(
        Trailer { crc: crc32c(plain), nonce, length: 0 },
        schedule,
    )
}

/// The last sixteen bytes of a file encrypted in place.
pub open spec fn compat_tail(data: Seq<u8>) -> Seq<u8> {
    data.subrange(data.len() - COMPAT_TRAILER_BYTES, data.len() as int)
}

/// What decrypting a file encrypted in place leaves in the file, and how
/// it ends. A file too short for a trailer, or whose trailer does not open,
/// is left alone. A file whose checksum does not match keeps its trailer.
pub open spec fn decrypted_file(data: Seq<u8>, schedule: Seq<u64>) -> (Seq<u8>, Option<Failure>) {
    if data.len() < COMPAT_TRAILER_BYTES {
        (data, Some(Failure::Format))
    } else {
        match opened_compat(compat_tail(data), schedule) {
            None => (data, Some(Failure::WrongPassword)),
            Some(t) => {
                let body = ctr_xor(
                    data.take(data.len() - COMPAT_TRAILER_BYTES),
                    schedule,
                    t.nonce,
                    0,
                );
                if crc32c(body) != t.crc {
                    (body + compat_tail(data), Some(Failure::Format))
                } else {
                    (body, None)
                }
            },
        }
    }
}

/// Takes `data` through a transfer through which nothing has gone yet, a
/// chunk at a time, and returns what comes out.
fn transfer_chunks(data: &[u8], transfer: &mut Transfer) -> (out: Vec<u8>)
    requires
        old(transfer).wf(),
        old(transfer).input() == Seq::<u8>::empty(),
        old(transfer).output() == Seq::<u8>::empty(),
        old(transfer).left() == data@.len(),
    ensures
        final(transfer).wf(),
        out@ == ctr_xor(data@, old(transfer).schedule(), old(transfer).nonce(), 0),
        final(transfer).input() == data@,
        final(transfer).output() == out@,
        final(transfer).schedule() == old(transfer).schedule(),
        final(transfer).nonce() == old(transfer).nonce(),
        final(transfer).left() == 0,
{
    let len: usize = data.len();
    let mut out: Vec<u8> = Vec::new();
    let mut done: usize = 0;
    assert(data@.take(0) =~= transfer.input());
    while done < len
        invariant
            done <= len,
            len == data@.len(),
            transfer.wf(),
            transfer.schedule() == old(transfer).schedule(),
            transfer.nonce() == old(transfer).nonce(),
            transfer.input() == data@.take(done as int),
            transfer.output() == out@,
            transfer.left() == len - done,
        decreases len - done,
    {
        let n: usize = transfer.next_len();
        let mut chunk = vstd::slice::slice_to_vec(vstd::slice::slice_subrange(data, done, done + n));
        assert(data@.take(done + n) =~= data@.take(done as int) + chunk@);
        transfer.apply(&mut chunk);
        out.append(&mut chunk);
        done = done + n;
    }
    proof {
        assert(data@.take(done as int) =~= data@);
        transfer.lemma_in_tune();
    }
    out
}

/// Gives the number of bytes before the trailer of a file of `length`
/// bytes that was encrypted in place, or `None` where the file is too
/// short to hold a trailer.
pub fn compat_body_length(length: u64) -> (body: Option<u64>)
    ensures
        body == (if length < COMPAT_TRAILER_BYTES {
            None
        } else {
            Some((length - COMPAT_TRAILER_BYTES) as u64)
        }),
{
    if length < COMPAT_TRAILER_BYTES as u64 {
        None
    } else {
        Some(length - COMPAT_TRAILER_BYTES as u64)
    }
}

/// Encrypts `plain` as a file encrypted in place.
pub fn encrypt_bytes(plain: &[u8], schedule: &[u64; 34], random: u64) -> (out: Vec<u8>)
    ensures
        out@ == encrypted_file(plain@, schedule@, nonce_of(plain@.len() as u64, random)),
{
    let nonce = mix_nonce(plain.len() as u64, random);
    let mut transfer = Transfer::new(schedule, nonce, plain.len() as u64);
    let mut out = transfer_chunks(plain, &mut transfer);
    let t = Trailer { crc: transfer.checksum_before(), nonce, length: 0 };
    let mut tail = seal_compat_trailer(&t, schedule);
    out.append(&mut tail);
    out
}

/// Decrypts a file encrypted in place.
pub fn decrypt_bytes(data: &[u8], schedule: &[u64; 34]) -> (out: Processed)
    ensures
        (out.content@, out.failure) == decrypted_file(data@, schedule@),
{
    let len: usize = data.len();
    let body_len: usize = match compat_body_length(len as u64) {
        None => {
            return Processed {
                content: vstd::slice::slice_to_vec(data),
                failure: Some(Failure::Format),
            };
        },
        Some(body_len) => body_len as usize,
    };
    let tail = vstd::slice::slice_subrange(data, body_len, len);
    match open_compat_trailer(tail, schedule) {
        None => Processed {
            content: vstd::slice::slice_to_vec(data),
            failure: Some(Failure::WrongPassword),
        },
        Some(t) => {
            let mut transfer = Transfer::new(schedule, t.nonce, body_len as u64);
            let body = vstd::slice::slice_subrange(data, 0, body_len);
            assert(body@ =~= data@.take(len - COMPAT_TRAILER_BYTES));
            let mut content = transfer_chunks(body, &mut transfer);
            let failure = decrypt_verdict(&t, transfer.checksum_after());
            if failure.is_some() {
                content.extend_from_slice(tail);
            }
            Processed { content, failure }
        },
    }
}

/// A file encrypted in place decrypts to its cleartext.
pub proof fn lemma_decrypt_encrypted(plain: Seq<u8>, schedule: Seq<u64>, nonce: u64)
    ensures
        decrypted_file(encrypted_file(plain, schedule, nonce), schedule) == (
            plain,
            None::<Failure>,
        ),
{
    let t = Trailer { crc: crc32c(plain), nonce, length: 0 };
    let data = encrypted_file(plain, schedule, nonce);
    lemma_open_sealed_compat(t, schedule);
    assert(compat_tail(data) =~= compat_trailer(t, schedule));
    assert(data.take(data.len() - COMPAT_TRAILER_BYTES) =~= ctr_xor(plain, schedule, nonce, 0));
    lemma_ctr_xor_twice(plain, schedule, nonce, 0);
}

/// What checking a file against the tag in its name leaves in the file,
/// and how it ends. The file is taken through the keystream whose nonce is
/// its length; the tag is made of the checksums of what went in and of what
/// came out, and of the length.
pub open spec fn verified_file(data: Seq<u8>, expected: u32, schedule: Seq<u64>) -> (
    Seq<u8>,
    Option<Failure>,
) {
    let length = data.len() as u64;
    let body = ctr_xor(data, schedule, length, 0);
    if checksum_tag(crc32c(data), crc32c(body), length, schedule) != expected {
        (body, Some(Failure::Format))
    } else {
        (body, None)
    }
}

/// Checks a file against the tag in its name.
pub fn verify_bytes(data: &[u8], expected: u32, schedule: &[u64; 34]) -> (out: Processed)
    ensures
        (out.content@, out.failure) == verified_file(data@, expected, schedule@),
{
    let length: u64 = data.len() as u64;
    let mut transfer = Transfer::new(schedule, length, length);
    let content = transfer_chunks(data, &mut transfer);
    let failure = verify_verdict(
        expected,
        transfer.checksum_before(),
        transfer.checksum_after(),
        length,
        schedule,
    );
    Processed { content, failure }
}

/// A file encrypted in place under one key and decrypted under another is
/// left alone, and the outcome is a wrong password.
pub proof fn lemma_decrypt_other_key(
    plain: Seq<u8>,
    sealed: Seq<u64>,
    opened: Seq<u64>,
    nonce: u64,
)
    requires
        pads_differ(sealed, opened),
    ensures
        decrypted_file(encrypted_file(plain, sealed, nonce), opened) == (
            encrypted_file(plain, sealed, nonce),
            Some(Failure::WrongPassword),
        ),
{
    let t = Trailer { crc: crc32c(plain), nonce, length: 0 };
    let data = encrypted_file(plain, sealed, nonce);
    lemma_open_sealed_compat(t, sealed);
    assert(compat_tail(data) =~= compat_trailer(t, sealed));
    lemma_halves_under_other_schedule(compat_tail(data), t, sealed, opened);
}

} // verus!
