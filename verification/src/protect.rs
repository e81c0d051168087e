//! Protected files: the cleartext xored with the keystream, followed by a
//! trailer of 24 bytes, encoded block by block and striped over eight
//! slices, of which any one may be lost.

use vstd::prelude::*;
use crate::crc32c::crc32c;
use crate::ctr::{ctr_xor, lemma_ctr_xor_twice};
use crate::golay::GolayCode;
use crate::process::{mix_nonce, nonce_of, Failure};
use crate::stripe::{
    bits_differing, corrected_in, decode_chunk, decoded_bytes, empty_parts, encode_chunk,
    encoded_parts,
    failed_in, group_at, group_close, groups_for, lemma_close_three_flips, lemma_cover_less,
    lemma_decode_encoded, lemma_decode_one_missing, lemma_decoded_bytes_close,
    lemma_decoded_window, lemma_group_at_encoded, lemma_no_errors, lemma_slice_part_concat,
    padded_block, errors_in, lemma_corrections_in,
    part_len, parts_close, parts_cover, parts_cover_len, parts_view, slice_part, window,
};
use crate::trailer::{
    lemma_halves_under_other_schedule, lemma_open_sealed_protected, open_protected_trailer,
    opened_protected, pads_differ, protected_trailer, seal_protected_trailer, Trailer,
    PROTECTED_TRAILER_BYTES,
};
use crate::transfer::{chunk_len, Transfer};

verus! {

/// Bytes of a slice that belong to the trailer: two groups of three.
pub const SLICE_TRAILER_BYTES: usize = 6;

/// What the decoder counted on the way of a file out of its slices.
#[derive(Clone, Copy, PartialEq, Eq, Structural, Debug)]
pub struct Tally {
    /// Number of codewords decoded.
    pub processed: u64,
    /// Number of codewords in which an error was found and corrected.
    pub corrected: u64,
    /// Number of codewords that could not be corrected.
    pub uncorrectable: u64,
}

/// The trailer of the protected form of `plain`.
pub open spec fn trailer_of(plain: Seq<u8>, nonce: u64) -> Trailer {
    Trailer { crc: crc32c(plain), nonce, length: plain.len() as u64 }
}

/// Slice `k` of the protected form of `plain`: its share of the encrypted
/// cleartext, followed by its share of the trailer.
pub open spec fn protected_slice(plain: Seq<u8>, schedule: Seq<u64>, nonce: u64, k: int) -> Seq<
    u8,
> {
    slice_part(ctr_xor(plain, schedule, nonce, 0), k) + slice_part(
        protected_trailer(trailer_of(plain, nonce), schedule),
        k,
    )
}

/// Every slice of a protected file holds three bytes for each block of the
/// cleartext and six for the trailer.
pub proof fn lemma_protected_slice_len(plain: Seq<u8>, schedule: Seq<u64>, nonce: u64, k: int)
    ensures
        protected_slice(plain, schedule, nonce, k).len() == 3 * (groups_for(plain.len() as int)
            + 2),
{
    lemma_open_sealed_protected(trailer_of(plain, nonce), schedule);
}

/// The eight slices of the protected form of `plain`, all there.
pub open spec fn protected_slices(plain: Seq<u8>, schedule: Seq<u64>, nonce: u64) -> Seq<
    Option<Seq<u8>>,
> {
    Seq::new(8, |k: int| Some(protected_slice(plain, schedule, nonce, k)))
}

/// Number of slices among the first `n` that are missing.
pub open spec fn missing_among(parts: Seq<Option<Seq<u8>>>, n: nat) -> nat
    decreases n,
{
    if n == 0 {
        0
    } else {
        missing_among(parts, (n - 1) as nat) + (if parts[n - 1] is None {
            1nat
        } else {
            0nat
        })
    }
}

/// The last six bytes of every slice that is there.
pub open spec fn tail_parts(parts: Seq<Option<Seq<u8>>>) -> Seq<Option<Seq<u8>>> {
    Seq::new(
        parts.len(),
        |k: int|
            match parts[k] {
                Some(bytes) => Some(
                    bytes.subrange(bytes.len() - SLICE_TRAILER_BYTES, bytes.len() as int),
                ),
                None => None,
            },
    )
}

/// Number of bytes of cleartext that a trailer announces. A length with
/// the top bit set announces none.
pub open spec fn body_length(t: Trailer) -> int {
    if t.length <= 0x7fff_ffff_ffff_ffff {
        t.length as int
    } else {
        0
    }
}

/// Gives the number of bytes of cleartext that a trailer announces.
pub fn payload_length(t: &Trailer) -> (len: u64)
    ensures
        len == body_length(*t),
{
    if t.length <= 0x7fff_ffff_ffff_ffff {
        t.length
    } else {
        0
    }
}

/// What recovering a file from its slices yields, and how it ends.
///
/// With more than one slice missing nothing is read. With a slice too
/// short for a trailer, a trailer that does not open, or a slice too short
/// for the length that the trailer announces, nothing is yielded. After
/// that the cleartext is yielded even where a codeword, of the trailer or
/// of the payload, could not be corrected, or where its checksum does not
/// match. A codeword that could not be corrected makes the outcome
/// uncorrectable, whatever the checksum: the plane of such a codeword is
/// filled with ones, so that the checksum as a rule does not match
/// either.
pub open spec fn recovered_file(parts: Seq<Option<Seq<u8>>>, schedule: Seq<u64>) -> (
    Seq<u8>,
    Option<Failure>,
) {
    if missing_among(parts, 8) > 1 {
        (Seq::empty(), Some(Failure::Uncorrectable))
    } else if !parts_cover(parts, 24) {
        (Seq::empty(), Some(Failure::Io))
    } else {
        match opened_protected(decoded_bytes(tail_parts(parts), 24), schedule) {
            None => (Seq::empty(), Some(Failure::WrongPassword)),
            Some(t) => {
                let len = body_length(t);
                if !parts_cover(parts, len) {
                    (Seq::empty(), Some(Failure::Io))
                } else {
                    let body = ctr_xor(decoded_bytes(parts, len), schedule, t.nonce, 0);
                    if failed_in(tail_parts(parts), 2) + failed_in(
                        parts,
                        groups_for(len) as nat,
                    ) > 0 {
                        (body, Some(Failure::Uncorrectable))
                    } else if crc32c(body) != t.crc {
                        (body, Some(Failure::Format))
                    } else {
                        (body, None)
                    }
                }
            },
        }
    }
}

/// Number of groups that recovering a file counts: none where the trailer
/// does not open, the two of the trailer where it does, and those of the
/// payload besides where the slices hold it.
pub open spec fn recovered_groups(parts: Seq<Option<Seq<u8>>>, schedule: Seq<u64>) -> (nat, nat) {
    if missing_among(parts, 8) > 1 || !parts_cover(parts, 24) {
        (0, 0)
    } else {
        match opened_protected(decoded_bytes(tail_parts(parts), 24), schedule) {
            None => (0, 0),
            Some(t) => if parts_cover(parts, body_length(t)) {
                (2, groups_for(body_length(t)) as nat)
            } else {
                (2, 0)
            },
        }
    }
}

/// The decoder's counters after recovering a file: codewords processed,
/// corrected and not corrected, in the trailer and in the payload.
pub open spec fn recovered_counts(parts: Seq<Option<Seq<u8>>>, schedule: Seq<u64>) -> (
    nat,
    nat,
    nat,
) {
    let groups = recovered_groups(parts, schedule);
    (
        8 * groups.0 + 8 * groups.1,
        corrected_in(tail_parts(parts), groups.0) + corrected_in(parts, groups.1),
        failed_in(tail_parts(parts), groups.0) + failed_in(parts, groups.1),
    )
}

/// The outcome where `missing` slices are missing: more than one cannot be
/// made up for.
pub fn check_missing(missing: usize) -> (failure: Option<Failure>)
    ensures
        failure == (if missing > 1 {
            Some(Failure::Uncorrectable)
        } else {
            None
        }),
{
    if missing > 1 {
        Some(Failure::Uncorrectable)
    } else {
        None
    }
}

/// The outcome of recovering a payload whose trailer is `t`, whose
/// cleartext has the checksum `checksum`, and on whose way the decoder
/// counted `counts`. A codeword that was not corrected goes before a
/// checksum that does not match.
pub fn recover_verdict(t: &Trailer, checksum: u32, counts: &Tally) -> (failure: Option<Failure>)
    ensures
        failure == (if counts.uncorrectable != 0 {
            Some(Failure::Uncorrectable)
        } else if checksum != t.crc {
            Some(Failure::Format)
        } else {
            None
        }),
{
    if counts.uncorrectable != 0 {
        Some(Failure::Uncorrectable)
    } else if checksum != t.crc {
        Some(Failure::Format)
    } else {
        None
    }
}

/// Counts the slices that are missing.
pub fn count_missing(parts: &[Option<Vec<u8>>; 8]) -> (n: usize)
    ensures
        n == missing_among(parts_view(parts@), 8),
        n <= 8,
{
    let mut n: usize = 0;
    let mut k: usize = 0;
    while k < 8
        invariant
            k <= 8,
            n <= k,
            n == missing_among(parts_view(parts@), k as nat),
        decreases 8 - k,
    {
        match &parts[k] {
            Some(_) => {},
            None => {
                n = n + 1;
            },
        }
        k = k + 1;
    }
    n
}

/// The last six bytes of every slice that is there. Every such slice has
/// to hold at least six bytes.
pub fn take_tails(parts: &[Option<Vec<u8>>; 8]) -> (tails: [Option<Vec<u8>>; 8])
    requires
        parts_cover(parts_view(parts@), 24),
    ensures
        parts_view(tails@) == tail_parts(parts_view(parts@)),
{
    let mut tails: [Option<Vec<u8>>; 8] = [None, None, None, None, None, None, None, None];
    let mut k: usize = 0;
    while k < 8
        invariant
            k <= 8,
            parts_cover(parts_view(parts@), 24),
            forall|q: int|
                0 <= q < k ==> parts_view(tails@)[q] == tail_parts(parts_view(parts@))[q],
        decreases 8 - k,
    {
        let ghost before = tails@;
        match &parts[k] {
            Some(bytes) => {
                assert(parts_view(parts@)[k as int] == Some(bytes@));
                let len: usize = bytes.len();
                let tail = vstd::slice::slice_to_vec(
                    vstd::slice::slice_subrange(bytes.as_slice(), len - 6, len),
                );
                tails[k] = Some(tail);
            },
            None => {
                tails[k] = None;
            },
        }
        assert forall|q: int| 0 <= q < k + 1 implies parts_view(tails@)[q] == tail_parts(
            parts_view(parts@),
        )[q] by {
            if q < k {
                assert(tails@[q] == before[q]);
                assert(parts_view(before)[q] == tail_parts(parts_view(parts@))[q]);
            }
        }
        k = k + 1;
    }
    assert(parts_view(tails@) =~= tail_parts(parts_view(parts@)));
    tails
}

/// The way of a cleartext into eight slices, a chunk at a time.
pub struct Protector {
    transfer: Transfer,
    length: u64,
}

impl Protector {
    /// What holds of every protector: its transfer is well formed, and what
    /// went in and what is still to come make up the length that the
    /// trailer will announce.
    pub closed spec fn wf(&self) -> bool {
        &&& self.transfer.wf()
        &&& self.transfer.input().len() + self.transfer.left() == self.length
    }

    /// The cleartext that went in so far.
    pub closed spec fn plain(&self) -> Seq<u8> {
        self.transfer.input()
    }

    /// The round keys of the cipher.
    pub closed spec fn schedule(&self) -> Seq<u64> {
        self.transfer.schedule()
    }

    /// The nonce of the keystream.
    pub closed spec fn nonce(&self) -> u64 {
        self.transfer.nonce()
    }

    /// The number of bytes of cleartext still to come.
    pub closed spec fn left(&self) -> u64 {
        self.transfer.left()
    }

    /// What was handed out for slice `k` so far: its share of the
    /// encrypted cleartext.
    pub open spec fn written(&self, k: int) -> Seq<u8> {
        slice_part(ctr_xor(self.plain(), self.schedule(), self.nonce(), 0), k)
    }

    /// A protector for a cleartext of `length` bytes, whose nonce mixes the
    /// length with the random number.
    pub fn new(schedule: &[u64; 34], length: u64, random: u64) -> (p: Self)
        ensures
            p.wf(),
            p.plain() == Seq::<u8>::empty(),
            p.schedule() == schedule@,
            p.nonce() == nonce_of(length, random),
            p.left() == length,
    {
        Protector { transfer: Transfer::new(schedule, mix_nonce(length, random), length), length }
    }

    /// Gives the number of bytes of cleartext still to come.
    pub fn remaining(&self) -> (n: u64)
        ensures
            n == self.left(),
    {
        self.transfer.remaining()
    }

    /// Gives the number of bytes that the next chunk has to hold.
    pub fn next_len(&self) -> (len: usize)
        ensures
            len == chunk_len(self.left()),
    {
        self.transfer.next_len()
    }

    /// Takes the next chunk of cleartext and hands out what each slice
    /// receives for it.
    pub fn feed(&mut self, chunk: &[u8]) -> (parts: [Vec<u8>; 8])
        requires
            old(self).wf(),
            chunk@.len() == chunk_len(old(self).left()),
        ensures
            final(self).wf(),
            final(self).plain() == old(self).plain() + chunk@,
            final(self).schedule() == old(self).schedule(),
            final(self).nonce() == old(self).nonce(),
            final(self).left() == old(self).left() - chunk@.len(),
            forall|k: int|
                0 <= k < 8 ==> final(self).written(k) == old(self).written(k) + (
                #[trigger] parts[k])@,
    {
        let gc = GolayCode::new();
        let mut parts = empty_parts();
        let mut buffer = vstd::slice::slice_to_vec(chunk);
        proof {
            self.transfer.lemma_in_tune();
        }
        self.transfer.apply(&mut buffer);
        encode_chunk(buffer.as_slice(), &mut parts, &gc);
        proof {
            self.transfer.lemma_in_tune();
            let before = old(self).transfer.output();
            assert forall|k: int| 0 <= k < 8 implies self.written(k) == old(self).written(k) + (
            #[trigger] parts[k])@ by {
                assert(parts[k]@ =~= slice_part(buffer@, k));
                if old(self).left() > 0 {
                    lemma_slice_part_concat(before, buffer@, k);
                } else {
                    assert(before + buffer@ =~= before);
                    assert(slice_part(buffer@, k) =~= Seq::<u8>::empty());
                    assert(old(self).written(k) + parts[k]@ =~= old(self).written(k));
                }
            }
        }
        parts
    }

    /// Hands out what each slice receives for the trailer, once all of the
    /// cleartext went in. With it, each slice holds what it holds of the
    /// protected file.
    pub fn finish(&self) -> (parts: [Vec<u8>; 8])
        requires
            self.wf(),
            self.left() == 0,
        ensures
            forall|k: int|
                0 <= k < 8 ==> self.written(k) + (#[trigger] parts[k])@ == protected_slice(
                    self.plain(),
                    self.schedule(),
                    self.nonce(),
                    k,
                ),
    {
        let gc = GolayCode::new();
        let mut parts = empty_parts();
        let t = Trailer {
            crc: self.transfer.checksum_before(),
            nonce: self.transfer.nonce_value(),
            length: self.length,
        };
        let tail = seal_protected_trailer(&t, self.transfer.schedule_value());
        encode_chunk(tail.as_slice(), &mut parts, &gc);
        proof {
            assert forall|k: int| 0 <= k < 8 implies self.written(k) + (#[trigger] parts[k])@
                == protected_slice(self.plain(), self.schedule(), self.nonce(), k) by {
                assert(parts[k]@ =~= slice_part(tail@, k));
            }
        }
        parts
    }
}

/// How opening a protected file from the tails of its slices ends where it
/// fails: more than one slice missing, a tail too short for the trailer, or
/// a trailer that does not open.
pub open spec fn open_failure(tails: Seq<Option<Seq<u8>>>, schedule: Seq<u64>) -> Option<Failure> {
    if missing_among(tails, 8) > 1 {
        Some(Failure::Uncorrectable)
    } else if !parts_cover(tails, 24) {
        Some(Failure::Io)
    } else if opened_protected(decoded_bytes(tails, 24), schedule) is None {
        Some(Failure::WrongPassword)
    } else {
        None
    }
}

/// The way of a cleartext out of its slices, a chunk at a time.
pub struct Recoverer {
    transfer: Transfer,
    tally: Tally,
    trailer: Trailer,
}

impl Recoverer {
    /// What holds of every recoverer: its transfer is well formed and has
    /// the nonce of the trailer; the payload is no longer than a trailer
    /// can announce; and eight codewords were counted for every group
    /// decoded so far, the two of the trailer among them.
    pub closed spec fn wf(&self) -> bool {
        &&& self.transfer.wf()
        &&& self.transfer.nonce() == self.trailer.nonce
        &&& self.transfer.input().len() + self.transfer.left() <= 0x7fff_ffff_ffff_ffff
        &&& self.tally.processed == 16 + 8 * groups_for(self.transfer.input().len() as int)
        &&& self.tally.corrected <= self.tally.processed
        &&& self.tally.uncorrectable <= self.tally.processed
    }

    /// What the trailer carries.
    pub closed spec fn trailer(&self) -> Trailer {
        self.trailer
    }

    /// The encrypted bytes decoded so far.
    pub closed spec fn cipher(&self) -> Seq<u8> {
        self.transfer.input()
    }

    /// The cleartext recovered so far.
    pub closed spec fn content(&self) -> Seq<u8> {
        self.transfer.output()
    }

    /// The round keys of the cipher.
    pub closed spec fn schedule(&self) -> Seq<u64> {
        self.transfer.schedule()
    }

    /// The number of bytes of cleartext still to come.
    pub closed spec fn left(&self) -> u64 {
        self.transfer.left()
    }

    /// What the decoder counted so far.
    pub closed spec fn counters(&self) -> Tally {
        self.tally
    }

    /// The cleartext recovered so far is the encrypted bytes decoded so
    /// far, xored with the keystream of the trailer's nonce.
    pub proof fn lemma_in_tune(&self)
        requires
            self.wf(),
        ensures
            self.content() == ctr_xor(self.cipher(), self.schedule(), self.trailer().nonce, 0),
    {
        self.transfer.lemma_in_tune();
    }

    /// Reads the trailer from the last six bytes of each slice and makes
    /// ready for the payload that it announces.
    pub fn open(tails: &[Option<Vec<u8>>; 8], schedule: &[u64; 34]) -> (r: Result<
        Recoverer,
        Failure,
    >)
        ensures
            match r {
                Ok(s) => {
                    &&& open_failure(parts_view(tails@), schedule@) is None
                    &&& s.wf()
                    &&& Some(s.trailer()) == opened_protected(
                        decoded_bytes(parts_view(tails@), 24),
                        schedule@,
                    )
                    &&& s.cipher() == Seq::<u8>::empty()
                    &&& s.content() == Seq::<u8>::empty()
                    &&& s.schedule() == schedule@
                    &&& s.left() == body_length(s.trailer())
                    &&& s.counters().processed == 16
                    &&& s.counters().corrected == corrected_in(parts_view(tails@), 2)
                    &&& s.counters().uncorrectable == failed_in(parts_view(tails@), 2)
                },
                Err(failure) => open_failure(parts_view(tails@), schedule@) == Some(failure),
            },
    {
        let mut codec = GolayCode::new();
        let missing = check_missing(count_missing(tails));
        match missing {
            Some(failure) => {
                return Err(failure);
            },
            None => {},
        }
        let tail = match decode_chunk(tails, PROTECTED_TRAILER_BYTES, &mut codec) {
            None => {
                return Err(Failure::Io);
            },
            Some(tail) => tail,
        };
        let trailer = match open_protected_trailer(tail.as_slice(), schedule) {
            None => {
                return Err(Failure::WrongPassword);
            },
            Some(trailer) => trailer,
        };
        proof {
            lemma_failed_bound(parts_view(tails@), 2);
        }
        let tally = Tally {
            processed: codec.processed_codewords as u64,
            corrected: codec.corrected_codewords as u64,
            uncorrectable: codec.uncorrectable_codewords as u64,
        };
        let transfer = Transfer::new(schedule, trailer.nonce, payload_length(&trailer));
        Ok(Recoverer { transfer, tally, trailer })
    }

    /// Gives what the trailer carries.
    pub fn trailer_read(&self) -> (t: Trailer)
        ensures
            t == self.trailer(),
    {
        self.trailer
    }

    /// Gives what the decoder counted so far.
    pub fn tally(&self) -> (t: Tally)
        ensures
            t == self.counters(),
    {
        self.tally
    }

    /// Gives the number of bytes of cleartext still to come.
    pub fn remaining(&self) -> (n: u64)
        ensures
            n == self.left(),
    {
        self.transfer.remaining()
    }

    /// Gives the number of bytes of cleartext in the next chunk.
    pub fn next_len(&self) -> (len: usize)
        ensures
            len == chunk_len(self.left()),
    {
        self.transfer.next_len()
    }

    /// Gives the number of bytes to read from each slice for the next
    /// chunk.
    pub fn next_part_len(&self) -> (len: usize)
        ensures
            len == 3 * groups_for(chunk_len(self.left())),
    {
        part_len(self.transfer.next_len())
    }

    /// Decodes the next chunk from what was read from each slice and takes
    /// it through the cipher. Returns `None`, and changes nothing, where a
    /// part that is there does not hold its share of the chunk.
    pub fn feed(&mut self, parts: &[Option<Vec<u8>>; 8]) -> (chunk: Option<Vec<u8>>)
        requires
            old(self).wf(),
        ensures
            final(self).wf(),
            final(self).trailer() == old(self).trailer(),
            final(self).schedule() == old(self).schedule(),
            chunk is Some <==> parts_cover(parts_view(parts@), chunk_len(old(self).left())),
            chunk is None ==> {
                &&& final(self).cipher() == old(self).cipher()
                &&& final(self).content() == old(self).content()
                &&& final(self).left() == old(self).left()
                &&& final(self).counters() == old(self).counters()
            },
            chunk matches Some(bytes) ==> {
                let n = chunk_len(old(self).left());
                let view = parts_view(parts@);
                &&& bytes@.len() == n
                &&& final(self).cipher() == old(self).cipher() + decoded_bytes(view, n)
                &&& final(self).content() == old(self).content() + bytes@
                &&& final(self).content() == ctr_xor(
                    final(self).cipher(),
                    old(self).schedule(),
                    old(self).trailer().nonce,
                    0,
                )
                &&& final(self).left() == old(self).left() - n
                &&& final(self).counters().processed == old(self).counters().processed + 8
                    * groups_for(n)
                &&& final(self).counters().corrected == old(self).counters().corrected
                    + corrected_in(view, groups_for(n) as nat)
                &&& final(self).counters().uncorrectable == old(self).counters().uncorrectable
                    + failed_in(view, groups_for(n) as nat)
            },
    {
        let n: usize = self.transfer.next_len();
        // A chunk holds few enough codewords for a fresh codec to count.
        let mut codec = GolayCode::new();
        match decode_chunk(parts, n, &mut codec) {
            None => None,
            Some(mut chunk) => {
                proof {
                    self.transfer.lemma_in_tune();
                    lemma_failed_bound(parts_view(parts@), groups_for(n as int) as nat);
                }
                self.transfer.apply(&mut chunk);
                self.tally = Tally {
                    processed: self.tally.processed + codec.processed_codewords as u64,
                    corrected: self.tally.corrected + codec.corrected_codewords as u64,
                    uncorrectable: self.tally.uncorrectable
                        + codec.uncorrectable_codewords as u64,
                };
                Some(chunk)
            },
        }
    }

    /// Gives the checksum of the cleartext recovered so far.
    pub fn checksum(&self) -> (sum: u32)
        ensures
            sum == crc32c(self.content()),
    {
        self.transfer.checksum_after()
    }

    /// The outcome, once all of the cleartext came out: a codeword that
    /// was not corrected goes before a checksum that does not match.
    pub fn finish(&self) -> (failure: Option<Failure>)
        ensures
            failure == (if self.counters().uncorrectable != 0 {
                Some(Failure::Uncorrectable)
            } else if crc32c(self.content()) != self.trailer().crc {
                Some(Failure::Format)
            } else {
                None
            }),
    {
        recover_verdict(&self.trailer, self.transfer.checksum_after(), &self.tally)
    }
}

/// Encrypts `plain` and encodes it into eight slices, a chunk at a time,
/// and the trailer after it.
pub fn protect_bytes(plain: &[u8], schedule: &[u64; 34], random: u64) -> (slices: [Vec<u8>; 8])
    ensures
        forall|k: int|
            0 <= k < 8 ==> (#[trigger] slices[k])@ == protected_slice(
                plain@,
                schedule@,
                nonce_of(plain@.len() as u64, random),
                k,
            ),
{
    let len: usize = plain.len();
    let mut protector = Protector::new(schedule, len as u64, random);
    let mut slices = empty_parts();
    let mut done: usize = 0;
    proof {
        assert(plain@.take(0) =~= protector.plain());
        assert forall|k: int| 0 <= k < 8 implies (#[trigger] slices[k])@ == protector.written(
            k,
        ) by {
            assert(slices[k]@ =~= protector.written(k));
        }
    }
    while done < len
        invariant
            done <= len,
            len == plain@.len(),
            protector.wf(),
            protector.schedule() == schedule@,
            protector.nonce() == nonce_of(len as u64, random),
            protector.plain() == plain@.take(done as int),
            protector.left() == len - done,
            forall|k: int| 0 <= k < 8 ==> (#[trigger] slices[k])@ == protector.written(k),
        decreases len - done,
    {
        let n: usize = protector.next_len();
        let piece = vstd::slice::slice_subrange(plain, done, done + n);
        assert(plain@.take(done + n) =~= plain@.take(done as int) + piece@);
        let mut parts = protector.feed(piece);
        append_parts(&mut slices, &mut parts);
        done = done + n;
    }
    assert(plain@.take(done as int) =~= plain@);
    let mut parts = protector.finish();
    append_parts(&mut slices, &mut parts);
    slices
}

/// Appends to each slice its part.
fn append_parts(slices: &mut [Vec<u8>; 8], parts: &mut [Vec<u8>; 8])
    ensures
        forall|k: int|
            0 <= k < 8 ==> (#[trigger] final(slices)[k])@ == old(slices)[k]@ + old(parts)[k]@,
{
    let mut k: usize = 0;
    while k < 8
        invariant
            k <= 8,
            forall|q: int| 0 <= q < k ==> (#[trigger] slices[q])@ == old(slices)[q]@ + old(
                parts,
            )[q]@,
            forall|q: int| k <= q < 8 ==> (#[trigger] slices[q]) == old(slices)[q],
            forall|q: int| k <= q < 8 ==> (#[trigger] parts[q]) == old(parts)[q],
        decreases 8 - k,
    {
        slices[k].append(&mut parts[k]);
        k = k + 1;
    }
}

/// What recovering a file from its slices yields.
pub struct Recovered {
    /// The cleartext, as far as it was recovered.
    pub content: Vec<u8>,
    /// Why recovery failed, if it did.
    pub failure: Option<Failure>,
    /// What the decoder counted.
    pub counts: Tally,
}

/// A tally of nothing.
pub fn empty_tally() -> (t: Tally)
    ensures
        t == (Tally { processed: 0, corrected: 0, uncorrectable: 0 }),
{
    Tally { processed: 0, corrected: 0, uncorrectable: 0 }
}

/// Whether every payload that a trailer can announce and the slices can
/// hold has a length that fits the machine: lengths of 63 bits fit, or no
/// slice that is there holds more than a quarter of the bytes that can be
/// addressed. On a machine of 64 bits this holds of all slices.
pub open spec fn parts_fit(parts: Seq<Option<Seq<u8>>>) -> bool {
    usize::MAX >= 0x7fff_ffff_ffff_ffff || forall|k: int|
        0 <= k < parts.len() ==> (#[trigger] parts[k] matches Some(bytes) ==> bytes.len()
            <= usize::MAX / 4)
}

/// Recovers a file from its slices, of which one may be missing, a chunk
/// at a time.
pub fn recover_bytes(parts: &[Option<Vec<u8>>; 8], schedule: &[u64; 34]) -> (out: Recovered)
    requires
        parts_fit(parts_view(parts@)),
    ensures
        (out.content@, out.failure) == recovered_file(parts_view(parts@), schedule@),
        out.counts.processed == recovered_counts(parts_view(parts@), schedule@).0,
        out.counts.corrected == recovered_counts(parts_view(parts@), schedule@).1,
        out.counts.uncorrectable == recovered_counts(parts_view(parts@), schedule@).2,
{
    let ghost view = parts_view(parts@);
    let missing = check_missing(count_missing(parts));
    if missing.is_some() {
        return Recovered { content: Vec::new(), failure: missing, counts: empty_tally() };
    }
    // A slice shorter than its share of the trailer cannot be read.
    if !parts_cover_len(parts, PROTECTED_TRAILER_BYTES) {
        return Recovered {
            content: Vec::new(),
            failure: Some(Failure::Io),
            counts: empty_tally(),
        };
    }
    let tails = take_tails(parts);
    proof {
        lemma_tails_cover(view);
        lemma_tails_missing(view, 8);
    }
    let mut recoverer = match Recoverer::open(&tails, schedule) {
        Err(failure) => {
            return Recovered {
                content: Vec::new(),
                failure: Some(failure),
                counts: empty_tally(),
            };
        },
        Ok(recoverer) => recoverer,
    };
    let length: u64 = recoverer.remaining();
    // Where lengths of 63 bits do not fit the machine, no slice holds more
    // than a quarter of what can be addressed, so that a payload of more
    // than that is not covered.
    if length > usize::MAX as u64 {
        proof {
            lemma_uncovered(view, length as int);
        }
        return Recovered {
            content: Vec::new(),
            failure: Some(Failure::Io),
            counts: recoverer.tally(),
        };
    }
    let total: usize = length as usize;
    if !parts_cover_len(parts, total) {
        return Recovered {
            content: Vec::new(),
            failure: Some(Failure::Io),
            counts: recoverer.tally(),
        };
    }
    let mut content: Vec<u8> = Vec::new();
    let mut done: usize = 0;
    proof {
        assert(decoded_bytes(view, 0) =~= recoverer.cipher());
    }
    while done < total
        invariant
            done <= total,
            view == parts_view(parts@),
            parts_cover(view, total as int),
            recoverer.wf(),
            recoverer.schedule() == schedule@,
            Some(recoverer.trailer()) == opened_protected(
                decoded_bytes(tail_parts(view), 24),
                schedule@,
            ),
            recoverer.cipher() == decoded_bytes(view, done as int),
            recoverer.content() == content@,
            recoverer.left() == total - done,
            done < total ==> done % 12 == 0,
            recoverer.counters().processed == 16 + 8 * groups_for(done as int),
            recoverer.counters().corrected == corrected_in(tail_parts(view), 2) + corrected_in(
                view,
                groups_for(done as int) as nat,
            ),
            recoverer.counters().uncorrectable == failed_in(tail_parts(view), 2) + failed_in(
                view,
                groups_for(done as int) as nat,
            ),
        decreases total - done,
    {
        let n: usize = recoverer.next_len();
        let ghost blocks = done as int / 12;
        proof {
            assert(groups_for(done as int) == blocks);
            assert(groups_for(done + n) == blocks + groups_for(n as int));
            lemma_cover_less(view, total as int, done + n);
            assert forall|k: int| 0 <= k < 8 implies (#[trigger] parts[k] matches Some(v)
                ==> 3 * blocks + 3 * groups_for(n as int) <= v@.len()) by {
                assert(view[k] matches Some(bytes) ==> bytes.len() >= 3 * groups_for(done + n));
            }
        }
        let piece = window(parts, 3 * (done / 12), recoverer.next_part_len());
        proof {
            assert forall|k: int| 0 <= k < 8 implies (#[trigger] parts_view(
                piece@,
            )[k] matches Some(bytes) ==> bytes.len() >= 3 * groups_for(n as int)) by {
                assert(view[k] matches Some(bytes) ==> bytes.len() >= 3 * groups_for(done + n));
            }
            lemma_decoded_window(view, blocks, n as int);
        }
        let mut chunk = match recoverer.feed(&piece) {
            Some(chunk) => chunk,
            None => Vec::new(),
        };
        content.append(&mut chunk);
        done = done + n;
    }
    proof {
        recoverer.lemma_in_tune();
    }
    let failure = recoverer.finish();
    Recovered { content, failure, counts: recoverer.tally() }
}

/// The tails of the slices are missing where the slices are.
proof fn lemma_tails_missing(parts: Seq<Option<Seq<u8>>>, n: nat)
    requires
        n <= parts.len(),
    ensures
        missing_among(tail_parts(parts), n) == missing_among(parts, n),
    decreases n,
{
    if n > 0 {
        lemma_tails_missing(parts, (n - 1) as nat);
    }
}

/// The tails of slices that hold a trailer hold it.
proof fn lemma_tails_cover(parts: Seq<Option<Seq<u8>>>)
    requires
        parts.len() == 8,
        parts_cover(parts, 24),
    ensures
        parts_cover(tail_parts(parts), 24),
{
    assert forall|k: int| 0 <= k < 8 implies (#[trigger] tail_parts(parts)[k] matches Some(bytes)
        ==> bytes.len() >= 3 * groups_for(24)) by {
        assert(parts[k] matches Some(bytes) ==> bytes.len() >= 3 * groups_for(24));
    }
}

/// With at most one slice missing, a payload that a trailer can announce
/// and that is longer than can be addressed is not covered by slices that
/// fit the machine.
proof fn lemma_uncovered(parts: Seq<Option<Seq<u8>>>, len: int)
    requires
        parts.len() == 8,
        missing_among(parts, 8) <= 1,
        parts_fit(parts),
        usize::MAX < len <= 0x7fff_ffff_ffff_ffff,
    ensures
        !parts_cover(parts, len),
{
    reveal_with_fuel(missing_among, 9);
    let k = if parts[0] is Some {
        0int
    } else {
        1int
    };
    assert(parts[k] is Some);
    assert(parts[k] matches Some(bytes) && bytes.len() <= usize::MAX / 4);
}

/// No more codewords fail than there are.
proof fn lemma_failed_bound(parts: Seq<Option<Seq<u8>>>, n: nat)
    ensures
        failed_in(parts, n) <= 8 * n,
        corrected_in(parts, n) <= 8 * n,
    decreases n,
{
    if n > 0 {
        lemma_failed_bound(parts, (n - 1) as nat);
        crate::stripe::lemma_counts_bound(
            crate::stripe::received_words(crate::stripe::group_at(parts, n - 1)),
            8,
        );
    }
}

/// Whether every slice that is there has the length of a slice of the
/// protected form of a cleartext of `len` bytes.
pub open spec fn parts_sized(parts: Seq<Option<Seq<u8>>>, len: int) -> bool {
    forall|k: int|
        0 <= k < parts.len() ==> (#[trigger] parts[k] matches Some(bytes) ==> bytes.len() == 3
            * groups_for(len) + SLICE_TRAILER_BYTES)
}

/// The payload groups of sized slices are their first groups, and the
/// trailer groups are the two that follow.
proof fn lemma_tail_groups(parts: Seq<Option<Seq<u8>>>, len: int, j: int)
    requires
        parts.len() == 8,
        0 <= len,
        parts_sized(parts, len),
        0 <= j < 2,
    ensures
        group_at(tail_parts(parts), j) == group_at(parts, groups_for(len) + j),
{
    assert forall|p: int| 0 <= p < 24 implies group_at(tail_parts(parts), j)[p] == group_at(
        parts,
        groups_for(len) + j,
    )[p] by {
        let k = p / 3;
        assert(parts[k] matches Some(bytes) ==> bytes.len() == 3 * groups_for(len) + 6);
    }
    assert(group_at(tail_parts(parts), j) =~= group_at(parts, groups_for(len) + j));
}

/// Group `g` of the slices of a protected file is the group of block `g`
/// of the encrypted cleartext, or of the trailer after it.
proof fn lemma_protected_groups(plain: Seq<u8>, schedule: Seq<u64>, nonce: u64, g: int)
    requires
        0 <= g < groups_for(plain.len() as int) + 2,
    ensures
        g < groups_for(plain.len() as int) ==> group_at(
            protected_slices(plain, schedule, nonce),
            g,
        ) == crate::stripe::encode_block(padded_block(ctr_xor(plain, schedule, nonce, 0), g)),
        g >= groups_for(plain.len() as int) ==> group_at(
            protected_slices(plain, schedule, nonce),
            g,
        ) == crate::stripe::encode_block(
            padded_block(
                protected_trailer(trailer_of(plain, nonce), schedule),
                g - groups_for(plain.len() as int),
            ),
        ),
{
    let parts = protected_slices(plain, schedule, nonce);
    let body = ctr_xor(plain, schedule, nonce, 0);
    let tail = protected_trailer(trailer_of(plain, nonce), schedule);
    let groups = groups_for(plain.len() as int);
    lemma_open_sealed_protected(trailer_of(plain, nonce), schedule);
    if g < groups {
        lemma_group_at_encoded(body, g);
        assert forall|p: int| 0 <= p < 24 implies group_at(parts, g)[p] == group_at(
            encoded_parts(body),
            g,
        )[p] by {
            let k = p / 3;
            assert(parts[k] == Some(protected_slice(plain, schedule, nonce, k)));
            assert(encoded_parts(body)[k] == Some(slice_part(body, k)));
        }
        assert(group_at(parts, g) =~= group_at(encoded_parts(body), g));
    } else {
        let j = g - groups;
        lemma_group_at_encoded(tail, j);
        assert forall|p: int| 0 <= p < 24 implies group_at(parts, g)[p] == group_at(
            encoded_parts(tail),
            j,
        )[p] by {
            let k = p / 3;
            assert(parts[k] == Some(protected_slice(plain, schedule, nonce, k)));
            assert(encoded_parts(tail)[k] == Some(slice_part(tail, k)));
        }
        assert(group_at(parts, g) =~= group_at(encoded_parts(tail), j));
    }
}

/// Number of codewords of a protected file, of its trailer and of its
/// payload, that were not received in the slices as they were written.
pub open spec fn recovered_errors(
    plain: Seq<u8>,
    schedule: Seq<u64>,
    nonce: u64,
    parts: Seq<Option<Seq<u8>>>,
) -> nat {
    errors_in(protected_trailer(trailer_of(plain, nonce), schedule), tail_parts(parts), 2)
        + errors_in(
        ctr_xor(plain, schedule, nonce, 0),
        parts,
        groups_for(plain.len() as int) as nat,
    )
}

/// What the decoder counts where a protected file is recovered: eight
/// codewords for each group, a correction for each codeword that was not
/// received as it was written, and none that could not be corrected.
pub open spec fn counts_of_recovery(
    plain: Seq<u8>,
    schedule: Seq<u64>,
    nonce: u64,
    parts: Seq<Option<Seq<u8>>>,
) -> (nat, nat, nat) {
    (
        (8 * (groups_for(plain.len() as int) + 2)) as nat,
        recovered_errors(plain, schedule, nonce, parts),
        0nat,
    )
}

/// Slices of the right length, of which at most one is missing and whose
/// groups are each close to the block that they stand for, yield the
/// cleartext.
proof fn lemma_recover_close(
    plain: Seq<u8>,
    schedule: Seq<u64>,
    nonce: u64,
    parts: Seq<Option<Seq<u8>>>,
)
    requires
        plain.len() <= 0x7fff_ffff_ffff_ffff,
        parts.len() == 8,
        missing_among(parts, 8) <= 1,
        parts_sized(parts, plain.len() as int),
        parts_close(ctr_xor(plain, schedule, nonce, 0), parts),
        parts_close(protected_trailer(trailer_of(plain, nonce), schedule), tail_parts(parts)),
    ensures
        recovered_file(parts, schedule) == (plain, None::<Failure>),
        recovered_counts(parts, schedule) == counts_of_recovery(plain, schedule, nonce, parts),
{
    let body = ctr_xor(plain, schedule, nonce, 0);
    let t = trailer_of(plain, nonce);
    let tail = protected_trailer(t, schedule);
    let len = plain.len() as int;
    lemma_open_sealed_protected(t, schedule);
    assert forall|k: int| 0 <= k < 8 implies (#[trigger] parts[k] matches Some(bytes)
        ==> bytes.len() >= 3 * groups_for(24) && bytes.len() >= 3 * groups_for(len)) by {
        assert(parts[k] matches Some(bytes) ==> bytes.len() == 3 * groups_for(len) + 6);
    }
    assert(parts_cover(parts, 24));
    assert(parts_cover(parts, len));
    lemma_decoded_bytes_close(tail, tail_parts(parts));
    lemma_decoded_bytes_close(body, parts);
    lemma_ctr_xor_twice(plain, schedule, nonce, 0);
    assert(body_length(t) == len);
    lemma_corrections_in(tail, tail_parts(parts), 2);
    lemma_corrections_in(body, parts, groups_for(len) as nat);
}

/// None of the slices of a protected file is missing.
proof fn lemma_none_missing(parts: Seq<Option<Seq<u8>>>)
    requires
        parts.len() == 8,
        forall|k: int| 0 <= k < 8 ==> (#[trigger] parts[k]) is Some,
    ensures
        missing_among(parts, 8) == 0,
{
    reveal_with_fuel(missing_among, 9);
    assert(parts[0] is Some && parts[1] is Some && parts[2] is Some && parts[3] is Some);
    assert(parts[4] is Some && parts[5] is Some && parts[6] is Some && parts[7] is Some);
}

/// With all slices there but one, one is missing.
proof fn lemma_one_missing(parts: Seq<Option<Seq<u8>>>, k: int)
    requires
        parts.len() == 8,
        0 <= k < 8,
        forall|q: int| 0 <= q < 8 ==> ((#[trigger] parts[q]) is None <==> q == k),
    ensures
        missing_among(parts, 8) == 1,
{
    reveal_with_fuel(missing_among, 9);
    assert(parts[0] is None <==> k == 0);
    assert(parts[1] is None <==> k == 1);
    assert(parts[2] is None <==> k == 2);
    assert(parts[3] is None <==> k == 3);
    assert(parts[4] is None <==> k == 4);
    assert(parts[5] is None <==> k == 5);
    assert(parts[6] is None <==> k == 6);
    assert(parts[7] is None <==> k == 7);
}

/// The tails of the slices of a protected file are the parts that the
/// trailer is encoded into.
proof fn lemma_protected_tails(plain: Seq<u8>, schedule: Seq<u64>, nonce: u64)
    ensures
        tail_parts(protected_slices(plain, schedule, nonce)) == encoded_parts(
            protected_trailer(trailer_of(plain, nonce), schedule),
        ),
        protected_trailer(trailer_of(plain, nonce), schedule).len() == 24,
{
    let tail = protected_trailer(trailer_of(plain, nonce), schedule);
    let whole = protected_slices(plain, schedule, nonce);
    lemma_open_sealed_protected(trailer_of(plain, nonce), schedule);
    assert forall|k: int| 0 <= k < 8 implies tail_parts(whole)[k] == encoded_parts(tail)[k] by {
        let bytes = protected_slice(plain, schedule, nonce, k);
        assert(whole[k] == Some(bytes));
        assert(bytes.subrange(bytes.len() - 6, bytes.len() as int) =~= slice_part(tail, k));
    }
    assert(tail_parts(whole) =~= encoded_parts(tail));
}

/// Taking the tails of slices of which one is missing.
proof fn lemma_tails_update(parts: Seq<Option<Seq<u8>>>, k: int)
    requires
        0 <= k < parts.len(),
    ensures
        tail_parts(parts.update(k, None)) == tail_parts(parts).update(k, None),
{
    assert(tail_parts(parts.update(k, None)) =~= tail_parts(parts).update(k, None));
}

/// Where two sets of parts show the same groups of the payload, and one is
/// close to the data, so is the other.
proof fn lemma_close_by_groups(
    data: Seq<u8>,
    parts: Seq<Option<Seq<u8>>>,
    reference: Seq<Option<Seq<u8>>>,
)
    requires
        parts_close(data, reference),
        forall|g: int|
            0 <= g < groups_for(data.len() as int) ==> #[trigger] group_at(parts, g) == group_at(
                reference,
                g,
            ),
    ensures
        parts_close(data, parts),
{
    assert forall|g: int| 0 <= g < groups_for(data.len() as int) implies group_close(
        #[trigger] padded_block(data, g),
        group_at(parts, g),
    ) by {
        assert(group_at(parts, g) == group_at(reference, g));
        assert(group_close(padded_block(data, g), group_at(reference, g)));
    }
}

/// Group `g` of the payload, read from the slices of a protected file of
/// which slice `k` may be missing, is the group read from the parts that
/// the encrypted cleartext is encoded into.
proof fn lemma_payload_group(
    plain: Seq<u8>,
    schedule: Seq<u64>,
    nonce: u64,
    missing: Option<int>,
    g: int,
)
    requires
        0 <= g < groups_for(plain.len() as int),
        missing matches Some(k) ==> 0 <= k < 8,
    ensures
        ({
            let body = ctr_xor(plain, schedule, nonce, 0);
            let whole = protected_slices(plain, schedule, nonce);
            match missing {
                Some(k) => group_at(whole.update(k, None), g) == group_at(
                    encoded_parts(body).update(k, None),
                    g,
                ),
                None => group_at(whole, g) == group_at(encoded_parts(body), g),
            }
        }),
{
    let body = ctr_xor(plain, schedule, nonce, 0);
    let whole = protected_slices(plain, schedule, nonce);
    let reference = encoded_parts(body);
    assert forall|q: int| 0 <= q < 8 implies whole[q] == Some(
        protected_slice(plain, schedule, nonce, q),
    ) && reference[q] == Some(slice_part(body, q)) by {}
    match missing {
        Some(k) => {
            assert(group_at(whole.update(k, None), g) =~= group_at(reference.update(k, None), g));
        },
        None => {
            assert(group_at(whole, g) =~= group_at(reference, g));
        },
    }
}

/// The slices of a protected file fit the machine where lengths of 63
/// bits do or a slice is no longer than a quarter of what can be
/// addressed, all there or with any of them missing.
pub proof fn lemma_protected_slices_fit(
    plain: Seq<u8>,
    schedule: Seq<u64>,
    nonce: u64,
    missing: Option<int>,
)
    requires
        usize::MAX >= 0x7fff_ffff_ffff_ffff || 3 * (groups_for(plain.len() as int) + 2)
            <= usize::MAX / 4,
        missing matches Some(k) ==> 0 <= k < 8,
    ensures
        parts_fit(
            match missing {
                Some(k) => protected_slices(plain, schedule, nonce).update(k, None),
                None => protected_slices(plain, schedule, nonce),
            },
        ),
{
    let whole = protected_slices(plain, schedule, nonce);
    let parts = match missing {
        Some(k) => whole.update(k, None),
        None => whole,
    };
    if usize::MAX < 0x7fff_ffff_ffff_ffff {
        assert forall|q: int| 0 <= q < parts.len() implies (#[trigger] parts[q] matches Some(
            bytes,
        ) ==> bytes.len() <= usize::MAX / 4) by {
            if parts[q] is Some {
                assert(parts[q] == Some(protected_slice(plain, schedule, nonce, q)));
                lemma_protected_slice_len(plain, schedule, nonce, q);
            }
        }
    }
}

/// The slices of a protected file yield its cleartext.
pub proof fn lemma_recover_protected(plain: Seq<u8>, schedule: Seq<u64>, nonce: u64)
    requires
        plain.len() <= 0x7fff_ffff_ffff_ffff,
    ensures
        recovered_file(protected_slices(plain, schedule, nonce), schedule) == (
            plain,
            None::<Failure>,
        ),
        recovered_counts(protected_slices(plain, schedule, nonce), schedule) == (
            (8 * (groups_for(plain.len() as int) + 2)) as nat,
            0nat,
            0nat,
        ),
{
    let parts = protected_slices(plain, schedule, nonce);
    assert forall|g: int| 0 <= g < groups_for(plain.len() as int) + 2 implies bits_differing(
        #[trigger] group_at(parts, g),
        group_at(parts, g),
        24,
    ) <= 3 by {
        crate::stripe::lemma_same_bits(group_at(parts, g), 24);
    }
    lemma_few_flips_recovered(plain, schedule, nonce, parts);
    assert(recovered_errors(plain, schedule, nonce, parts) == 0) by {
        let body = ctr_xor(plain, schedule, nonce, 0);
        let tail = protected_trailer(trailer_of(plain, nonce), schedule);
        let groups = groups_for(plain.len() as int);
        lemma_protected_tails(plain, schedule, nonce);
        assert forall|g: int| 0 <= g < groups implies #[trigger] group_at(parts, g)
            == crate::stripe::encode_block(padded_block(body, g)) by {
            lemma_protected_groups(plain, schedule, nonce, g);
        }
        assert forall|j: int| 0 <= j < 2 implies #[trigger] group_at(tail_parts(parts), j)
            == crate::stripe::encode_block(padded_block(tail, j)) by {
            lemma_group_at_encoded(tail, j);
        }
        lemma_no_errors(body, parts, groups as nat);
        lemma_no_errors(tail, tail_parts(parts), 2);
    }
}

/// Slices of a protected file in which every group of 24 bytes, three from
/// each slice, differs from what was written in at most three bits yield
/// the cleartext.
pub proof fn lemma_few_flips_recovered(
    plain: Seq<u8>,
    schedule: Seq<u64>,
    nonce: u64,
    parts: Seq<Option<Seq<u8>>>,
)
    requires
        plain.len() <= 0x7fff_ffff_ffff_ffff,
        parts.len() == 8,
        forall|k: int|
            0 <= k < 8 ==> (#[trigger] parts[k] matches Some(bytes) && bytes.len()
                == protected_slice(plain, schedule, nonce, k).len()),
        forall|g: int|
            0 <= g < groups_for(plain.len() as int) + 2 ==> bits_differing(
                #[trigger] group_at(protected_slices(plain, schedule, nonce), g),
                group_at(parts, g),
                24,
            ) <= 3,
    ensures
        recovered_file(parts, schedule) == (plain, None::<Failure>),
        recovered_counts(parts, schedule) == counts_of_recovery(plain, schedule, nonce, parts),
{
    let body = ctr_xor(plain, schedule, nonce, 0);
    let tail = protected_trailer(trailer_of(plain, nonce), schedule);
    let groups = groups_for(plain.len() as int);
    let whole = protected_slices(plain, schedule, nonce);
    lemma_open_sealed_protected(trailer_of(plain, nonce), schedule);
    lemma_none_missing(parts);
    assert(parts_sized(parts, plain.len() as int));
    assert forall|g: int| 0 <= g < groups implies group_close(
        #[trigger] padded_block(body, g),
        group_at(parts, g),
    ) by {
        lemma_protected_groups(plain, schedule, nonce, g);
        assert(bits_differing(group_at(whole, g), group_at(parts, g), 24) <= 3);
        lemma_close_three_flips(padded_block(body, g), group_at(parts, g));
    }
    assert forall|j: int| 0 <= j < groups_for(tail.len() as int) implies group_close(
        #[trigger] padded_block(tail, j),
        group_at(tail_parts(parts), j),
    ) by {
        lemma_protected_groups(plain, schedule, nonce, groups + j);
        lemma_tail_groups(parts, plain.len() as int, j);
        assert(bits_differing(group_at(whole, groups + j), group_at(parts, groups + j), 24) <= 3);
        lemma_close_three_flips(padded_block(tail, j), group_at(tail_parts(parts), j));
    }
    lemma_recover_close(plain, schedule, nonce, parts);
}

/// The slices of a protected file, with any one of them missing, yield its
/// cleartext.
pub proof fn lemma_recover_one_missing(plain: Seq<u8>, schedule: Seq<u64>, nonce: u64, k: int)
    requires
        plain.len() <= 0x7fff_ffff_ffff_ffff,
        0 <= k < 8,
    ensures
        recovered_file(protected_slices(plain, schedule, nonce).update(k, None), schedule) == (
            plain,
            None::<Failure>,
        ),
        recovered_counts(protected_slices(plain, schedule, nonce).update(k, None), schedule)
            == counts_of_recovery(
            plain,
            schedule,
            nonce,
            protected_slices(plain, schedule, nonce).update(k, None),
        ),
{
    let body = ctr_xor(plain, schedule, nonce, 0);
    let tail = protected_trailer(trailer_of(plain, nonce), schedule);
    let whole = protected_slices(plain, schedule, nonce);
    let parts = whole.update(k, None);
    lemma_one_missing(parts, k);
    assert(parts_sized(parts, plain.len() as int)) by {
        lemma_open_sealed_protected(trailer_of(plain, nonce), schedule);
        assert forall|q: int| 0 <= q < 8 implies (#[trigger] parts[q] matches Some(bytes)
            ==> bytes.len() == 3 * groups_for(plain.len() as int) + 6) by {
            if q != k {
                assert(parts[q] == Some(protected_slice(plain, schedule, nonce, q)));
            }
        }
    }
    assert(parts_close(body, parts)) by {
        lemma_decode_one_missing(body, k);
        assert forall|g: int| 0 <= g < groups_for(body.len() as int) implies #[trigger] group_at(
            parts,
            g,
        ) == group_at(encoded_parts(body).update(k, None), g) by {
            lemma_payload_group(plain, schedule, nonce, Some(k), g);
        }
        lemma_close_by_groups(body, parts, encoded_parts(body).update(k, None));
    }
    assert(parts_close(tail, tail_parts(parts))) by {
        lemma_decode_one_missing(tail, k);
        lemma_protected_tails(plain, schedule, nonce);
        lemma_tails_update(whole, k);
    }
    lemma_recover_close(plain, schedule, nonce, parts);
}

/// With two or more slices missing, recovery ends at once as
/// uncorrectable and yields nothing.
pub proof fn lemma_recover_two_missing(parts: Seq<Option<Seq<u8>>>, schedule: Seq<u64>, i: int, j: int)
    requires
        parts.len() == 8,
        0 <= i < j < 8,
        parts[i] is None,
        parts[j] is None,
    ensures
        recovered_file(parts, schedule) == (Seq::<u8>::empty(), Some(Failure::Uncorrectable)),
{
    lemma_missing_counts(parts, 8, i);
    lemma_missing_counts(parts, i as nat, -1);
    assert(missing_among(parts, 8) >= 2) by {
        lemma_missing_two(parts, 8, i, j);
    }
}

/// A missing slice below `n` is counted.
proof fn lemma_missing_counts(parts: Seq<Option<Seq<u8>>>, n: nat, i: int)
    ensures
        0 <= i < n && parts[i] is None ==> missing_among(parts, n) >= 1,
    decreases n,
{
    if n > 0 {
        lemma_missing_counts(parts, (n - 1) as nat, i);
    }
}

/// Two missing slices below `n` are counted.
proof fn lemma_missing_two(parts: Seq<Option<Seq<u8>>>, n: nat, i: int, j: int)
    requires
        0 <= i < j < n,
        parts[i] is None,
        parts[j] is None,
    ensures
        missing_among(parts, n) >= 2,
    decreases n,
{
    if j == n - 1 {
        lemma_missing_counts(parts, (n - 1) as nat, i);
    } else {
        lemma_missing_two(parts, (n - 1) as nat, i, j);
    }
}

/// The slices of a file protected under one key and recovered under
/// another, all there or with one missing, yield nothing, and the outcome
/// is a wrong password.
pub proof fn lemma_recover_other_key(
    plain: Seq<u8>,
    sealed: Seq<u64>,
    opened: Seq<u64>,
    nonce: u64,
    missing: Option<int>,
)
    requires
        pads_differ(sealed, opened),
        missing matches Some(k) ==> 0 <= k < 8,
    ensures
        recovered_file(
            match missing {
                Some(k) => protected_slices(plain, sealed, nonce).update(k, None),
                None => protected_slices(plain, sealed, nonce),
            },
            opened,
        ) == (Seq::<u8>::empty(), Some(Failure::WrongPassword)),
{
    let t = trailer_of(plain, nonce);
    let tail = protected_trailer(t, sealed);
    let whole = protected_slices(plain, sealed, nonce);
    let parts = match missing {
        Some(k) => whole.update(k, None),
        None => whole,
    };
    lemma_protected_tails(plain, sealed, nonce);
    assert(parts_cover(parts, 24)) by {
        assert forall|q: int| 0 <= q < 8 implies (#[trigger] parts[q] matches Some(bytes)
            ==> bytes.len() >= 3 * groups_for(24)) by {
            if parts[q] is Some {
                assert(parts[q] == Some(protected_slice(plain, sealed, nonce, q)));
            }
        }
    }
    assert(missing_among(parts, 8) <= 1 && decoded_bytes(tail_parts(parts), 24) == tail) by {
        match missing {
            Some(k) => {
                lemma_one_missing(parts, k);
                lemma_decode_one_missing(tail, k);
                lemma_tails_update(whole, k);
            },
            None => {
                lemma_none_missing(parts);
                lemma_decode_encoded(tail);
            },
        }
    }
    lemma_halves_under_other_schedule(tail, t, sealed, opened);
}

} // verus!
