//! A payload on its way through the cipher, a chunk at a time.
//!
//! A transfer knows the length of its payload from the start. It takes the
//! payload in chunks of [`CHUNK_SIZE`] bytes, the last one shorter, xors
//! each with the keystream where the one before left off, and keeps the
//! checksums of what went in and of what came out.

use vstd::prelude::*;
use crate::crc32c::{crc32c, Crc32c};
use crate::ctr::{
    batches_for, counter_at, ctr_apply, ctr_xor, lemma_counter_at_add, lemma_ctr_xor_concat,
};

verus! {

/// Bytes that are processed at a time: a whole number of keystream batches
/// and of twelve-byte blocks.
pub const CHUNK_SIZE: usize = 76_800;

/// Number of bytes to process next, with `remaining` bytes left.
pub open spec fn chunk_len(remaining: u64) -> int {
    if remaining < CHUNK_SIZE {
        remaining as int
    } else {
        CHUNK_SIZE as int
    }
}

/// Gives the number of bytes to process next, with `remaining` bytes left.
pub fn next_chunk_len(remaining: u64) -> (len: usize)
    ensures
        len == chunk_len(remaining),
{
    if remaining < CHUNK_SIZE as u64 {
        remaining as usize
    } else {
        CHUNK_SIZE
    }
}

/// The state of a payload on its way through the cipher: the checksums of
/// what went in and of what came out, the place in the keystream, and the
/// number of bytes still to come.
pub struct Transfer {
    before: Crc32c,
    after: Crc32c,
    schedule: [u64; 34],
    nonce: u64,
    counter: u64,
    remaining: u64,
}

/// Whole batches are four blocks each, and counting blocks after them
/// adds up.
proof fn lemma_whole_batches(n: int, m: int)
    requires
        0 <= n,
        0 <= m,
        n % 64 == 0,
    ensures
        4 * batches_for(n) == n / 16,
        m % 64 == 0 ==> (n + m) % 64 == 0 && (n + m) / 16 == n / 16 + 4 * batches_for(m),
{
}

/// Whole chunks are whole blocks.
proof fn lemma_whole_chunk(n: int)
    requires
        0 <= n,
        n % 12 == 0,
    ensures
        (n + CHUNK_SIZE) % 12 == 0,
        CHUNK_SIZE % 64 == 0,
{
}

impl Transfer {
    /// The bytes that went in so far.
    pub closed spec fn input(&self) -> Seq<u8> {
        self.before@
    }

    /// The bytes that came out so far.
    pub closed spec fn output(&self) -> Seq<u8> {
        self.after@
    }

    /// The round keys of the cipher.
    pub closed spec fn schedule(&self) -> Seq<u64> {
        self.schedule@
    }

    /// The nonce of the keystream.
    pub closed spec fn nonce(&self) -> u64 {
        self.nonce
    }

    /// The counter of the next keystream block.
    pub closed spec fn counter(&self) -> u64 {
        self.counter
    }

    /// The number of bytes still to come.
    pub closed spec fn left(&self) -> u64 {
        self.remaining
    }

    /// What holds of every transfer: what came out is what went in, xored
    /// with the keystream from its start; and while more is to come, what
    /// went in was whole chunks, so that the next chunk meets the
    /// keystream where the last one left off.
    pub closed spec fn wf(&self) -> bool {
        &&& self.output() == ctr_xor(self.input(), self.schedule(), self.nonce, 0)
        &&& self.remaining > 0 ==> {
            &&& self.input().len() % 64 == 0
            &&& self.input().len() % 12 == 0
            &&& self.counter == counter_at(0, self.input().len() as int / 16)
        }
    }

    /// What came out of a transfer is what went in, xored with the
    /// keystream from its start, and as long; and while more is to come,
    /// what went in was whole blocks.
    pub proof fn lemma_in_tune(&self)
        requires
            self.wf(),
        ensures
            self.output() == ctr_xor(self.input(), self.schedule(), self.nonce(), 0),
            self.output().len() == self.input().len(),
            self.left() > 0 ==> self.input().len() % 12 == 0,
    {
    }

    /// A transfer for a payload of `length` bytes, through which nothing
    /// has gone yet.
    pub fn new(schedule: &[u64; 34], nonce: u64, length: u64) -> (t: Self)
        ensures
            t.wf(),
            t.input() == Seq::<u8>::empty(),
            t.output() == Seq::<u8>::empty(),
            t.schedule() == schedule@,
            t.nonce() == nonce,
            t.left() == length,
    {
        let t = Transfer {
            before: Crc32c::new(),
            after: Crc32c::new(),
            schedule: *schedule,
            nonce,
            counter: 0,
            remaining: length,
        };
        proof {
            assert(t.output() =~= ctr_xor(t.input(), t.schedule(), nonce, 0));
            lemma_counter_at_add(0, 0, 0);
        }
        t
    }

    /// Gives the nonce of the keystream.
    pub fn nonce_value(&self) -> (n: u64)
        ensures
            n == self.nonce(),
    {
        self.nonce
    }

    /// Gives the round keys of the cipher.
    pub fn schedule_value(&self) -> (s: &[u64; 34])
        ensures
            s@ == self.schedule(),
    {
        &self.schedule
    }

    /// Gives the number of bytes still to come.
    pub fn remaining(&self) -> (n: u64)
        ensures
            n == self.left(),
    {
        self.remaining
    }

    /// Gives the number of bytes that the next chunk has to hold.
    pub fn next_len(&self) -> (len: usize)
        ensures
            len == chunk_len(self.left()),
    {
        next_chunk_len(self.remaining)
    }

    /// Takes the next chunk through the cipher, in place: xors it with the
    /// keystream where the last chunk left off.
    pub fn apply(&mut self, chunk: &mut Vec<u8>)
        requires
            old(self).wf(),
            old(chunk)@.len() == chunk_len(old(self).left()),
        ensures
            final(self).wf(),
            final(chunk)@ == ctr_xor(
                old(chunk)@,
                old(self).schedule(),
                old(self).nonce(),
                old(self).counter(),
            ),
            final(self).input() == old(self).input() + old(chunk)@,
            final(self).output() == old(self).output() + final(chunk)@,
            final(self).output() == ctr_xor(
                final(self).input(),
                old(self).schedule(),
                old(self).nonce(),
                0,
            ),
            final(self).schedule() == old(self).schedule(),
            final(self).nonce() == old(self).nonce(),
            final(self).left() == old(self).left() - old(chunk)@.len(),
    {
        let ghost n = self.input().len() as int;
        let ghost m = chunk@.len() as int;
        let len: usize = chunk.len();
        self.before.update_slice(chunk.as_slice());
        self.counter = ctr_apply(chunk, &self.schedule, self.nonce, self.counter);
        self.after.update_slice(chunk.as_slice());
        self.remaining = self.remaining - len as u64;
        proof {
            if old(self).left() > 0 {
                lemma_whole_batches(n, m);
                lemma_ctr_xor_concat(
                    old(self).input(),
                    old(chunk)@,
                    self.schedule(),
                    self.nonce(),
                    0,
                );
                if self.left() > 0 {
                    lemma_whole_chunk(n);
                    lemma_counter_at_add(0, n / 16, 4 * batches_for(m));
                }
            } else {
                assert(self.input() =~= old(self).input());
                assert(self.output() =~= old(self).output());
            }
        }
    }

    /// The checksum of what went in.
    pub fn checksum_before(&self) -> (sum: u32)
        ensures
            sum == crc32c(self.input()),
    {
        self.before.finalize()
    }

    /// The checksum of what came out.
    pub fn checksum_after(&self) -> (sum: u32)
        ensures
            sum == crc32c(self.output()),
    {
        self.after.finalize()
    }
}

} // verus!
