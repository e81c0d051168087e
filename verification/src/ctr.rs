//! Counter mode over the block cipher.
//!
//! The keystream of a nonce is the concatenation of the encrypted blocks
//! `(nonce, 0)`, `(nonce, 1)`, ..., each as two little-endian words. Data
//! is encrypted, and decrypted, by xoring it with the keystream.

use vstd::prelude::*;
use crate::speck::{encrypt_block, lane_block, speck_encrypt4};

verus! {

/// For each 64-bit word of a batch's keystream, in the order in which the
/// words meet the data, its place in the output of the four-way cipher.
pub const KS_ORDER: [usize; 8] = [0, 4, 1, 5, 2, 6, 3, 7];

/// Byte `i` of the little-endian form of `w`.
pub open spec fn word_byte(w: u64, i: int) -> u8 {
    (w >> ((i * 8) as u64)) as u8
}

/// The counter of the block that is `blocks` blocks after the block with
/// counter `first`. Counters wrap at 2^64.
pub open spec fn counter_at(first: u64, blocks: int) -> u64 {
    ((first + blocks) % 0x1_0000_0000_0000_0000) as u64
}

/// Word `w` of the keystream of `nonce` that starts at the block with
/// counter `first`. Each block yields two words.
pub open spec fn keystream_word(schedule: Seq<u64>, nonce: u64, first: u64, w: int) -> u64 {
    encrypt_block(seq![nonce, counter_at(first, w / 2)], schedule)[w % 2]
}

/// Byte `i` of the keystream of `nonce` that starts at the block with
/// counter `first`.
pub open spec fn keystream_byte(schedule: Seq<u64>, nonce: u64, first: u64, i: int) -> u8 {
    word_byte(keystream_word(schedule, nonce, first, i / 8), i % 8)
}

/// `data` xored with the keystream of `nonce` that starts at the block with
/// counter `first`.
pub open spec fn ctr_xor(data: Seq<u8>, schedule: Seq<u64>, nonce: u64, first: u64) -> Seq<u8> {
    Seq::new(data.len(), |i: int| data[i] ^ keystream_byte(schedule, nonce, first, i))
}

/// Number of batches that cover `len` bytes.
pub open spec fn batches_for(len: int) -> int {
    (len + 63) / 64
}

/// Counting on from a counter that was counted to.
pub proof fn lemma_counter_at_add(first: u64, a: int, b: int)
    requires
        0 <= a,
        0 <= b,
    ensures
        counter_at(counter_at(first, a), b) == counter_at(first, a + b),
        counter_at(first, 0) == first,
{
}

/// The keystream from a later counter is the rest of the keystream.
pub proof fn lemma_keystream_word_shift(
    schedule: Seq<u64>,
    nonce: u64,
    first: u64,
    blocks: int,
    w: int,
)
    requires
        0 <= blocks,
        0 <= w,
    ensures
        keystream_word(schedule, nonce, counter_at(first, blocks), w) == keystream_word(
            schedule,
            nonce,
            first,
            2 * blocks + w,
        ),
{
    lemma_counter_at_add(first, blocks, w / 2);
}

proof fn lemma_xor_twice(a: u8, k: u8)
    by (bit_vector)
    ensures
        (a ^ k) ^ k == a,
{
}

/// Xoring with the same keystream twice gives back the data.
pub proof fn lemma_ctr_xor_twice(data: Seq<u8>, schedule: Seq<u64>, nonce: u64, first: u64)
    ensures
        ctr_xor(ctr_xor(data, schedule, nonce, first), schedule, nonce, first) == data,
{
    assert forall|i: int| 0 <= i < data.len() implies ctr_xor(
        ctr_xor(data, schedule, nonce, first),
        schedule,
        nonce,
        first,
    )[i] == data[i] by {
        lemma_xor_twice(data[i], keystream_byte(schedule, nonce, first, i));
    }
    assert(ctr_xor(ctr_xor(data, schedule, nonce, first), schedule, nonce, first) =~= data);
}

/// Xoring data that ends on a batch and more data after it is xoring the
/// two, the second with the keystream that follows the first.
pub proof fn lemma_ctr_xor_concat(
    a: Seq<u8>,
    b: Seq<u8>,
    schedule: Seq<u64>,
    nonce: u64,
    first: u64,
)
    requires
        a.len() % 64 == 0,
    ensures
        ctr_xor(a + b, schedule, nonce, first) == ctr_xor(a, schedule, nonce, first) + ctr_xor(
            b,
            schedule,
            nonce,
            counter_at(first, 4 * batches_for(a.len() as int)),
        ),
{
    let next = counter_at(first, 4 * batches_for(a.len() as int));
    let whole = ctr_xor(a + b, schedule, nonce, first);
    let parts = ctr_xor(a, schedule, nonce, first) + ctr_xor(b, schedule, nonce, next);
    assert forall|i: int| 0 <= i < whole.len() implies whole[i] == parts[i] by {
        if i >= a.len() {
            let j = i - a.len();
            lemma_keystream_word_shift(schedule, nonce, first, 4 * batches_for(a.len() as int), j / 8);
            assert(i / 8 == 8 * batches_for(a.len() as int) + j / 8);
            assert(i % 8 == j % 8);
        }
    }
    assert(whole =~= parts);
}

/// The eight keystream words of the batch of four blocks that starts at the
/// block with counter `counter`, in the order in which they meet the data.
pub fn keystream_batch(schedule: &[u64; 34], nonce: u64, counter: u64) -> (words: [u64; 8])
    ensures
        forall|w: int|
            0 <= w < 8 ==> words[w] == #[trigger] keystream_word(schedule@, nonce, counter, w),
{
    let input: [u64; 8] = [
        nonce,
        nonce,
        nonce,
        nonce,
        counter,
        counter.wrapping_add(1),
        counter.wrapping_add(2),
        counter.wrapping_add(3),
    ];
    let output = speck_encrypt4(&input, schedule);
    let mut words = [0u64;8];
    let mut w: usize = 0;
    while w < 8
        invariant
            w <= 8,
            output@.len() == 8,
            forall|v: int| 0 <= v < w ==> words[v] == output[KS_ORDER[v] as int],
        decreases 8 - w,
    {
        words[w] = output[KS_ORDER[w]];
        w = w + 1;
    }
    assert forall|w: int| 0 <= w < 8 implies words[w] == #[trigger] keystream_word(
        schedule@,
        nonce,
        counter,
        w,
    ) by {
        let lane = w / 2;
        assert(lane_block(output@, lane) == encrypt_block(lane_block(input@, lane), schedule@));
        assert(lane_block(input@, lane) =~= seq![nonce, counter_at(counter, lane)]);
        assert(words[w] == lane_block(output@, lane)[w % 2]);
    }
    words
}

/// Xors `buffer` with the keystream of `nonce` that starts at the block
/// with counter `first`, a batch of four blocks at a time, and returns the
/// counter that follows the last batch.
pub fn ctr_apply(buffer: &mut Vec<u8>, schedule: &[u64; 34], nonce: u64, first: u64) -> (next: u64)
    ensures
        final(buffer)@ == ctr_xor(old(buffer)@, schedule@, nonce, first),
        next == counter_at(first, 4 * batches_for(old(buffer)@.len() as int)),
{
    let len: usize = buffer.len();
    let batches: usize = len / 64 + (if len % 64 != 0 {
        1usize
    } else {
        0usize
    });
    let mut counter: u64 = first;
    let mut batch: usize = 0;
    proof {
        lemma_counter_at_add(first, 0, 0);
    }
    while batch < batches
        invariant
            batch <= batches,
            batches == batches_for(len as int),
            len == buffer@.len(),
            len == old(buffer)@.len(),
            counter == counter_at(first, 4 * batch),
            forall|p: int|
                0 <= p < len && p < 64 * batch ==> buffer@[p] == old(buffer)@[p] ^ keystream_byte(
                    schedule@,
                    nonce,
                    first,
                    p,
                ),
            forall|p: int| 0 <= p < len && p >= 64 * batch ==> buffer@[p] == old(buffer)@[p],
        decreases batches - batch,
    {
        let words = keystream_batch(schedule, nonce, counter);
        let offset: usize = batch * 64;
        let mut j: usize = 0;
        while j < 64
            invariant
                j <= 64,
                batch < batches,
                batches == batches_for(len as int),
                offset == batch * 64,
                len == buffer@.len(),
                len == old(buffer)@.len(),
                counter == counter_at(first, 4 * batch),
                forall|w: int|
                    0 <= w < 8 ==> words[w] == #[trigger] keystream_word(
                        schedule@,
                        nonce,
                        counter,
                        w,
                    ),
                forall|p: int|
                    0 <= p < len && p < offset + j ==> buffer@[p] == old(buffer)@[p]
                        ^ keystream_byte(schedule@, nonce, first, p),
                forall|p: int| 0 <= p < len && p >= offset + j ==> buffer@[p] == old(buffer)@[p],
            decreases 64 - j,
        {
            let pos: usize = offset + j;
            if pos < len {
                let ks: u64 = words[j / 8];
                proof {
                    assert(ks == keystream_word(schedule@, nonce, counter, j as int / 8));
                    lemma_keystream_word_shift(schedule@, nonce, first, 4 * batch, j as int / 8);
                    assert(pos as int / 8 == 8 * batch + j as int / 8);
                    assert(pos as int % 8 == j as int % 8);
                }
                let byte: u8 = buffer[pos] ^ ((ks >> (((j % 8) * 8) as u64)) as u8);
                buffer[pos] = byte;
            }
            j = j + 1;
        }
        proof {
            lemma_counter_at_add(first, 4 * batch, 4);
        }
        counter = counter.wrapping_add(4);
        batch = batch + 1;
    }
    assert(buffer@ =~= ctr_xor(old(buffer)@, schedule@, nonce, first));
    counter
}

} // verus!
