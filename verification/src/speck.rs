//! The Speck block cipher with a 128-bit block and a 256-bit key.
//!
//! A block is two 64-bit words. Encryption runs 34 rounds of add, rotate
//! and xor, one round key each; the round keys come from running the same
//! round function over the four key words.

use vstd::prelude::*;
use crate::known_answer::{lemma_known_answer, TEST_CIPHERTEXT, TEST_KEY, TEST_PLAINTEXT};

verus! {

/// Number of rounds, and of round keys.
pub const SPECK_ROUNDS: usize = 34;

/// `x` rotated right by eight bits.
pub open spec fn rotate_right_8(x: u64) -> u64 {
    (x >> 8) | (x << 56)
}

/// `x` rotated left by eight bits.
pub open spec fn rotate_left_8(x: u64) -> u64 {
    (x << 8) | (x >> 56)
}

/// `y` rotated left by three bits.
pub open spec fn rotate_left_3(y: u64) -> u64 {
    (y << 3) | (y >> 61)
}

/// `y` rotated right by three bits.
pub open spec fn rotate_right_3(y: u64) -> u64 {
    (y >> 3) | (y << 61)
}

/// First word after one round on `(x, y)` with round key `k`.
pub open spec fn round_x(x: u64, y: u64, k: u64) -> u64 {
    rotate_right_8(x).wrapping_add(y) ^ k
}

/// Second word after one round on `(x, y)` with round key `k`.
pub open spec fn round_y(x: u64, y: u64, k: u64) -> u64 {
    rotate_left_3(y) ^ round_x(x, y, k)
}

/// Second word before a round with key `k` that ended in `(x, y)`.
pub open spec fn unround_y(x: u64, y: u64) -> u64 {
    rotate_right_3(y ^ x)
}

/// First word before a round with key `k` that ended in `(x, y)`.
pub open spec fn unround_x(x: u64, y: u64, k: u64) -> u64 {
    rotate_left_8((x ^ k).wrapping_sub(unround_y(x, y)))
}

/// The round function is undone by its inverse.
pub proof fn lemma_unround_round(x: u64, y: u64, k: u64)
    by (bit_vector)
    ensures
        unround_x(round_x(x, y, k), round_y(x, y, k), k) == x,
        unround_y(round_x(x, y, k), round_y(x, y, k)) == y,
{
}

/// One round of the cipher, in place.
pub fn speck_round(x: &mut u64, y: &mut u64, k: u64)
    ensures
        *final(x) == round_x(*old(x), *old(y), k),
        *final(y) == round_y(*old(x), *old(y), k),
{
    *x = (*x >> 8) | (*x << 56);
    *x = x.wrapping_add(*y);
    *x = *x ^ k;
    *y = (*y << 3) | (*y >> 61);
    *y = *y ^ *x;
}

/// One round of the cipher, undone in place.
pub fn speck_unround(x: &mut u64, y: &mut u64, k: u64)
    ensures
        *final(x) == unround_x(*old(x), *old(y), k),
        *final(y) == unround_y(*old(x), *old(y)),
{
    *y = *y ^ *x;
    *y = (*y >> 3) | (*y << 61);
    *x = *x ^ k;
    *x = x.wrapping_sub(*y);
    *x = (*x << 8) | (*x >> 56);
}

/// The key expansion after `i` rounds: the word that becomes round key
/// `i`, and the three words that the rounds cycle through.
pub open spec fn expand_state(key: Seq<u64>, i: nat) -> (u64, Seq<u64>)
    decreases i,
{
    if i == 0 {
        (key[0], key.subrange(1, 4))
    } else {
        let prev = expand_state(key, (i - 1) as nat);
        let j = (i - 1) % 3;
        let k = (i - 1) as u64;
        (round_y(prev.1[j], prev.0, k), prev.1.update(j, round_x(prev.1[j], prev.0, k)))
    }
}

/// Round key `i` of the four-word key `key`.
pub open spec fn round_key(key: Seq<u64>, i: nat) -> u64 {
    expand_state(key, i).0
}

/// The 34 round keys of the four-word key `key`.
pub open spec fn key_schedule(key: Seq<u64>) -> Seq<u64> {
    Seq::new(SPECK_ROUNDS as nat, |i: int| round_key(key, i as nat))
}

/// The pair `(x, y)` after the first `n` rounds with the keys of `schedule`.
pub open spec fn encrypt_state(x: u64, y: u64, schedule: Seq<u64>, n: nat) -> (u64, u64)
    decreases n,
{
    if n == 0 {
        (x, y)
    } else {
        let prev = encrypt_state(x, y, schedule, (n - 1) as nat);
        (round_x(prev.0, prev.1, schedule[n - 1]), round_y(prev.0, prev.1, schedule[n - 1]))
    }
}

/// The pair `(x, y)` after undoing rounds `n - 1` down to 0.
pub open spec fn decrypt_state(x: u64, y: u64, schedule: Seq<u64>, n: nat) -> (u64, u64)
    decreases n,
{
    if n == 0 {
        (x, y)
    } else {
        decrypt_state(
            unround_x(x, y, schedule[n - 1]),
            unround_y(x, y),
            schedule,
            (n - 1) as nat,
        )
    }
}

/// The ciphertext block of the plaintext block `block`. The second word of
/// a block enters the rounds as `x`, the first as `y`, and they leave in
/// the same places.
pub open spec fn encrypt_block(block: Seq<u64>, schedule: Seq<u64>) -> Seq<u64> {
    let st = encrypt_state(block[1], block[0], schedule, SPECK_ROUNDS as nat);
    seq![st.1, st.0]
}

/// The plaintext block of the ciphertext block `block`.
pub open spec fn decrypt_block(block: Seq<u64>, schedule: Seq<u64>) -> Seq<u64> {
    let st = decrypt_state(block[1], block[0], schedule, SPECK_ROUNDS as nat);
    seq![st.1, st.0]
}

/// Undoing `n` rounds after running them gives back the pair that they
/// started from.
pub proof fn lemma_decrypt_state_encrypt_state(x: u64, y: u64, schedule: Seq<u64>, n: nat)
    ensures
        ({
            let st = encrypt_state(x, y, schedule, n);
            decrypt_state(st.0, st.1, schedule, n) == (x, y)
        }),
    decreases n,
{
    if n > 0 {
        let prev = encrypt_state(x, y, schedule, (n - 1) as nat);
        lemma_unround_round(prev.0, prev.1, schedule[n - 1]);
        lemma_decrypt_state_encrypt_state(x, y, schedule, (n - 1) as nat);
    }
}

/// Decryption undoes encryption: for every block and every schedule, and so
/// for the schedule of every key.
pub proof fn lemma_decrypt_encrypt(block: Seq<u64>, schedule: Seq<u64>)
    requires
        block.len() == 2,
    ensures
        decrypt_block(encrypt_block(block, schedule), schedule) == block,
{
    lemma_decrypt_state_encrypt_state(block[1], block[0], schedule, SPECK_ROUNDS as nat);
    assert(decrypt_block(encrypt_block(block, schedule), schedule) =~= block);
}

/// Decryption undoes encryption under every key.
pub proof fn lemma_decrypt_encrypt_under_key(block: Seq<u64>, key: Seq<u64>)
    requires
        block.len() == 2,
    ensures
        decrypt_block(encrypt_block(block, key_schedule(key)), key_schedule(key)) == block,
{
    lemma_decrypt_encrypt(block, key_schedule(key));
}

/// Expands the four key words into the 34 round keys.
pub fn speck_schedule(key: &[u64; 4]) -> (schedule: [u64; 34])
    ensures
        schedule@ == key_schedule(key@),
{
    let mut schedule = [0u64;34];
    let mut a: u64 = key[0];
    let mut bcd: [u64; 3] = [key[1], key[2], key[3]];
    assert(bcd@ =~= key@.subrange(1, 4));
    let mut i: u64 = 0;
    while i < 33
        invariant
            i <= 33,
            a == round_key(key@, i as nat),
            bcd@ == expand_state(key@, i as nat).1,
            forall|j: int| 0 <= j < i ==> schedule[j] == round_key(key@, j as nat),
        decreases 33 - i,
    {
        schedule[i as usize] = a;
        let idx: usize = (i % 3) as usize;
        let mut l: u64 = bcd[idx];
        speck_round(&mut l, &mut a, i);
        bcd[idx] = l;
        i = i + 1;
    }
    schedule[33] = a;
    assert(schedule@ =~= key_schedule(key@));
    schedule
}

/// Encrypts one block.
pub fn speck_encrypt(plaintext: &[u64; 2], schedule: &[u64; 34]) -> (ciphertext: [u64; 2])
    ensures
        ciphertext@ == encrypt_block(plaintext@, schedule@),
{
    let mut x: u64 = plaintext[1];
    let mut y: u64 = plaintext[0];
    let mut i: usize = 0;
    while i < 34
        invariant
            i <= 34,
            (x, y) == encrypt_state(plaintext[1], plaintext[0], schedule@, i as nat),
        decreases 34 - i,
    {
        speck_round(&mut x, &mut y, schedule[i]);
        i = i + 1;
    }
    let ciphertext = [y, x];
    assert(ciphertext@ =~= encrypt_block(plaintext@, schedule@));
    ciphertext
}

/// Decrypts one block.
pub fn speck_decrypt(ciphertext: &[u64; 2], schedule: &[u64; 34]) -> (plaintext: [u64; 2])
    ensures
        plaintext@ == decrypt_block(ciphertext@, schedule@),
{
    let mut x: u64 = ciphertext[1];
    let mut y: u64 = ciphertext[0];
    let mut i: usize = 34;
    while i > 0
        invariant
            i <= 34,
            decrypt_state(x, y, schedule@, i as nat) == decrypt_state(
                ciphertext[1],
                ciphertext[0],
                schedule@,
                34,
            ),
        decreases i,
    {
        i = i - 1;
        speck_unround(&mut x, &mut y, schedule[i]);
    }
    let plaintext = [y, x];
    assert(plaintext@ =~= decrypt_block(ciphertext@, schedule@));
    plaintext
}

/// Block `lane` of a batch of four: word `lane` and word `lane + 4`.
pub open spec fn lane_block(words: Seq<u64>, lane: int) -> Seq<u64> {
    seq![words[lane], words[lane + 4]]
}

/// Encrypts four blocks at once. Block `i` is made of word `i` and word
/// `i + 4`, on the way in and on the way out.
pub fn speck_encrypt4(plaintext: &[u64; 8], schedule: &[u64; 34]) -> (ciphertext: [u64; 8])
    ensures
        forall|lane: int|
            0 <= lane < 4 ==> #[trigger] lane_block(ciphertext@, lane) == encrypt_block(
                lane_block(plaintext@, lane),
                schedule@,
            ),
{
    let mut ct: [u64; 8] = *plaintext;
    assert forall|j: int| 0 <= j < 4 implies #[trigger] lane_block(ct@, j) == lane_block(
        plaintext@,
        j,
    ) by {
        assert(lane_block(ct@, j) =~= lane_block(plaintext@, j));
    }
    let mut lane: usize = 0;
    while lane < 4
        invariant
            lane <= 4,
            forall|j: int|
                lane <= j < 4 ==> #[trigger] lane_block(ct@, j) == lane_block(plaintext@, j),
            forall|j: int|
                0 <= j < lane ==> #[trigger] lane_block(ct@, j) == encrypt_block(
                    lane_block(plaintext@, j),
                    schedule@,
                ),
        decreases 4 - lane,
    {
        let block: [u64; 2] = [ct[lane], ct[lane + 4]];
        assert(block@ =~= lane_block(ct@, lane as int));
        let out = speck_encrypt(&block, schedule);
        let ghost before = ct@;
        ct[lane] = out[0];
        ct[lane + 4] = out[1];
        assert(lane_block(ct@, lane as int) =~= out@);
        assert forall|j: int| 0 <= j < lane implies #[trigger] lane_block(ct@, j) == encrypt_block(
            lane_block(plaintext@, j),
            schedule@,
        ) by {
            assert(lane_block(ct@, j) =~= lane_block(before, j));
        }
        assert forall|j: int| lane < j < 4 implies #[trigger] lane_block(ct@, j) == lane_block(
            plaintext@,
            j,
        ) by {
            assert(lane_block(ct@, j) =~= lane_block(before, j));
        }
        lane = lane + 1;
    }
    ct
}

/// The word whose little-endian bytes are `bytes`, followed by zeros.
pub open spec fn le_word(bytes: Seq<u8>) -> u64
    decreases bytes.len(),
{
    if bytes.len() == 0 {
        0
    } else {
        le_word(bytes.drop_last()) | ((bytes.last() as u64) << (((bytes.len() - 1) * 8) as u64))
    }
}

/// Reads up to eight bytes as a little-endian word.
pub fn bytes_to_uint64(bytes: &[u8]) -> (w: u64)
    requires
        bytes@.len() <= 8,
    ensures
        w == le_word(bytes@),
{
    let mut w: u64 = 0;
    let mut i: usize = 0;
    while i < bytes.len()
        invariant
            i <= bytes@.len() <= 8,
            w == le_word(bytes@.take(i as int)),
        decreases bytes@.len() - i,
    {
        assert(bytes@.take(i + 1).drop_last() =~= bytes@.take(i as int));
        w = w | ((bytes[i] as u64) << ((i * 8) as u64));
        i = i + 1;
    }
    assert(bytes@.take(i as int) =~= bytes@);
    w
}

/// The little-endian word of eight bytes, written out.
pub proof fn lemma_le_word_eight(bytes: Seq<u8>)
    requires
        bytes.len() == 8,
    ensures
        le_word(bytes) == 0 | (bytes[0] as u64) << 0 | (bytes[1] as u64) << 8 | (bytes[2] as u64)
            << 16 | (bytes[3] as u64) << 24 | (bytes[4] as u64) << 32 | (bytes[5] as u64) << 40 | (
        bytes[6] as u64) << 48 | (bytes[7] as u64) << 56,
{
    let s7 = bytes.drop_last();
    let s6 = s7.drop_last();
    let s5 = s6.drop_last();
    let s4 = s5.drop_last();
    let s3 = s4.drop_last();
    let s2 = s3.drop_last();
    let s1 = s2.drop_last();
    let s0 = s1.drop_last();
    assert(le_word(s0) == 0);
    assert(le_word(s1) == le_word(s0) | ((s1.last() as u64) << 0));
    assert(le_word(s2) == le_word(s1) | ((s2.last() as u64) << 8));
    assert(le_word(s3) == le_word(s2) | ((s3.last() as u64) << 16));
    assert(le_word(s4) == le_word(s3) | ((s4.last() as u64) << 24));
    assert(le_word(s5) == le_word(s4) | ((s5.last() as u64) << 32));
    assert(le_word(s6) == le_word(s5) | ((s6.last() as u64) << 40));
    assert(le_word(s7) == le_word(s6) | ((s7.last() as u64) << 48));
    assert(le_word(bytes) == le_word(s7) | ((bytes.last() as u64) << 56));
}

/// Number of password bytes that enter the key.
pub const KEY_BYTES: usize = 32;

/// The bytes of `password` that make up key word `i`: eight bytes from
/// offset `8 * i`, or fewer where the password, cut to 32 bytes, ends.
pub open spec fn key_word_bytes(password: Seq<u8>, i: int) -> Seq<u8> {
    let n = if password.len() < KEY_BYTES {
        password.len() as int
    } else {
        KEY_BYTES as int
    };
    let from = if 8 * i < n {
        8 * i
    } else {
        n
    };
    let to = if 8 * i + 8 < n {
        8 * i + 8
    } else {
        n
    };
    password.subrange(from, to)
}

/// The four key words of a password: its first 32 bytes, padded with
/// zeros, read as little-endian words.
pub open spec fn password_key(password: Seq<u8>) -> Seq<u64> {
    Seq::new(4, |i: int| le_word(key_word_bytes(password, i)))
}

/// Turns a password into the four key words. Bytes after the first 32 are
/// not used.
pub fn key_from_password(password: &[u8]) -> (key: [u64; 4])
    ensures
        key@ == password_key(password@),
{
    let mut key = [0u64;4];
    let n: usize = if password.len() < KEY_BYTES {
        password.len()
    } else {
        KEY_BYTES
    };
    let mut i: usize = 0;
    while i < 4
        invariant
            i <= 4,
            n <= 32,
            n <= password@.len(),
            n == (if password@.len() < KEY_BYTES {
                password@.len() as int
            } else {
                KEY_BYTES as int
            }),
            forall|j: int| 0 <= j < i ==> key[j] == le_word(key_word_bytes(password@, j)),
        decreases 4 - i,
    {
        let from: usize = if 8 * i < n {
            8 * i
        } else {
            n
        };
        let to: usize = if 8 * i + 8 < n {
            8 * i + 8
        } else {
            n
        };
        let word = bytes_to_uint64(vstd::slice::slice_subrange(password, from, to));
        key[i] = word;
        i = i + 1;
    }
    assert(key@ =~= password_key(password@));
    key
}

/// The sixteen bytes of the test block: `pooner. In those`.
pub const TEST_TEXT: [u8; 16] = [
    0x70, 0x6f, 0x6f, 0x6e, 0x65, 0x72, 0x2e, 0x20, 0x49, 0x6e, 0x20, 0x74, 0x68, 0x6f, 0x73, 0x65,
];

proof fn lemma_test_words()
    by (bit_vector)
    ensures
        0 | (0x70u8 as u64) << 0 | (0x6fu8 as u64) << 8 | (0x6fu8 as u64) << 16 | (0x6eu8 as u64)
            << 24 | (0x65u8 as u64) << 32 | (0x72u8 as u64) << 40 | (0x2eu8 as u64) << 48 | (
        0x20u8 as u64) << 56 == 0x202e_7265_6e6f_6f70,
        0 | (0x49u8 as u64) << 0 | (0x6eu8 as u64) << 8 | (0x20u8 as u64) << 16 | (0x74u8 as u64)
            << 24 | (0x68u8 as u64) << 32 | (0x6fu8 as u64) << 40 | (0x73u8 as u64) << 48 | (
        0x65u8 as u64) << 56 == 0x6573_6f68_7420_6e49,
{
}

/// The bytes of the test block read as its two words.
pub proof fn lemma_test_text()
    ensures
        le_word(TEST_TEXT@.subrange(0, 8)) == TEST_PLAINTEXT[0],
        le_word(TEST_TEXT@.subrange(8, 16)) == TEST_PLAINTEXT[1],
{
    lemma_le_word_eight(TEST_TEXT@.subrange(0, 8));
    lemma_le_word_eight(TEST_TEXT@.subrange(8, 16));
    lemma_test_words();
}

/// Encrypts the test block under the test key and reads the test text as
/// words. Says whether both gave the known answers: they always do.
pub fn self_test() -> (ok: bool)
    ensures
        ok,
{
    let schedule = speck_schedule(&TEST_KEY);
    let observed = speck_encrypt(&TEST_PLAINTEXT, &schedule);
    proof {
        lemma_known_answer();
    }
    if TEST_CIPHERTEXT[0] != observed[0] || TEST_CIPHERTEXT[1] != observed[1] {
        return false;
    }
    let text = TEST_TEXT.as_slice();
    let first = bytes_to_uint64(vstd::slice::slice_subrange(text, 0, 8));
    let second = bytes_to_uint64(vstd::slice::slice_subrange(text, 8, 16));
    proof {
        lemma_test_text();
    }
    if TEST_PLAINTEXT[0] != first || TEST_PLAINTEXT[1] != second {
        return false;
    }
    true
}

} // verus!
