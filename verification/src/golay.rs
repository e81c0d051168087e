//! The extended binary Golay code (24, 12, 8).
//!
//! A codeword carries twelve data bits in its high half and twelve check
//! bits in its low half. The check bits are a linear function of the data
//! bits, given by the rows of [`GOLAY_MATRIX`]. Any pattern of up to three
//! flipped bits in a codeword is corrected by [`GolayCode::decode`]; this is
//! proved in [`lemma_decode_encode`] and [`lemma_decode_corrects_three`].

use vstd::prelude::*;

verus! {

/// Rows of the parity part of the generator matrix. The matrix is symmetric
/// and is its own inverse over GF(2).
pub const GOLAY_MATRIX: [u32; 12] = [
    0x9f1, 0x4fa, 0x27d, 0x93e, 0xc9d, 0xe4e, 0xf25, 0xf92, 0x7c9, 0x3e6, 0x557, 0xaab,
];

/// Number of one bits among the low `n` bits of `x`.
pub open spec fn ones_below(x: u32, n: u32) -> u32
    decreases n,
{
    if n == 0 {
        0
    } else {
        (ones_below(x, (n - 1) as u32) + ((x >> ((n - 1) as u32)) & 1)) as u32
    }
}

/// Number of one bits of `x`.
pub open spec fn popcount(x: u32) -> u32 {
    ones_below(x, 32)
}

/// Check bits contributed by the first `n` rows of the matrix: row `i`
/// contributes the parity of `x & GOLAY_MATRIX[i]`, the first row ending up
/// in the most significant position.
pub open spec fn checksum_rows(x: u32, n: u32) -> u32
    decreases n,
{
    if n == 0 {
        0
    } else {
        (checksum_rows(x, (n - 1) as u32) << 1) | (popcount(x & GOLAY_MATRIX[n - 1]) & 1)
    }
}

/// The twelve check bits of the data word `x`.
pub open spec fn golay_checksum(x: u32) -> u32 {
    checksum_rows(x, 12)
}

/// The 24-bit codeword of the twelve low bits of `x`.
pub open spec fn golay_encode(x: u32) -> u32 {
    ((x & 0xfff) << 12) | golay_checksum(x)
}

/// Data half of a received word.
pub open spec fn received_data(r: u32) -> u32 {
    (r >> 12) & 0xfff
}

/// Syndrome of a received word: the check bits its data half should have,
/// xored with the check bits it has.
pub open spec fn golay_syndrome(r: u32) -> u32 {
    golay_checksum(received_data(r)) ^ (r & 0xfff)
}

/// Index of the first row at or after `i` that differs from `s` in at most
/// two bits, or 12 if there is none.
pub open spec fn close_row_from(s: u32, i: u32) -> u32
    decreases 12 - i,
{
    if i >= 12 {
        12
    } else if popcount(s ^ GOLAY_MATRIX[i as int]) <= 2 {
        i
    } else {
        close_row_from(s, (i + 1) as u32)
    }
}

/// Index of the first row that differs from `s` in at most two bits, or 12.
pub open spec fn close_row(s: u32) -> u32 {
    close_row_from(s, 0)
}

/// The data word that a received word decodes to, or `None` where the
/// received word is more than three bits away from every codeword that the
/// decoder considers.
pub open spec fn golay_decode(r: u32) -> Option<u32> {
    let d = received_data(r);
    let s = golay_syndrome(r);
    let t = golay_checksum(s);
    if popcount(s) <= 3 {
        Some(d)
    } else if close_row(s) < 12 {
        Some(d ^ (1u32 << ((11 - close_row(s)) as u32)))
    } else if popcount(t) <= 3 {
        Some(d ^ t)
    } else if close_row(t) < 12 {
        Some(d ^ t ^ GOLAY_MATRIX[close_row(t) as int])
    } else {
        None
    }
}

/// Whether decoding `r` changes anything or fails: the syndrome is not zero.
pub open spec fn needs_correction(r: u32) -> bool {
    golay_syndrome(r) != 0
}

/// What `decode` returns for a decoding outcome: the data word, or -1.
pub open spec fn decode_result(o: Option<u32>) -> int {
    match o {
        Some(v) => v as int,
        None => -1,
    }
}

proof fn lemma_count_steps(x: u32)
    by (bit_vector)
    ensures
        ((x >> 1) & 0x5555_5555) <= x,
        ({
            let a = (x - ((x >> 1) & 0x5555_5555)) as u32;
            let b = ((a & 0x3333_3333) + ((a >> 2) & 0x3333_3333)) as u32;
            let c = ((b + (b >> 4)) as u32) & 0x0f0f_0f0f;
            let d = (c + (c >> 8)) as u32;
            let e = (d + (d >> 16)) as u32;
            &&& (a & 0x3333_3333) + ((a >> 2) & 0x3333_3333) <= 0xffff_ffff
            &&& b + (b >> 4) <= 0xffff_ffff
            &&& c + (c >> 8) <= 0xffff_ffff
            &&& d + (d >> 16) <= 0xffff_ffff
            &&& e & 0x3f == ones_below(x, 32)
        }),
{
}

/// A word has at most 32 one bits, and none only if it is zero.
pub proof fn lemma_popcount_range(x: u32)
    by (bit_vector)
    ensures
        ones_below(x, 32) <= 32,
        ones_below(x, 32) == 0 <==> x == 0,
{
}

/// Counts the one bits of `x`.
pub fn count_ones(x: u32) -> (n: u32)
    ensures
        n == popcount(x),
        n <= 32,
{
    proof {
        lemma_count_steps(x);
        lemma_popcount_range(x);
    }
    let a: u32 = x - ((x >> 1) & 0x5555_5555);
    let b: u32 = (a & 0x3333_3333) + ((a >> 2) & 0x3333_3333);
    let c: u32 = (b + (b >> 4)) & 0x0f0f_0f0f;
    let d: u32 = c + (c >> 8);
    let e: u32 = d + (d >> 16);
    e & 0x3f
}

/// Facts about twelve-bit words that the decoder's arithmetic rests on.
proof fn lemma_twelve_bits(r: u32, a: u32, b: u32, i: u32)
    by (bit_vector)
    requires
        a < 0x1000,
        b < 0x1000,
        i < 12,
    ensures
        (r >> 12) & 0xfff < 0x1000,
        r & 0xfff < 0x1000,
        a ^ b < 0x1000,
        a ^ (1u32 << ((11 - i) as u32)) < 0x1000,
{
}

/// Check bit `11 - i` is the parity of the data bits that row `i` selects:
/// the first row gives the most significant check bit.
pub proof fn lemma_checksum_bits(x: u32)
    by (bit_vector)
    ensures
        (golay_checksum(x) >> 11) & 1 == popcount(x & GOLAY_MATRIX[0]) % 2,
        (golay_checksum(x) >> 10) & 1 == popcount(x & GOLAY_MATRIX[1]) % 2,
        (golay_checksum(x) >> 9) & 1 == popcount(x & GOLAY_MATRIX[2]) % 2,
        (golay_checksum(x) >> 8) & 1 == popcount(x & GOLAY_MATRIX[3]) % 2,
        (golay_checksum(x) >> 7) & 1 == popcount(x & GOLAY_MATRIX[4]) % 2,
        (golay_checksum(x) >> 6) & 1 == popcount(x & GOLAY_MATRIX[5]) % 2,
        (golay_checksum(x) >> 5) & 1 == popcount(x & GOLAY_MATRIX[6]) % 2,
        (golay_checksum(x) >> 4) & 1 == popcount(x & GOLAY_MATRIX[7]) % 2,
        (golay_checksum(x) >> 3) & 1 == popcount(x & GOLAY_MATRIX[8]) % 2,
        (golay_checksum(x) >> 2) & 1 == popcount(x & GOLAY_MATRIX[9]) % 2,
        (golay_checksum(x) >> 1) & 1 == popcount(x & GOLAY_MATRIX[10]) % 2,
        (golay_checksum(x) >> 0) & 1 == popcount(x & GOLAY_MATRIX[11]) % 2,
{
}

/// The check bits fit in twelve bits.
pub proof fn lemma_checksum_bound(x: u32)
    ensures
        golay_checksum(x) < 0x1000,
{
    assert(golay_checksum(x) < 0x1000) by (bit_vector);
}

/// Codec state: counters of what `decode` has seen.
pub struct GolayCode {
    /// Number of words given to `decode`.
    pub processed_codewords: i32,
    /// Number of words in which `decode` found and corrected an error.
    pub corrected_codewords: i32,
    /// Number of words that `decode` could not correct.
    pub uncorrectable_codewords: i32,
}

impl GolayCode {
    /// A codec whose counters are all zero.
    pub fn new() -> (gc: Self)
        ensures
            gc.processed_codewords == 0,
            gc.corrected_codewords == 0,
            gc.uncorrectable_codewords == 0,
    {
        GolayCode { processed_codewords: 0, corrected_codewords: 0, uncorrectable_codewords: 0 }
    }

    /// Whether `decode` can be called `n` more times without a counter
    /// leaving the range of its type.
    pub open spec fn has_room(&self, n: int) -> bool {
        &&& self.processed_codewords + n <= i32::MAX
        &&& self.corrected_codewords + n <= i32::MAX
        &&& self.uncorrectable_codewords + n <= i32::MAX
    }

    /// Says whether `decode` can be called `n` more times without a counter
    /// leaving the range of its type.
    pub fn room_for(&self, n: u64) -> (b: bool)
        ensures
            b == self.has_room(n as int),
    {
        if n > u32::MAX as u64 {
            return false;
        }
        let n: i64 = n as i64;
        let max: i64 = i32::MAX as i64;
        self.processed_codewords as i64 + n <= max && self.corrected_codewords as i64 + n <= max
            && self.uncorrectable_codewords as i64 + n <= max
    }

    /// Computes the twelve check bits of `x`.
    pub fn checksum_bits(x: u32) -> (y: u32)
        ensures
            y == golay_checksum(x),
            y < 0x1000,
    {
        let mut y: u32 = 0;
        let mut i: u32 = 0;
        while i < 12
            invariant
                i <= 12,
                y == checksum_rows(x, i),
            decreases 12 - i,
        {
            y = (y << 1) | (count_ones(x & GOLAY_MATRIX[i as usize]) & 1);
            i = i + 1;
        }
        proof {
            lemma_checksum_bound(x);
        }
        y
    }

    /// Takes twelve bits of data, appends the twelve check bits and returns
    /// the 24-bit codeword.
    pub fn encode(&self, x: u32) -> (cw: u32)
        ensures
            cw == golay_encode(x),
    {
        ((x & 0xfff) << 12) | Self::checksum_bits(x)
    }

    /// Looks for the first row within two bits of `s`.
    fn find_close_row(s: u32) -> (i: u32)
        ensures
            i == close_row(s),
            i <= 12,
    {
        let mut i: u32 = 0;
        while i < 12
            invariant
                i <= 12,
                close_row(s) == close_row_from(s, i),
            decreases 12 - i,
        {
            if count_ones(s ^ GOLAY_MATRIX[i as usize]) <= 2 {
                return i;
            }
            i = i + 1;
        }
        i
    }

    /// Takes a 24-bit received word and returns the twelve decoded data
    /// bits, or -1 where the word cannot be corrected. Bits of `x` above the
    /// low 24 are ignored.
    pub fn decode(&mut self, x: u32) -> (r: i32)
        requires
            old(self).has_room(1),
        ensures
            r == decode_result(golay_decode(x)),
            -1 <= r < 0x1000,
            final(self).processed_codewords == old(self).processed_codewords + 1,
            final(self).corrected_codewords == old(self).corrected_codewords + (if golay_decode(x)
                is Some && needs_correction(x) {
                1int
            } else {
                0int
            }),
            final(self).uncorrectable_codewords == old(self).uncorrectable_codewords + (
            if golay_decode(x) is None {
                1int
            } else {
                0int
            }),
    {
        self.processed_codewords = self.processed_codewords + 1;

        let received_data: u32 = (x >> 12) & 0xfff;
        let received_checksum: u32 = x & 0xfff;
        let expected_checksum: u32 = Self::checksum_bits(received_data);
        let syndrome: u32 = expected_checksum ^ received_checksum;
        proof {
            lemma_twelve_bits(x, 0, 0, 0);
            lemma_twelve_bits(x, expected_checksum, received_checksum, 0);
            lemma_popcount_range(syndrome);
        }
        let weight: u32 = count_ones(syndrome);
        if weight <= 3 {
            if weight != 0 {
                self.corrected_codewords = self.corrected_codewords + 1;
            }
            return received_data as i32;
        }
        let i: u32 = Self::find_close_row(syndrome);
        if i < 12 {
            self.corrected_codewords = self.corrected_codewords + 1;
            proof {
                lemma_twelve_bits(x, received_data, received_data, i);
            }
            return (received_data ^ (1u32 << (11 - i))) as i32;
        }
        let inverted_syndrome: u32 = Self::checksum_bits(syndrome);
        proof {
            lemma_twelve_bits(x, received_data, inverted_syndrome, 0);
        }
        if count_ones(inverted_syndrome) <= 3 {
            self.corrected_codewords = self.corrected_codewords + 1;
            return (received_data ^ inverted_syndrome) as i32;
        }
        let j: u32 = Self::find_close_row(inverted_syndrome);
        if j < 12 {
            self.corrected_codewords = self.corrected_codewords + 1;
            proof {
                lemma_twelve_bits(
                    x,
                    received_data ^ inverted_syndrome,
                    GOLAY_MATRIX[j as int],
                    0,
                );
            }
            return (received_data ^ inverted_syndrome ^ GOLAY_MATRIX[j as usize]) as i32;
        }
        self.uncorrectable_codewords = self.uncorrectable_codewords + 1;
        -1
    }
}


// The proofs below work on twelve-bit words. For those, counting the low
// twelve bits is counting all bits, and the bit-vector solver has far less
// to unfold.

/// `checksum_rows` with each parity taken over the low twelve bits only.
spec fn check12_rows(x: u32, n: u32) -> u32
    decreases n,
{
    if n == 0 {
        0
    } else {
        (check12_rows(x, (n - 1) as u32) << 1) | (ones_below(x & GOLAY_MATRIX[n - 1], 12) & 1)
    }
}

spec fn check12(x: u32) -> u32 {
    check12_rows(x, 12)
}

/// The bit that the decoder flips for the first row at or after `i` within
/// two bits of `s`, or 0 if there is no such row.
spec fn flip12_from(s: u32, i: u32) -> u32
    decreases 12 - i,
{
    if i >= 12 {
        0
    } else if ones_below(s ^ GOLAY_MATRIX[i as int], 12) <= 2 {
        1u32 << ((11 - i) as u32)
    } else {
        flip12_from(s, (i + 1) as u32)
    }
}

/// The first row at or after `i` within two bits of `s`, or 0 if there is
/// no such row.
spec fn row12_from(s: u32, i: u32) -> u32
    decreases 12 - i,
{
    if i >= 12 {
        0
    } else if ones_below(s ^ GOLAY_MATRIX[i as int], 12) <= 2 {
        GOLAY_MATRIX[i as int]
    } else {
        row12_from(s, (i + 1) as u32)
    }
}

/// The error in the data half that the decoder infers from a syndrome `s`
/// and its image `t` under the checksum, or all ones where it gives up.
spec fn pattern12(s: u32, t: u32) -> u32 {
    if ones_below(s, 12) <= 3 {
        0
    } else if flip12_from(s, 0) != 0 {
        flip12_from(s, 0)
    } else if ones_below(t, 12) <= 3 {
        t
    } else if row12_from(t, 0) != 0 {
        t ^ row12_from(t, 0)
    } else {
        0xffff_ffff
    }
}

proof fn lemma_check12(x: u32)
    by (bit_vector)
    ensures
        golay_checksum(x) == check12(x),
{
}

proof fn lemma_check12_linear(a: u32, b: u32)
    by (bit_vector)
    ensures
        check12(a ^ b) == check12(a) ^ check12(b),
{
}

proof fn lemma_check12_involution(x: u32)
    by (bit_vector)
    requires
        x < 0x1000,
    ensures
        check12(check12(x)) == x,
{
}

/// With an error `e` in the data half and `f` in the check half, of at
/// most three bits together, the decoder infers `e`.
#[verifier::rlimit(100)]
proof fn lemma_pattern12(e: u32, f: u32)
    by (bit_vector)
    requires
        e < 0x1000,
        f < 0x1000,
        ones_below(e, 12) + ones_below(f, 12) <= 3,
    ensures
        pattern12(check12(e) ^ f, e ^ check12(f)) == e,
{
}

proof fn lemma_xor(a: u32, b: u32, c: u32)
    by (bit_vector)
    ensures
        (a ^ b) ^ (a ^ c) == b ^ c,
        (a ^ b) ^ b == a,
        a ^ b ^ c == a ^ (b ^ c),
        a ^ 0 == a,
        a ^ a == 0,
{
}

/// The two halves of a codeword with the error `m` laid over it.
proof fn lemma_halves(x: u32, c: u32, m: u32)
    by (bit_vector)
    requires
        x < 0x1000,
        c < 0x1000,
        m < 0x100_0000,
    ensures
        (((((x & 0xfff) << 12) | c) ^ m) >> 12) & 0xfff == x ^ (m >> 12),
        ((((x & 0xfff) << 12) | c) ^ m) & 0xfff == c ^ (m & 0xfff),
        ((((x & 0xfff) << 12) | c) >> 12) & 0xfff == x,
        (((x & 0xfff) << 12) | c) & 0xfff == c,
        m >> 12 < 0x1000,
        m & 0xfff < 0x1000,
        ((x & 0xfff) << 12) | c < 0x100_0000,
{
}

/// The weight of a 24-bit word is the sum of the weights of its halves.
proof fn lemma_weight_halves(m: u32)
    by (bit_vector)
    requires
        m < 0x100_0000,
    ensures
        ones_below(m, 32) == ones_below(m >> 12, 12) + ones_below(m & 0xfff, 12),
{
}

proof fn lemma_low12(x: u32, i: u32)
    by (bit_vector)
    requires
        x < 0x1000,
        i < 12,
    ensures
        ones_below(x, 32) == ones_below(x, 12),
        1u32 << ((11 - i) as u32) != 0,
{
}

proof fn lemma_flip12(s: u32, i: u32)
    requires
        s < 0x1000,
        i <= 12,
    ensures
        flip12_from(s, i) == (if close_row_from(s, i) < 12 {
            1u32 << ((11 - close_row_from(s, i)) as u32)
        } else {
            0
        }),
        close_row_from(s, i) < 12 ==> flip12_from(s, i) != 0,
        close_row_from(s, i) <= 12,
    decreases 12 - i,
{
    if i < 12 {
        lemma_twelve_bits(0, s, GOLAY_MATRIX[i as int], i);
        lemma_low12(s ^ GOLAY_MATRIX[i as int], i);
        lemma_flip12(s, (i + 1) as u32);
    }
}

proof fn lemma_row12(s: u32, i: u32)
    requires
        s < 0x1000,
        i <= 12,
    ensures
        row12_from(s, i) == (if close_row_from(s, i) < 12 {
            GOLAY_MATRIX[close_row_from(s, i) as int]
        } else {
            0
        }),
        close_row_from(s, i) < 12 ==> row12_from(s, i) != 0,
        close_row_from(s, i) <= 12,
    decreases 12 - i,
{
    if i < 12 {
        lemma_twelve_bits(0, s, GOLAY_MATRIX[i as int], i);
        lemma_low12(s ^ GOLAY_MATRIX[i as int], i);
        lemma_row12(s, (i + 1) as u32);
    }
}

/// What the decoder returns, given the error that it infers.
proof fn lemma_decode_by_pattern(r: u32, e: u32)
    requires
        e < 0x1000,
        pattern12(golay_syndrome(r), golay_checksum(golay_syndrome(r))) == e,
    ensures
        golay_decode(r) == Some(received_data(r) ^ e),
{
    let d = received_data(r);
    let s = golay_syndrome(r);
    let t = golay_checksum(s);
    lemma_checksum_bound(d);
    lemma_checksum_bound(s);
    lemma_twelve_bits(r, 0, 0, 0);
    lemma_twelve_bits(r, golay_checksum(d), r & 0xfff, 0);
    lemma_low12(s, 0);
    lemma_low12(t, 0);
    lemma_flip12(s, 0);
    lemma_row12(t, 0);
    lemma_xor(d, t, 0);
    if popcount(s) > 3 && close_row(s) == 12 && popcount(t) > 3 && close_row(t) < 12 {
        lemma_xor(d, t, GOLAY_MATRIX[close_row(t) as int]);
    }
}

/// Decoding a codeword gives back its data word, and finds nothing to
/// correct.
pub proof fn lemma_decode_encode(x: u32)
    requires
        x < 0x1000,
    ensures
        golay_decode(golay_encode(x)) == Some(x),
        !needs_correction(golay_encode(x)),
{
    let c = golay_checksum(x);
    lemma_checksum_bound(x);
    lemma_halves(x, c, 0);
    lemma_xor(c, 0, 0);
    lemma_popcount_range(0);
}

/// Decoding a codeword in which up to three of the 24 bits were flipped
/// gives back its data word.
pub proof fn lemma_decode_corrects_three(x: u32, m: u32)
    requires
        x < 0x1000,
        m < 0x100_0000,
        popcount(m) <= 3,
    ensures
        golay_decode(golay_encode(x) ^ m) == Some(x),
{
    let c = golay_checksum(x);
    let r = golay_encode(x) ^ m;
    let e = m >> 12;
    let f = m & 0xfff;
    lemma_checksum_bound(x);
    lemma_halves(x, c, m);
    lemma_weight_halves(m);
    assert(received_data(r) == x ^ e);
    assert(r & 0xfff == c ^ f);
    let s = golay_syndrome(r);
    assert(s == check12(e) ^ f) by {
        lemma_check12(x ^ e);
        lemma_check12(x);
        lemma_check12_linear(x, e);
        lemma_xor(check12(x), check12(e), f);
    }
    assert(golay_checksum(s) == e ^ check12(f)) by {
        lemma_check12(s);
        lemma_check12_linear(check12(e), f);
        lemma_check12_involution(e);
    }
    lemma_pattern12(e, f);
    lemma_decode_by_pattern(r, e);
    lemma_xor(x, e, 0);
}

/// No codeword but zero has fewer than four one bits; and a word of 24
/// bits whose halves are zero is zero.
proof fn lemma_no_light_codeword(e: u32, f: u32, m: u32)
    by (bit_vector)
    ensures
        e < 0x1000 && f < 0x1000 && ones_below(e, 12) + ones_below(f, 12) <= 3 && check12(e) ^ f
            == 0 ==> e == 0 && f == 0,
        check12(0) ^ 0 == 0,
        m < 0x100_0000 && m >> 12 == 0 && m & 0xfff == 0 ==> m == 0,
        0u32 >> 12 == 0 && 0u32 & 0xfff == 0,
{
}

/// A codeword in which up to three of the 24 bits were flipped is counted
/// as corrected if and only if a bit was flipped.
pub proof fn lemma_correction_counted(x: u32, m: u32)
    requires
        x < 0x1000,
        m < 0x100_0000,
        popcount(m) <= 3,
    ensures
        golay_decode(golay_encode(x) ^ m) == Some(x),
        needs_correction(golay_encode(x) ^ m) == (m != 0),
{
    let c = golay_checksum(x);
    let r = golay_encode(x) ^ m;
    let e = m >> 12;
    let f = m & 0xfff;
    lemma_decode_corrects_three(x, m);
    lemma_checksum_bound(x);
    lemma_halves(x, c, m);
    lemma_weight_halves(m);
    assert(received_data(r) == x ^ e);
    assert(r & 0xfff == c ^ f);
    assert(golay_syndrome(r) == check12(e) ^ f) by {
        lemma_check12(x ^ e);
        lemma_check12(x);
        lemma_check12_linear(x, e);
        lemma_xor(check12(x), check12(e), f);
    }
    lemma_no_light_codeword(e, f, m);
}

/// Rounds of the self-test.
pub const SELF_TEST_ROUNDS: u32 = 10_000;

/// The self-test injects from no error up to this many into a codeword.
pub const SELF_TEST_MAX_ERRORS: u32 = 10;

/// Draws that the self-test makes at most to find the bits of one error
/// pattern. Drawing a bit that is already set does not count as an error.
pub const SELF_TEST_MAX_DRAWS: u32 = 1_000;

/// The state that follows `state` in the generator of the self-test, a
/// linear congruential one modulo 2^32.
pub open spec fn random_step(state: u32) -> u32 {
    state.wrapping_mul(1103515245).wrapping_add(12345)
}

/// The fifteen bits that the generator yields in the state `state`: bits 16
/// to 30.
pub open spec fn random_bits(state: u32) -> u32 {
    (state >> 16) & 0x7fff
}

/// Steps the generator of the self-test and returns the fifteen bits that
/// it yields in its new state.
fn next_random(state: &mut u32) -> (r: u32)
    ensures
        *final(state) == random_step(*old(state)),
        r == random_bits(*final(state)),
        r < 0x8000,
{
    *state = state.wrapping_mul(1103515245).wrapping_add(12345);
    let r: u32 = (*state >> 16) & 0x7fff;
    assert((*state >> 16) & 0x7fff < 0x8000) by (bit_vector);
    r
}

proof fn lemma_set_bit(errors: u32, p: u32)
    by (bit_vector)
    requires
        p < 24,
        errors < 0x100_0000,
        errors & (1u32 << p) == 0,
    ensures
        ones_below(errors | (1u32 << p), 32) == ones_below(errors, 32) + 1,
        errors | (1u32 << p) < 0x100_0000,
{
}

/// Encodes random words, flips up to ten random bits in each codeword and
/// decodes it, ten thousand times over. Says whether every codeword with
/// up to three bits flipped decoded to its word: it always does.
pub fn self_test() -> (ok: bool)
    ensures
        ok,
{
    let mut gc = GolayCode::new();
    let mut state: u32 = 12345;
    let mut i: u32 = 0;
    while i < SELF_TEST_ROUNDS
        invariant
            i <= SELF_TEST_ROUNDS,
            0 <= gc.processed_codewords <= 11 * i,
            0 <= gc.corrected_codewords <= 11 * i,
            0 <= gc.uncorrectable_codewords <= 11 * i,
        decreases SELF_TEST_ROUNDS - i,
    {
        let mut j: u32 = 0;
        while j <= SELF_TEST_MAX_ERRORS
            invariant
                i < SELF_TEST_ROUNDS,
                j <= SELF_TEST_MAX_ERRORS + 1,
                0 <= gc.processed_codewords <= 11 * i + j,
                0 <= gc.corrected_codewords <= 11 * i + j,
                0 <= gc.uncorrectable_codewords <= 11 * i + j,
            decreases SELF_TEST_MAX_ERRORS + 1 - j,
        {
            let r: u32 = next_random(&mut state);
            let x: u32 = r & 0xfff;
            proof {
                lemma_twelve_bits(r, 0, 0, 0);
            }
            let y: u32 = gc.encode(x);
            let mut errors: u32 = 0;
            let mut k: u32 = 0;
            let mut draws: u32 = 0;
            proof {
                lemma_popcount_range(0);
            }
            while k < j && draws < SELF_TEST_MAX_DRAWS
                invariant
                    k <= j,
                    draws <= SELF_TEST_MAX_DRAWS,
                    errors < 0x100_0000,
                    popcount(errors) == k,
                decreases SELF_TEST_MAX_DRAWS - draws,
            {
                let p: u32 = next_random(&mut state) % 24;
                let bit: u32 = 1u32 << p;
                if errors & bit == 0 {
                    proof {
                        lemma_set_bit(errors, p);
                    }
                    errors = errors | bit;
                    k = k + 1;
                }
                draws = draws + 1;
            }
            proof {
                if j < 4 {
                    lemma_decode_corrects_three(x, errors);
                }
            }
            let z: i32 = gc.decode(y ^ errors);
            if j < 4 && (z < 0 || z as u32 != x) {
                return false;
            }
            j = j + 1;
        }
        i = i + 1;
    }
    true
}

} // verus!
