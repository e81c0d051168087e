//! Striping of twelve-byte blocks over eight slices.
//!
//! A block of twelve bytes is read as eight bit planes of twelve bits. Each
//! plane is encoded into a 24-bit codeword, and the eight codewords are laid
//! out as 24 bytes, bit `i` of byte `p` being bit `p` of codeword `i`. Slice
//! `k` of the eight receives bytes `3k`, `3k + 1` and `3k + 2`. A slice
//! therefore carries three bits of every codeword, and the loss of one
//! slice is three errors per codeword, which the code corrects.

use vstd::prelude::*;
use crate::golay::{
    golay_decode, golay_encode, needs_correction, ones_below, popcount, GolayCode,
};

verus! {

/// Number of slices.
pub const SLICES: usize = 8;

/// Bytes in a block.
pub const BLOCK_BYTES: usize = 12;

/// Bytes in the group of a block: three for each slice.
pub const GROUP_BYTES: usize = 24;

/// Bit `i` of `x`, as 0 or 1.
pub open spec fn bit(x: u32, i: u32) -> u32 {
    (x >> i) & 1
}

/// The word whose bit `j`, for `j < n`, is bit `k` of `elems[j]`, and whose
/// other bits are zero.
pub open spec fn column(elems: Seq<u32>, k: u32, n: nat) -> u32
    decreases n,
{
    if n == 0 {
        0
    } else {
        column(elems, k, (n - 1) as nat) | (bit(elems[n - 1], k) << ((n - 1) as u32))
    }
}

/// The bytes of `bytes`, each as a 32-bit word.
pub open spec fn widen(bytes: Seq<u8>) -> Seq<u32> {
    Seq::new(bytes.len(), |i: int| bytes[i] as u32)
}

/// The eight bit planes of a block: bit `j` of plane `i` is bit `i` of
/// byte `j`.
pub open spec fn plane_words(block: Seq<u8>) -> Seq<u32> {
    Seq::new(SLICES as nat, |i: int| column(widen(block), i as u32, BLOCK_BYTES as nat))
}

/// The codewords of the eight bit planes of a block.
pub open spec fn code_words(block: Seq<u8>) -> Seq<u32> {
    Seq::new(SLICES as nat, |i: int| golay_encode(plane_words(block)[i]))
}

/// The group of 24 bytes that a block is encoded into: bit `i` of byte `p`
/// is bit `p` of the codeword of plane `i`.
pub open spec fn encode_block(block: Seq<u8>) -> Seq<u8> {
    Seq::new(GROUP_BYTES as nat, |p: int| column(code_words(block), p as u32, SLICES as nat) as u8)
}

/// The eight words received in a group: bit `p` of word `i` is bit `i` of
/// byte `p`.
pub open spec fn received_words(group: Seq<u8>) -> Seq<u32> {
    Seq::new(SLICES as nat, |i: int| column(widen(group), i as u32, GROUP_BYTES as nat))
}

/// The plane that a received word is taken for: what it decodes to, or all
/// ones where it cannot be corrected.
pub open spec fn decoded_plane(r: u32) -> u32 {
    match golay_decode(r) {
        Some(v) => v,
        None => 0xfff,
    }
}

/// The eight planes decoded from a group.
pub open spec fn decoded_planes(group: Seq<u8>) -> Seq<u32> {
    Seq::new(SLICES as nat, |i: int| decoded_plane(received_words(group)[i]))
}

/// The block that a group of 24 bytes is decoded into.
pub open spec fn decode_block(group: Seq<u8>) -> Seq<u8> {
    Seq::new(
        BLOCK_BYTES as nat,
        |j: int| column(decoded_planes(group), j as u32, SLICES as nat) as u8,
    )
}

/// Number of words among the first `n` of `words` in which the decoder
/// finds an error and corrects it.
pub open spec fn corrected_among(words: Seq<u32>, n: nat) -> nat
    decreases n,
{
    if n == 0 {
        0
    } else {
        corrected_among(words, (n - 1) as nat) + (if golay_decode(words[n - 1]) is Some
            && needs_correction(words[n - 1]) {
            1nat
        } else {
            0nat
        })
    }
}

/// Number of words among the first `n` of `words` that the decoder cannot
/// correct.
pub open spec fn failed_among(words: Seq<u32>, n: nat) -> nat
    decreases n,
{
    if n == 0 {
        0
    } else {
        failed_among(words, (n - 1) as nat) + (if golay_decode(words[n - 1]) is None {
            1nat
        } else {
            0nat
        })
    }
}

/// Collects bit `k` of each word of `elems` into one word.
fn gather(elems: &[u32], k: u32) -> (w: u32)
    requires
        elems@.len() <= 32,
        k < 32,
    ensures
        w == column(elems@, k, elems@.len()),
{
    let mut w: u32 = 0;
    let mut j: usize = 0;
    while j < elems.len()
        invariant
            j <= elems@.len() <= 32,
            k < 32,
            w == column(elems@, k, j as nat),
        decreases elems@.len() - j,
    {
        w = w | (((elems[j] >> k) & 1) << (j as u32));
        j = j + 1;
    }
    w
}

/// Encodes a block of twelve bytes into its group of 24 bytes.
pub fn encode_block_bytes(block: &[u8; 12], gc: &GolayCode) -> (group: [u8; 24])
    ensures
        group@ == encode_block(block@),
{
    let mut wide = [0u32;12];
    let mut j: usize = 0;
    while j < 12
        invariant
            j <= 12,
            forall|q: int| 0 <= q < j ==> wide[q] == block[q] as u32,
        decreases 12 - j,
    {
        wide[j] = block[j] as u32;
        j = j + 1;
    }
    assert(wide@ =~= widen(block@));
    let mut words = [0u32;8];
    let mut i: usize = 0;
    while i < 8
        invariant
            i <= 8,
            wide@ == widen(block@),
            forall|q: int| 0 <= q < i ==> words[q] == code_words(block@)[q],
        decreases 8 - i,
    {
        let plane = gather(wide.as_slice(), i as u32);
        words[i] = gc.encode(plane);
        i = i + 1;
    }
    assert(words@ =~= code_words(block@));
    let mut group = [0u8;24];
    let mut p: usize = 0;
    while p < 24
        invariant
            p <= 24,
            words@ == code_words(block@),
            forall|q: int| 0 <= q < p ==> group[q] == encode_block(block@)[q],
        decreases 24 - p,
    {
        group[p] = gather(words.as_slice(), p as u32) as u8;
        p = p + 1;
    }
    assert(group@ =~= encode_block(block@));
    group
}

/// Decodes a group of 24 bytes into its block of twelve bytes, and counts
/// in `gc` what the decoder found in the eight words.
pub fn decode_block_bytes(group: &[u8; 24], gc: &mut GolayCode) -> (block: [u8; 12])
    requires
        old(gc).has_room(8),
    ensures
        block@ == decode_block(group@),
        final(gc).processed_codewords == old(gc).processed_codewords + 8,
        final(gc).corrected_codewords == old(gc).corrected_codewords + corrected_among(
            received_words(group@),
            8,
        ),
        final(gc).uncorrectable_codewords == old(gc).uncorrectable_codewords + failed_among(
            received_words(group@),
            8,
        ),
{
    let mut wide = [0u32;24];
    let mut p: usize = 0;
    while p < 24
        invariant
            p <= 24,
            forall|q: int| 0 <= q < p ==> wide[q] == group[q] as u32,
        decreases 24 - p,
    {
        wide[p] = group[p] as u32;
        p = p + 1;
    }
    assert(wide@ =~= widen(group@));
    let mut planes = [0u32;8];
    let mut i: usize = 0;
    while i < 8
        invariant
            i <= 8,
            wide@ == widen(group@),
            forall|q: int| 0 <= q < i ==> planes[q] == decoded_planes(group@)[q],
            old(gc).has_room(8),
            gc.processed_codewords == old(gc).processed_codewords + i,
            gc.corrected_codewords == old(gc).corrected_codewords + corrected_among(
                received_words(group@),
                i as nat,
            ),
            gc.uncorrectable_codewords == old(gc).uncorrectable_codewords + failed_among(
                received_words(group@),
                i as nat,
            ),
            corrected_among(received_words(group@), i as nat) <= i,
            failed_among(received_words(group@), i as nat) <= i,
        decreases 8 - i,
    {
        let word = gather(wide.as_slice(), i as u32);
        let x = gc.decode(word);
        planes[i] = if x < 0 {
            0xfff
        } else {
            x as u32
        };
        i = i + 1;
    }
    assert(planes@ =~= decoded_planes(group@));
    let mut block = [0u8;12];
    let mut j: usize = 0;
    while j < 12
        invariant
            j <= 12,
            planes@ == decoded_planes(group@),
            forall|q: int| 0 <= q < j ==> block[q] == decode_block(group@)[q],
        decreases 12 - j,
    {
        block[j] = gather(planes.as_slice(), j as u32) as u8;
        j = j + 1;
    }
    assert(block@ =~= decode_block(group@));
    block
}

/// Number of groups that `len` bytes fill: one for every twelve bytes and
/// one for what is left.
pub open spec fn groups_for(len: int) -> int {
    (len + 11) / 12
}

/// Block `b` of `data`: twelve bytes from offset `12 * b`, with zeros after
/// the end of the data.
pub open spec fn padded_block(data: Seq<u8>, b: int) -> Seq<u8> {
    Seq::new(
        BLOCK_BYTES as nat,
        |j: int|
            if 12 * b + j < data.len() {
                data[12 * b + j]
            } else {
                0u8
            },
    )
}

/// What slice `k` receives for `data`: three bytes of the group of each
/// block.
pub open spec fn slice_part(data: Seq<u8>, k: int) -> Seq<u8> {
    Seq::new(
        (3 * groups_for(data.len() as int)) as nat,
        |i: int| encode_block(padded_block(data, i / 3))[3 * k + i % 3],
    )
}

/// Byte `i` of part `k`, or zero where that slice is missing.
pub open spec fn part_byte(parts: Seq<Option<Seq<u8>>>, k: int, i: int) -> u8 {
    match parts[k] {
        Some(bytes) => bytes[i],
        None => 0u8,
    }
}

/// Group `g` as read from the parts: three bytes from each, zeros for a
/// missing one.
pub open spec fn group_at(parts: Seq<Option<Seq<u8>>>, g: int) -> Seq<u8> {
    Seq::new(GROUP_BYTES as nat, |p: int| part_byte(parts, p / 3, 3 * g + p % 3))
}

/// The `len` bytes decoded from the parts.
pub open spec fn decoded_bytes(parts: Seq<Option<Seq<u8>>>, len: int) -> Seq<u8> {
    Seq::new(len as nat, |i: int| decode_block(group_at(parts, i / 12))[i % 12])
}

/// Whether every part that is there holds the groups of `len` bytes.
pub open spec fn parts_cover(parts: Seq<Option<Seq<u8>>>, len: int) -> bool {
    forall|k: int|
        0 <= k < parts.len() ==> (#[trigger] parts[k] matches Some(bytes) ==> bytes.len() >= 3
            * groups_for(len))
}

/// Number of words in the first `n` groups in which the decoder finds an
/// error and corrects it.
pub open spec fn corrected_in(parts: Seq<Option<Seq<u8>>>, n: nat) -> nat
    decreases n,
{
    if n == 0 {
        0
    } else {
        corrected_in(parts, (n - 1) as nat) + corrected_among(
            received_words(group_at(parts, n - 1)),
            8,
        )
    }
}

/// Number of words in the first `n` groups that the decoder cannot correct.
pub open spec fn failed_in(parts: Seq<Option<Seq<u8>>>, n: nat) -> nat
    decreases n,
{
    if n == 0 {
        0
    } else {
        failed_in(parts, (n - 1) as nat) + failed_among(received_words(group_at(parts, n - 1)), 8)
    }
}

/// The parts as sequences of bytes.
pub open spec fn parts_view(parts: Seq<Option<Vec<u8>>>) -> Seq<Option<Seq<u8>>> {
    Seq::new(
        parts.len(),
        |k: int|
            match parts[k] {
                Some(v) => Some(v@),
                None => None,
            },
    )
}

/// Eight parts that hold nothing yet.
pub fn empty_parts() -> (parts: [Vec<u8>; 8])
    ensures
        forall|k: int| 0 <= k < 8 ==> (#[trigger] parts[k])@ == Seq::<u8>::empty(),
{
    [
        Vec::new(),
        Vec::new(),
        Vec::new(),
        Vec::new(),
        Vec::new(),
        Vec::new(),
        Vec::new(),
        Vec::new(),
    ]
}

/// Encodes `data` block by block and appends to each of the eight slices
/// its three bytes of every group. The last block is filled up with zeros.
pub fn encode_chunk(data: &[u8], slices: &mut [Vec<u8>; 8], gc: &GolayCode)
    ensures
        forall|k: int|
            0 <= k < 8 ==> (#[trigger] final(slices)[k])@ == old(slices)[k]@ + slice_part(data@, k),
{
    let len: usize = data.len();
    let groups: usize = len / 12 + (if len % 12 != 0 {
        1usize
    } else {
        0usize
    });
    let mut g: usize = 0;
    assert forall|k: int| 0 <= k < 8 implies (#[trigger] slices[k])@ == old(slices)[k]@
        + slice_part(data@, k).take(0) by {
        assert(old(slices)[k]@ + slice_part(data@, k).take(0) =~= old(slices)[k]@);
    }
    while g < groups
        invariant
            g <= groups,
            groups == groups_for(len as int),
            len == data@.len(),
            forall|k: int|
                0 <= k < 8 ==> (#[trigger] slices[k])@ == old(slices)[k]@ + slice_part(
                    data@,
                    k,
                ).take(3 * g),
        decreases groups - g,
    {
        let mut block = [0u8;12];
        let mut j: usize = 0;
        while j < 12
            invariant
                j <= 12,
                g < groups,
                groups == groups_for(len as int),
                len == data@.len(),
                forall|q: int| 0 <= q < j ==> block[q] == padded_block(data@, g as int)[q],
            decreases 12 - j,
        {
            if j < len - g * 12 {
                block[j] = data[g * 12 + j];
            } else {
                block[j] = 0;
            }
            j = j + 1;
        }
        assert(block@ =~= padded_block(data@, g as int));
        let group = encode_block_bytes(&block, gc);
        let mut k: usize = 0;
        while k < 8
            invariant
                k <= 8,
                g < groups,
                groups == groups_for(len as int),
                len == data@.len(),
                group@ == encode_block(padded_block(data@, g as int)),
                forall|q: int|
                    0 <= q < k ==> (#[trigger] slices[q])@ == old(slices)[q]@ + slice_part(
                        data@,
                        q,
                    ).take(3 * g + 3),
                forall|q: int|
                    k <= q < 8 ==> (#[trigger] slices[q])@ == old(slices)[q]@ + slice_part(
                        data@,
                        q,
                    ).take(3 * g),
            decreases 8 - k,
        {
            let ghost before = slices@;
            slices[k].push(group[3 * k]);
            slices[k].push(group[3 * k + 1]);
            slices[k].push(group[3 * k + 2]);
            proof {
                let part = slice_part(data@, k as int);
                assert(part[3 * g] == group@[3 * k]);
                assert(part[3 * g + 1] == group@[3 * k + 1]);
                assert(part[3 * g + 2] == group@[3 * k + 2]);
                assert(slices[k as int]@ =~= old(slices)[k as int]@ + part.take(3 * g + 3));
                assert forall|q: int| 0 <= q < 8 && q != k implies slices[q] == before[q] by {}
            }
            k = k + 1;
        }
        g = g + 1;
    }
    assert forall|k: int| 0 <= k < 8 implies (#[trigger] slices[k])@ == old(slices)[k]@
        + slice_part(data@, k) by {
        assert(slice_part(data@, k).take(3 * g) =~= slice_part(data@, k));
    }
}

/// Gives the number of bytes that each slice holds for `len` bytes of
/// data: three for every group.
pub fn part_len(len: usize) -> (n: usize)
    ensures
        n == 3 * groups_for(len as int),
{
    let groups: usize = len / 12 + (if len % 12 != 0 {
        1usize
    } else {
        0usize
    });
    3 * groups
}

/// Says whether every part that is there holds the groups of `len` bytes.
pub fn parts_cover_len(parts: &[Option<Vec<u8>>; 8], len: usize) -> (b: bool)
    ensures
        b == parts_cover(parts_view(parts@), len as int),
{
    let groups: usize = len / 12 + (if len % 12 != 0 {
        1usize
    } else {
        0usize
    });
    let b = parts_hold(parts, part_len(len));
    proof {
        let view = parts_view(parts@);
        if b {
            assert forall|k: int| 0 <= k < view.len() implies (#[trigger] view[k] matches Some(
                bytes,
            ) ==> bytes.len() >= 3 * groups) by {
                assert(parts[k] matches Some(v) ==> v@.len() >= 3 * groups);
            }
        } else {
            let k = choose|k: int|
                0 <= k < 8 && !(#[trigger] parts[k] matches Some(v) ==> v@.len() >= 3 * groups);
            assert(view[k] matches Some(bytes) && bytes.len() < 3 * groups);
        }
    }
    b
}

/// Whether every part that is there holds at least `need` bytes.
fn parts_hold(parts: &[Option<Vec<u8>>; 8], need: usize) -> (b: bool)
    ensures
        b == (forall|k: int|
            0 <= k < 8 ==> (#[trigger] parts[k] matches Some(v) ==> v@.len() >= need)),
{
    let mut k: usize = 0;
    while k < 8
        invariant
            k <= 8,
            forall|q: int|
                0 <= q < k ==> (#[trigger] parts[q] matches Some(v) ==> v@.len() >= need),
        decreases 8 - k,
    {
        match &parts[k] {
            Some(v) => {
                if v.len() < need {
                    return false;
                }
            },
            None => {},
        }
        k = k + 1;
    }
    true
}

/// Decodes `len` bytes from the parts read from the eight slices, group by
/// group, and counts in `gc` what the decoder found. A missing slice is
/// read as zeros. Returns `None`, and leaves `gc` alone, where a part that
/// is there does not hold the groups of `len` bytes.
pub fn decode_chunk(parts: &[Option<Vec<u8>>; 8], len: usize, gc: &mut GolayCode) -> (out: Option<
    Vec<u8>,
>)
    requires
        old(gc).has_room(8 * groups_for(len as int)),
    ensures
        out is Some <==> parts_cover(parts_view(parts@), len as int),
        out is Some ==> out->0@ == decoded_bytes(parts_view(parts@), len as int),
        out is Some ==> final(gc).processed_codewords == old(gc).processed_codewords + 8
            * groups_for(len as int),
        out is Some ==> final(gc).corrected_codewords == old(gc).corrected_codewords
            + corrected_in(parts_view(parts@), groups_for(len as int) as nat),
        out is Some ==> final(gc).uncorrectable_codewords == old(gc).uncorrectable_codewords
            + failed_in(parts_view(parts@), groups_for(len as int) as nat),
        out is None ==> *final(gc) == *old(gc),
{
    let groups: usize = len / 12 + (if len % 12 != 0 {
        1usize
    } else {
        0usize
    });
    let ghost view = parts_view(parts@);
    if !parts_cover_len(parts, len) {
        return None;
    }
    proof {
        assert forall|k: int| 0 <= k < 8 implies (#[trigger] parts[k] matches Some(v) ==> v@.len()
            >= 3 * groups) by {
            assert(view[k] matches Some(bytes) ==> bytes.len() >= 3 * groups);
        }
    }
    let mut out: Vec<u8> = Vec::new();
    let mut g: usize = 0;
    while g < groups
        invariant
            g <= groups,
            groups == groups_for(len as int),
            3 * groups <= usize::MAX,
            view == parts_view(parts@),
            forall|k: int|
                0 <= k < 8 ==> (#[trigger] parts[k] matches Some(v) ==> v@.len() >= 3 * groups),
            out@.len() == (if 12 * g < len {
                12 * g
            } else {
                len as int
            }),
            forall|i: int| 0 <= i < out@.len() ==> out@[i] == decoded_bytes(view, len as int)[i],
            old(gc).has_room(8 * groups),
            gc.processed_codewords == old(gc).processed_codewords + 8 * g,
            gc.corrected_codewords == old(gc).corrected_codewords + corrected_in(view, g as nat),
            gc.uncorrectable_codewords == old(gc).uncorrectable_codewords + failed_in(
                view,
                g as nat,
            ),
            corrected_in(view, g as nat) <= 8 * g,
            failed_in(view, g as nat) <= 8 * g,
        decreases groups - g,
    {
        let mut group = [0u8;24];
        let mut p: usize = 0;
        while p < 24
            invariant
                p <= 24,
                g < groups,
                3 * groups <= usize::MAX,
                view == parts_view(parts@),
                forall|k: int|
                    0 <= k < 8 ==> (#[trigger] parts[k] matches Some(v) ==> v@.len() >= 3
                        * groups),
                forall|q: int| 0 <= q < p ==> group[q] == group_at(view, g as int)[q],
            decreases 24 - p,
        {
            group[p] = match &parts[p / 3] {
                Some(v) => v[3 * g + p % 3],
                None => 0,
            };
            p = p + 1;
        }
        assert(group@ =~= group_at(view, g as int));
        proof {
            lemma_counts_bound(received_words(group@), 8);
        }
        let block = decode_block_bytes(&group, gc);
        let mut j: usize = 0;
        while j < 12
            invariant
                j <= 12,
                g < groups,
                groups == groups_for(len as int),
                block@ == decode_block(group_at(view, g as int)),
                out@.len() == (if 12 * g + j < len {
                    12 * g + j
                } else {
                    len as int
                }),
                forall|i: int|
                    0 <= i < out@.len() ==> out@[i] == decoded_bytes(view, len as int)[i],
            decreases 12 - j,
        {
            if j < len - g * 12 {
                out.push(block[j]);
            }
            j = j + 1;
        }
        g = g + 1;
    }
    assert(out@ =~= decoded_bytes(view, len as int));
    Some(out)
}

/// No more words are counted than there are.
pub proof fn lemma_counts_bound(words: Seq<u32>, n: nat)
    ensures
        corrected_among(words, n) <= n,
        failed_among(words, n) <= n,
        corrected_among(words, n) + failed_among(words, n) <= n,
    decreases n,
{
    if n > 0 {
        lemma_counts_bound(words, (n - 1) as nat);
    }
}

/// Number of bit positions in which the first `n` bytes of `a` and of `b`
/// differ.
pub open spec fn bits_differing(a: Seq<u8>, b: Seq<u8>, n: nat) -> nat
    decreases n,
{
    if n == 0 {
        0
    } else {
        bits_differing(a, b, (n - 1) as nat) + popcount((a[n - 1] ^ b[n - 1]) as u32) as nat
    }
}

/// The group `group` with the three bytes of slice `k` set to zero: what
/// is read where slice `k` is missing.
pub open spec fn without_slice(group: Seq<u8>, k: int) -> Seq<u8> {
    Seq::new(
        group.len(),
        |p: int|
            if 3 * k <= p < 3 * k + 3 {
                0u8
            } else {
                group[p]
            },
    )
}

proof fn lemma_or_bit(g: u32, b: u32, s: u32, j: u32)
    by (bit_vector)
    requires
        s < 32,
        j < 32,
        b <= 1,
    ensures
        bit(g | (b << s), j) == (if j == s {
            bit(g, j) | b
        } else {
            bit(g, j)
        }),
        0 | b == b,
        bit(0, j) == 0,
        bit(g, j) <= 1,
        s < 31 && g >> s == 0 ==> (g | (b << s)) >> ((s + 1) as u32) == 0,
        g >> 0 == g,
{
}

/// Bit `j` of a column is bit `k` of element `j`.
pub proof fn lemma_column_bit(elems: Seq<u32>, k: u32, n: nat, j: u32)
    requires
        n <= 32,
        n <= elems.len(),
        j < 32,
        k < 32,
    ensures
        bit(column(elems, k, n), j) == (if j < n {
            bit(elems[j as int], k)
        } else {
            0
        }),
    decreases n,
{
    if n == 0 {
        lemma_or_bit(0, 0, 0, j);
    } else {
        lemma_column_bit(elems, k, (n - 1) as nat, j);
        lemma_or_bit(elems[n - 1], 0, 0, k);
        lemma_or_bit(column(elems, k, (n - 1) as nat), bit(elems[n - 1], k), (n - 1) as u32, j);
    }
}

/// A column over `n` elements fits in `n` bits.
pub proof fn lemma_column_fits(elems: Seq<u32>, k: u32, n: nat)
    requires
        n <= 31,
        n <= elems.len(),
        k < 32,
    ensures
        column(elems, k, n) >> (n as u32) == 0,
    decreases n,
{
    if n == 0 {
        lemma_or_bit(0, 0, 0, 0);
    } else {
        lemma_column_fits(elems, k, (n - 1) as nat);
        lemma_or_bit(elems[n - 1], 0, 0, k);
        lemma_or_bit(column(elems, k, (n - 1) as nat), bit(elems[n - 1], k), (n - 1) as u32, 0);
    }
}

proof fn lemma_bits_equal_all(a: u32, b: u32)
    by (bit_vector)
    requires
        bit(a, 0) == bit(b, 0),
        bit(a, 1) == bit(b, 1),
        bit(a, 2) == bit(b, 2),
        bit(a, 3) == bit(b, 3),
        bit(a, 4) == bit(b, 4),
        bit(a, 5) == bit(b, 5),
        bit(a, 6) == bit(b, 6),
        bit(a, 7) == bit(b, 7),
        bit(a, 8) == bit(b, 8),
        bit(a, 9) == bit(b, 9),
        bit(a, 10) == bit(b, 10),
        bit(a, 11) == bit(b, 11),
        bit(a, 12) == bit(b, 12),
        bit(a, 13) == bit(b, 13),
        bit(a, 14) == bit(b, 14),
        bit(a, 15) == bit(b, 15),
        bit(a, 16) == bit(b, 16),
        bit(a, 17) == bit(b, 17),
        bit(a, 18) == bit(b, 18),
        bit(a, 19) == bit(b, 19),
        bit(a, 20) == bit(b, 20),
        bit(a, 21) == bit(b, 21),
        bit(a, 22) == bit(b, 22),
        bit(a, 23) == bit(b, 23),
        bit(a, 24) == bit(b, 24),
        bit(a, 25) == bit(b, 25),
        bit(a, 26) == bit(b, 26),
        bit(a, 27) == bit(b, 27),
        bit(a, 28) == bit(b, 28),
        bit(a, 29) == bit(b, 29),
        bit(a, 30) == bit(b, 30),
        bit(a, 31) == bit(b, 31),
    ensures
        a == b,
{
}

/// Two words with the same bits are the same word.
proof fn lemma_bits_equal(a: u32, b: u32)
    requires
        forall|j: u32| j < 32 ==> bit(a, j) == bit(b, j),
    ensures
        a == b,
{
    lemma_bits_equal_all(a, b);
}

proof fn lemma_small_words(x: u32, y: u32, j: u32, a: u8, b: u8)
    by (bit_vector)
    requires
        j < 32,
    ensures
        x >> 8 == 0 ==> x < 0x100,
        x >> 12 == 0 ==> x < 0x1000,
        x >> 24 == 0 ==> x < 0x100_0000,
        x < 0x100 && j >= 8 ==> bit(x, j) == 0,
        x < 0x100_0000 && j >= 24 ==> bit(x, j) == 0,
        x < 0x100_0000 && y < 0x100_0000 ==> x ^ y < 0x100_0000,
        x < 0x100_0000 ==> ones_below(x, 32) == ones_below(x, 24),
        bit(x ^ y, j) == bit(x, j) ^ bit(y, j),
        (a ^ b) as u32 == (a as u32) ^ (b as u32),
        (x ^ y) ^ x == y,
        x ^ (x ^ y) == y,
        bit(x, j) <= ones_below(x, 32),
        bit(x, j) ^ bit(x, j) == 0,
        bit(x, j) ^ 0 == bit(x, j),
        (x ^ y == 0) <==> x == y,
        (bit(x, j) ^ bit(y, j) == 1) <==> bit(x, j) != bit(y, j),
{
}

/// Bit `j` of plane `i` of a block is bit `i` of byte `j`, and bit `i` of
/// byte `p` of its group is bit `p` of the codeword of plane `i`.
pub proof fn lemma_block_bits(block: Seq<u8>, i: u32, j: u32, p: u32)
    requires
        block.len() == BLOCK_BYTES,
        i < 8,
        j < 12,
        p < 24,
    ensures
        bit(plane_words(block)[i as int], j) == bit(block[j as int] as u32, i),
        bit(encode_block(block)[p as int] as u32, i) == bit(code_words(block)[i as int], p),
{
    lemma_column_bit(widen(block), i, 12, j);
    let words = code_words(block);
    let c = column(words, p, 8);
    lemma_column_fits(words, p, 8);
    lemma_small_words(c, 0, 0, 0, 0);
    lemma_column_bit(words, p, 8, i);
}

/// The words received in the group of a block are the codewords of its
/// planes.
pub proof fn lemma_received_encoded(block: Seq<u8>)
    requires
        block.len() == BLOCK_BYTES,
    ensures
        received_words(encode_block(block)) == code_words(block),
{
    let group = encode_block(block);
    let words = code_words(block);
    assert forall|i: int| 0 <= i < 8 implies received_words(group)[i] == words[i] by {
        let r = received_words(group)[i];
        let plane = plane_words(block)[i];
        lemma_column_fits(widen(block), i as u32, 12);
        lemma_small_words(plane, 0, 0, 0, 0);
        crate::golay::lemma_checksum_bound(plane);
        lemma_encode_fits(plane);
        assert forall|p: u32| p < 32 implies bit(r, p) == bit(words[i], p) by {
            lemma_column_bit(widen(group), i as u32, 24, p);
            if p < 24 {
                let c = column(words, p, 8);
                lemma_column_fits(words, p, 8);
                lemma_small_words(c, 0, 0, 0, 0);
                assert(widen(group)[p as int] == c);
                lemma_column_bit(words, p, 8, i as u32);
            } else {
                lemma_small_words(words[i], 0, p, 0, 0);
            }
        }
        lemma_bits_equal(r, words[i]);
    }
    assert(received_words(group) =~= words);
}

/// A codeword fits in 24 bits.
proof fn lemma_encode_fits(x: u32)
    ensures
        golay_encode(x) < 0x100_0000,
{
    crate::golay::lemma_checksum_bound(x);
    let c = crate::golay::golay_checksum(x);
    assert(c < 0x1000 ==> ((x & 0xfff) << 12) | c < 0x100_0000) by (bit_vector);
}

/// Whether each of the eight words received in `group` is within three
/// bits of the codeword of the same plane of `block`.
pub open spec fn group_close(block: Seq<u8>, group: Seq<u8>) -> bool {
    forall|i: int|
        0 <= i < 8 ==> popcount(#[trigger] code_words(block)[i] ^ received_words(group)[i]) <= 3
}

/// A group whose eight words are each within three bits of the codewords
/// of a block decodes to that block, and every word is corrected.
pub proof fn lemma_decode_block_close(block: Seq<u8>, group: Seq<u8>)
    requires
        block.len() == BLOCK_BYTES,
        group.len() == GROUP_BYTES,
        group_close(block, group),
    ensures
        decode_block(group) == block,
        decoded_planes(group) == plane_words(block),
        forall|i: int| 0 <= i < 8 ==> golay_decode(#[trigger] received_words(group)[i]) is Some,
{
    assert forall|i: int| 0 <= i < 8 implies golay_decode(#[trigger] received_words(group)[i])
        == Some(plane_words(block)[i]) by {
        let c = code_words(block)[i];
        let r = received_words(group)[i];
        let plane = plane_words(block)[i];
        lemma_column_fits(widen(block), i as u32, 12);
        lemma_small_words(plane, 0, 0, 0, 0);
        lemma_column_fits(widen(group), i as u32, 24);
        lemma_small_words(r, 0, 0, 0, 0);
        lemma_encode_fits(plane);
        lemma_small_words(c, r, 0, 0, 0);
        assert(popcount(c ^ r) <= 3);
        crate::golay::lemma_decode_corrects_three(plane, c ^ r);
    }
    assert(decoded_planes(group) =~= plane_words(block));
    assert forall|j: int| 0 <= j < 12 implies decode_block(group)[j] == block[j] by {
        let w = column(plane_words(block), j as u32, 8);
        let b = block[j] as u32;
        assert forall|i: u32| i < 32 implies bit(w, i) == bit(b, i) by {
            lemma_column_bit(plane_words(block), j as u32, 8, i);
            if i < 8 {
                lemma_column_bit(widen(block), i, 12, j as u32);
            } else {
                lemma_small_words(b, 0, i, 0, 0);
            }
        }
        lemma_bits_equal(w, b);
    }
    assert(decode_block(group) =~= block);
}

/// Number of planes among the first `n` in which the word received in
/// `group` is not the codeword of that plane of `block`.
pub open spec fn planes_differing(block: Seq<u8>, group: Seq<u8>, n: nat) -> nat
    decreases n,
{
    if n == 0 {
        0
    } else {
        planes_differing(block, group, (n - 1) as nat) + (if code_words(block)[n - 1]
            != received_words(group)[n - 1] {
            1nat
        } else {
            0nat
        })
    }
}

/// In a group that is close to a block, the decoder counts a correction
/// for every plane whose word was not received as it was written, and for
/// no other.
pub proof fn lemma_corrections_counted(block: Seq<u8>, group: Seq<u8>, n: nat)
    requires
        block.len() == BLOCK_BYTES,
        group.len() == GROUP_BYTES,
        group_close(block, group),
        n <= 8,
    ensures
        corrected_among(received_words(group), n) == planes_differing(block, group, n),
    decreases n,
{
    if n > 0 {
        lemma_corrections_counted(block, group, (n - 1) as nat);
        let i = n - 1;
        let c = code_words(block)[i];
        let r = received_words(group)[i];
        let plane = plane_words(block)[i];
        lemma_column_fits(widen(block), i as u32, 12);
        lemma_small_words(plane, 0, 0, 0, 0);
        lemma_column_fits(widen(group), i as u32, 24);
        lemma_small_words(r, 0, 0, 0, 0);
        lemma_encode_fits(plane);
        lemma_small_words(c, r, 0, 0, 0);
        assert(popcount(c ^ r) <= 3);
        crate::golay::lemma_correction_counted(plane, c ^ r);
    }
}

/// Whether byte `p` of `a` and of `b` differ in bit `i`.
pub open spec fn differs_at(a: Seq<u8>, b: Seq<u8>, p: int, i: u32) -> bool {
    bit((a[p] ^ b[p]) as u32, i) == 1
}

/// Whether the groups `a` and `b` differ in bit `i` of some byte: in the
/// plane of that bit.
pub open spec fn plane_touched(a: Seq<u8>, b: Seq<u8>, i: u32) -> bool {
    exists|p: int| 0 <= p < GROUP_BYTES && #[trigger] differs_at(a, b, p, i)
}

/// Number of planes among the first `n` in which the groups `a` and `b`
/// differ.
pub open spec fn planes_touched(a: Seq<u8>, b: Seq<u8>, n: nat) -> nat
    decreases n,
{
    if n == 0 {
        0
    } else {
        planes_touched(a, b, (n - 1) as nat) + (if plane_touched(a, b, (n - 1) as u32) {
            1nat
        } else {
            0nat
        })
    }
}

/// The word of a plane is received as it was written if and only if no
/// byte of the group was changed in the bit of that plane.
pub proof fn lemma_plane_touched(block: Seq<u8>, group: Seq<u8>, i: u32)
    requires
        block.len() == BLOCK_BYTES,
        group.len() == GROUP_BYTES,
        i < 8,
    ensures
        (code_words(block)[i as int] != received_words(group)[i as int]) == plane_touched(
            encode_block(block),
            group,
            i,
        ),
{
    let written = encode_block(block);
    let c = code_words(block)[i as int];
    let r = received_words(group)[i as int];
    lemma_received_encoded(block);
    assert(c == received_words(written)[i as int]);
    assert forall|p: int| 0 <= p < 24 implies differs_at(written, group, p, i) == (bit(
        c,
        p as u32,
    ) != bit(r, p as u32)) by {
        lemma_column_bit(widen(written), i, 24, p as u32);
        lemma_column_bit(widen(group), i, 24, p as u32);
        let a = widen(written)[p];
        let b = widen(group)[p];
        lemma_small_words(a, b, i, written[p], group[p]);
    }
    if plane_touched(written, group, i) {
        let p = choose|p: int| 0 <= p < GROUP_BYTES && #[trigger] differs_at(written, group, p, i);
        assert(bit(c, p as u32) != bit(r, p as u32));
    } else {
        assert forall|j: u32| j < 32 implies bit(c, j) == bit(r, j) by {
            lemma_column_bit(widen(written), i, 24, j);
            lemma_column_bit(widen(group), i, 24, j);
            if j < 24 {
                assert(!differs_at(written, group, j as int, i));
            }
        }
        lemma_bits_equal(c, r);
    }
}

/// The planes whose word was not received as it was written are the planes
/// in which the group was changed.
pub proof fn lemma_planes_touched(block: Seq<u8>, group: Seq<u8>, n: nat)
    requires
        block.len() == BLOCK_BYTES,
        group.len() == GROUP_BYTES,
        n <= 8,
    ensures
        planes_differing(block, group, n) == planes_touched(encode_block(block), group, n),
    decreases n,
{
    if n > 0 {
        lemma_planes_touched(block, group, (n - 1) as nat);
        lemma_plane_touched(block, group, (n - 1) as u32);
    }
}

/// The group of a block is close to the block.
pub proof fn lemma_close_encoded(block: Seq<u8>)
    requires
        block.len() == BLOCK_BYTES,
    ensures
        group_close(block, encode_block(block)),
{
    let group = encode_block(block);
    lemma_received_encoded(block);
    assert forall|i: int| 0 <= i < 8 implies popcount(
        #[trigger] code_words(block)[i] ^ received_words(group)[i],
    ) <= 3 by {
        let c = code_words(block)[i];
        assert(c ^ c == 0) by (bit_vector);
        crate::golay::lemma_popcount_range(0);
    }
}

/// Decoding the group of a block gives back the block, with nothing to
/// correct.
pub proof fn lemma_decode_encode_block(block: Seq<u8>)
    requires
        block.len() == BLOCK_BYTES,
    ensures
        decode_block(encode_block(block)) == block,
        corrected_among(received_words(encode_block(block)), 8) == 0,
        failed_among(received_words(encode_block(block)), 8) == 0,
{
    let group = encode_block(block);
    lemma_received_encoded(block);
    lemma_close_encoded(block);
    lemma_decode_block_close(block, group);
    assert forall|i: int| 0 <= i < 8 implies !needs_correction(
        #[trigger] received_words(group)[i],
    ) by {
        let plane = plane_words(block)[i];
        lemma_column_fits(widen(block), i as u32, 12);
        lemma_small_words(plane, 0, 0, 0, 0);
        crate::golay::lemma_decode_encode(plane);
    }
    lemma_none_counted(received_words(group), 8);
}

/// Where no word needs correction, none is counted as corrected or failed.
proof fn lemma_none_counted(words: Seq<u32>, n: nat)
    requires
        n <= words.len(),
        forall|i: int| 0 <= i < n ==> !needs_correction(#[trigger] words[i]),
        forall|i: int| 0 <= i < n ==> golay_decode(#[trigger] words[i]) is Some,
    ensures
        corrected_among(words, n) == 0,
        failed_among(words, n) == 0,
    decreases n,
{
    if n > 0 {
        lemma_none_counted(words, (n - 1) as nat);
    }
}

/// Where every word decodes, none is counted as failed.
pub proof fn lemma_none_failed(words: Seq<u32>, n: nat)
    requires
        n <= words.len(),
        forall|i: int| 0 <= i < n ==> golay_decode(#[trigger] words[i]) is Some,
    ensures
        failed_among(words, n) == 0,
    decreases n,
{
    if n > 0 {
        lemma_none_failed(words, (n - 1) as nat);
    }
}

/// The words received in `group` differ from those received in `other` in
/// no more bits than the bytes of the two groups differ in.
proof fn lemma_plane_distance(group: Seq<u8>, other: Seq<u8>, i: u32, n: nat)
    requires
        group.len() == GROUP_BYTES,
        other.len() == GROUP_BYTES,
        i < 8,
        n <= 24,
    ensures
        ones_below(received_words(group)[i as int] ^ received_words(other)[i as int], n as u32)
            <= bits_differing(group, other, n),
    decreases n,
{
    if n > 0 {
        let a = received_words(group)[i as int];
        let b = received_words(other)[i as int];
        let p = (n - 1) as u32;
        lemma_plane_distance(group, other, i, (n - 1) as nat);
        lemma_column_bit(widen(group), i, 24, p);
        lemma_column_bit(widen(other), i, 24, p);
        lemma_small_words(a, b, p, 0, 0);
        let ga = widen(group)[p as int];
        let gb = widen(other)[p as int];
        lemma_small_words(ga, gb, i, group[p as int], other[p as int]);
        lemma_small_words(ga ^ gb, 0, i, 0, 0);
    }
}

/// A group that differs from the group of a block in at most three bits is
/// close to the block.
pub proof fn lemma_close_three_flips(block: Seq<u8>, group: Seq<u8>)
    requires
        block.len() == BLOCK_BYTES,
        group.len() == GROUP_BYTES,
        bits_differing(encode_block(block), group, GROUP_BYTES as nat) <= 3,
    ensures
        group_close(block, group),
{
    lemma_received_encoded(block);
    assert forall|i: int| 0 <= i < 8 implies popcount(
        #[trigger] code_words(block)[i] ^ received_words(group)[i],
    ) <= 3 by {
        let c = code_words(block)[i];
        let r = received_words(group)[i];
        lemma_plane_distance(encode_block(block), group, i as u32, 24);
        lemma_column_fits(widen(group), i as u32, 24);
        lemma_small_words(r, 0, 0, 0, 0);
        lemma_encode_fits(plane_words(block)[i]);
        lemma_small_words(c, r, 0, 0, 0);
        lemma_small_words(c ^ r, 0, 0, 0, 0);
    }
}

/// A group that differs from the group of a block in at most three bits
/// decodes to that block.
pub proof fn lemma_decode_three_flips(block: Seq<u8>, group: Seq<u8>)
    requires
        block.len() == BLOCK_BYTES,
        group.len() == GROUP_BYTES,
        bits_differing(encode_block(block), group, GROUP_BYTES as nat) <= 3,
    ensures
        decode_block(group) == block,
        failed_among(received_words(group), 8) == 0,
{
    lemma_close_three_flips(block, group);
    lemma_decode_block_close(block, group);
    lemma_none_failed(received_words(group), 8);
}

/// Number of positions below `n` that belong to slice `k`.
spec fn slice_positions_below(k: int, n: int) -> int {
    if n <= 3 * k {
        0
    } else if n >= 3 * k + 3 {
        3
    } else {
        n - 3 * k
    }
}

/// Without slice `k`, a received word differs from the one received in the
/// whole group only in the three positions of that slice.
proof fn lemma_lost_slice_distance(group: Seq<u8>, k: int, i: u32, n: nat)
    requires
        group.len() == GROUP_BYTES,
        0 <= k < 8,
        i < 8,
        n <= 24,
    ensures
        ones_below(
            received_words(group)[i as int] ^ received_words(without_slice(group, k))[i as int],
            n as u32,
        ) <= slice_positions_below(k, n as int),
    decreases n,
{
    if n > 0 {
        let other = without_slice(group, k);
        let a = received_words(group)[i as int];
        let b = received_words(other)[i as int];
        let p = (n - 1) as u32;
        lemma_lost_slice_distance(group, k, i, (n - 1) as nat);
        lemma_column_bit(widen(group), i, 24, p);
        lemma_column_bit(widen(other), i, 24, p);
        lemma_small_words(a, b, p, 0, 0);
        lemma_or_bit(widen(group)[p as int], 0, 0, i);
        lemma_small_words(widen(group)[p as int], 0, i, 0, 0);
    }
}

/// The group of a block, read without any one of the eight slices, is
/// close to the block.
pub proof fn lemma_close_lost_slice(block: Seq<u8>, k: int)
    requires
        block.len() == BLOCK_BYTES,
        0 <= k < 8,
    ensures
        group_close(block, without_slice(encode_block(block), k)),
{
    let whole = encode_block(block);
    let group = without_slice(whole, k);
    lemma_received_encoded(block);
    assert forall|i: int| 0 <= i < 8 implies popcount(
        #[trigger] code_words(block)[i] ^ received_words(group)[i],
    ) <= 3 by {
        let c = code_words(block)[i];
        let r = received_words(group)[i];
        lemma_lost_slice_distance(whole, k, i as u32, 24);
        lemma_column_fits(widen(group), i as u32, 24);
        lemma_small_words(r, 0, 0, 0, 0);
        lemma_encode_fits(plane_words(block)[i]);
        lemma_small_words(c, r, 0, 0, 0);
        lemma_small_words(c ^ r, 0, 0, 0, 0);
    }
}

/// The group of a block, read without any one of the eight slices, decodes
/// to that block.
pub proof fn lemma_decode_lost_slice(block: Seq<u8>, k: int)
    requires
        block.len() == BLOCK_BYTES,
        0 <= k < 8,
    ensures
        decode_block(without_slice(encode_block(block), k)) == block,
        failed_among(received_words(without_slice(encode_block(block), k)), 8) == 0,
{
    let group = without_slice(encode_block(block), k);
    lemma_close_lost_slice(block, k);
    lemma_decode_block_close(block, group);
    lemma_none_failed(received_words(group), 8);
}

/// The share of a slice in data that ends on a block and more data after
/// it is its share in the one followed by its share in the other.
pub proof fn lemma_slice_part_concat(a: Seq<u8>, b: Seq<u8>, k: int)
    requires
        a.len() % 12 == 0,
    ensures
        slice_part(a + b, k) == slice_part(a, k) + slice_part(b, k),
{
    let whole = slice_part(a + b, k);
    let parts = slice_part(a, k) + slice_part(b, k);
    let blocks = groups_for(a.len() as int);
    assert(groups_for((a + b).len() as int) == blocks + groups_for(b.len() as int));
    assert forall|i: int| 0 <= i < whole.len() implies whole[i] == parts[i] by {
        let g = i / 3;
        if g < blocks {
            assert(padded_block(a + b, g) =~= padded_block(a, g));
        } else {
            assert(padded_block(a + b, g) =~= padded_block(b, g - blocks));
            assert((i - 3 * blocks) / 3 == g - blocks);
            assert((i - 3 * blocks) % 3 == i % 3);
        }
    }
    assert(whole =~= parts);
}

/// The `len` bytes from offset `from` of every part that is there.
pub open spec fn parts_window(parts: Seq<Option<Seq<u8>>>, from: int, len: int) -> Seq<
    Option<Seq<u8>>,
> {
    Seq::new(
        parts.len(),
        |k: int|
            match parts[k] {
                Some(bytes) => Some(bytes.subrange(from, from + len)),
                None => None,
            },
    )
}

/// Parts that hold the groups of some bytes hold those of fewer.
pub proof fn lemma_cover_less(parts: Seq<Option<Seq<u8>>>, len: int, less: int)
    requires
        parts_cover(parts, len),
        groups_for(less) <= groups_for(len),
    ensures
        parts_cover(parts, less),
{
    assert forall|k: int| 0 <= k < parts.len() implies (#[trigger] parts[k] matches Some(bytes)
        ==> bytes.len() >= 3 * groups_for(less)) by {
        assert(parts[k] matches Some(bytes) ==> bytes.len() >= 3 * groups_for(len));
    }
}

/// A group read from a window of the parts is a group of the parts.
proof fn lemma_group_at_window(parts: Seq<Option<Seq<u8>>>, first: int, groups: int, g: int)
    requires
        parts.len() == SLICES,
        0 <= first,
        0 <= g < groups,
        parts_cover(parts, 12 * (first + groups)),
    ensures
        group_at(parts_window(parts, 3 * first, 3 * groups), g) == group_at(parts, first + g),
{
    let window = parts_window(parts, 3 * first, 3 * groups);
    let later = first + g;
    assert forall|p: int| 0 <= p < 24 implies group_at(window, g)[p] == group_at(parts, later)[p] by {
        let k = p / 3;
        assert(parts[k] matches Some(bytes) ==> bytes.len() >= 3 * groups_for(
            12 * (first + groups),
        ));
    }
    assert(group_at(window, g) =~= group_at(parts, later));
}

/// Counting in a window of the parts is counting in those groups of the
/// parts.
proof fn lemma_counts_window(parts: Seq<Option<Seq<u8>>>, first: int, groups: int, n: nat)
    requires
        parts.len() == SLICES,
        0 <= first,
        n <= groups,
        parts_cover(parts, 12 * (first + groups)),
    ensures
        corrected_in(parts, (first + n) as nat) == corrected_in(parts, first as nat)
            + corrected_in(parts_window(parts, 3 * first, 3 * groups), n),
        failed_in(parts, (first + n) as nat) == failed_in(parts, first as nat) + failed_in(
            parts_window(parts, 3 * first, 3 * groups),
            n,
        ),
    decreases n,
{
    if n > 0 {
        lemma_counts_window(parts, first, groups, (n - 1) as nat);
        lemma_group_at_window(parts, first, groups, n - 1);
    }
}

/// Decoding from the window of the parts that follows the groups of whole
/// blocks is decoding what follows those blocks: slices may be read and
/// decoded a chunk of whole blocks at a time.
pub proof fn lemma_decoded_window(parts: Seq<Option<Seq<u8>>>, blocks: int, more: int)
    requires
        parts.len() == SLICES,
        0 <= blocks,
        0 <= more,
        parts_cover(parts, 12 * blocks + more),
    ensures
        decoded_bytes(parts, 12 * blocks + more) == decoded_bytes(parts, 12 * blocks)
            + decoded_bytes(parts_window(parts, 3 * blocks, 3 * groups_for(more)), more),
        corrected_in(parts, (blocks + groups_for(more)) as nat) == corrected_in(
            parts,
            blocks as nat,
        ) + corrected_in(
            parts_window(parts, 3 * blocks, 3 * groups_for(more)),
            groups_for(more) as nat,
        ),
        failed_in(parts, (blocks + groups_for(more)) as nat) == failed_in(parts, blocks as nat)
            + failed_in(
            parts_window(parts, 3 * blocks, 3 * groups_for(more)),
            groups_for(more) as nat,
        ),
{
    let groups = groups_for(more);
    let window = parts_window(parts, 3 * blocks, 3 * groups);
    let whole = decoded_bytes(parts, 12 * blocks + more);
    let split = decoded_bytes(parts, 12 * blocks) + decoded_bytes(window, more);
    lemma_cover_less(parts, 12 * blocks + more, 12 * (blocks + groups));
    assert forall|i: int| 0 <= i < whole.len() implies whole[i] == split[i] by {
        if i >= 12 * blocks {
            let j = i - 12 * blocks;
            lemma_group_at_window(parts, blocks, groups, j / 12);
            assert(i / 12 == blocks + j / 12);
            assert(i % 12 == j % 12);
        }
    }
    assert(whole =~= split);
    lemma_counts_window(parts, blocks, groups, groups as nat);
}

/// Copies the `len` bytes from offset `from` of every part that is there.
pub fn window(parts: &[Option<Vec<u8>>; 8], from: usize, len: usize) -> (out: [Option<Vec<u8>>; 8])
    requires
        forall|k: int|
            0 <= k < 8 ==> (#[trigger] parts[k] matches Some(v) ==> from + len <= v@.len()),
    ensures
        parts_view(out@) == parts_window(parts_view(parts@), from as int, len as int),
{
    let mut out: [Option<Vec<u8>>; 8] = [None, None, None, None, None, None, None, None];
    let ghost wanted = parts_window(parts_view(parts@), from as int, len as int);
    let mut k: usize = 0;
    while k < 8
        invariant
            k <= 8,
            wanted == parts_window(parts_view(parts@), from as int, len as int),
            forall|q: int|
                0 <= q < 8 ==> (#[trigger] parts[q] matches Some(v) ==> from + len <= v@.len()),
            forall|q: int| 0 <= q < k ==> parts_view(out@)[q] == wanted[q],
        decreases 8 - k,
    {
        let ghost before = out@;
        match &parts[k] {
            Some(bytes) => {
                assert(parts_view(parts@)[k as int] == Some(bytes@));
                assert(parts[k as int] matches Some(v) ==> from + len <= v@.len());
                let held: usize = bytes.len();
                assert(from + len <= held);
                let piece = vstd::slice::slice_to_vec(
                    vstd::slice::slice_subrange(bytes.as_slice(), from, from + len),
                );
                out[k] = Some(piece);
            },
            None => {
                out[k] = None;
            },
        }
        assert forall|q: int| 0 <= q < k + 1 implies parts_view(out@)[q] == wanted[q] by {
            if q < k {
                assert(out@[q] == before[q]);
                assert(parts_view(before)[q] == wanted[q]);
            }
        }
        k = k + 1;
    }
    assert(parts_view(out@) =~= wanted);
    out
}

/// Equal groups differ in no bit.
pub proof fn lemma_same_bits(a: Seq<u8>, n: nat)
    ensures
        bits_differing(a, a, n) == 0,
    decreases n,
{
    if n > 0 {
        lemma_same_bits(a, (n - 1) as nat);
        let b = a[n - 1];
        assert((b ^ b) as u32 == 0) by (bit_vector);
        crate::golay::lemma_popcount_range(0);
    }
}

/// The eight parts that `data` is encoded into, all there.
pub open spec fn encoded_parts(data: Seq<u8>) -> Seq<Option<Seq<u8>>> {
    Seq::new(SLICES as nat, |k: int| Some(slice_part(data, k)))
}

/// Whether every group read from `parts` is close to the block of `data`
/// that it stands for.
pub open spec fn parts_close(data: Seq<u8>, parts: Seq<Option<Seq<u8>>>) -> bool {
    forall|g: int|
        0 <= g < groups_for(data.len() as int) ==> group_close(
            #[trigger] padded_block(data, g),
            group_at(parts, g),
        )
}

/// Group `g` of the parts that `data` is encoded into is the group of
/// block `g`.
pub proof fn lemma_group_at_encoded(data: Seq<u8>, g: int)
    requires
        0 <= g < groups_for(data.len() as int),
    ensures
        group_at(encoded_parts(data), g) == encode_block(padded_block(data, g)),
{
    let parts = encoded_parts(data);
    let whole = encode_block(padded_block(data, g));
    assert forall|p: int| 0 <= p < 24 implies group_at(parts, g)[p] == whole[p] by {
        let k = p / 3;
        let i = 3 * g + p % 3;
        assert(parts[k] == Some(slice_part(data, k)));
        assert(i / 3 == g && i % 3 == p % 3);
        assert(3 * k + p % 3 == p);
    }
    assert(group_at(parts, g) =~= whole);
}

/// Parts in which every group is close to its block decode to the data,
/// with no word left uncorrected.
pub proof fn lemma_decoded_bytes_close(data: Seq<u8>, parts: Seq<Option<Seq<u8>>>)
    requires
        parts_close(data, parts),
    ensures
        decoded_bytes(parts, data.len() as int) == data,
        failed_in(parts, groups_for(data.len() as int) as nat) == 0,
{
    let len = data.len() as int;
    assert forall|i: int| 0 <= i < len implies decoded_bytes(parts, len)[i] == data[i] by {
        let g = i / 12;
        assert(group_close(padded_block(data, g), group_at(parts, g)));
        lemma_decode_block_close(padded_block(data, g), group_at(parts, g));
        assert(padded_block(data, g)[i % 12] == data[i]);
    }
    assert(decoded_bytes(parts, len) =~= data);
    lemma_close_none_failed(data, parts, groups_for(len) as nat);
}

proof fn lemma_close_none_failed(data: Seq<u8>, parts: Seq<Option<Seq<u8>>>, n: nat)
    requires
        parts_close(data, parts),
        n <= groups_for(data.len() as int),
    ensures
        failed_in(parts, n) == 0,
    decreases n,
{
    if n > 0 {
        lemma_close_none_failed(data, parts, (n - 1) as nat);
        let g = n - 1;
        assert(group_close(padded_block(data, g), group_at(parts, g)));
        lemma_decode_block_close(padded_block(data, g), group_at(parts, g));
        lemma_none_failed(received_words(group_at(parts, g)), 8);
    }
}

/// Number of codewords in the first `n` groups that were not received as
/// `data` is encoded.
pub open spec fn errors_in(data: Seq<u8>, parts: Seq<Option<Seq<u8>>>, n: nat) -> nat
    decreases n,
{
    if n == 0 {
        0
    } else {
        errors_in(data, parts, (n - 1) as nat) + planes_differing(
            padded_block(data, n - 1),
            group_at(parts, n - 1),
            8,
        )
    }
}

/// In parts whose groups are each close to their block, the decoder counts
/// a correction for every codeword that was not received as it was
/// written, and for no other.
pub proof fn lemma_corrections_in(data: Seq<u8>, parts: Seq<Option<Seq<u8>>>, n: nat)
    requires
        parts_close(data, parts),
        n <= groups_for(data.len() as int),
    ensures
        corrected_in(parts, n) == errors_in(data, parts, n),
    decreases n,
{
    if n > 0 {
        lemma_corrections_in(data, parts, (n - 1) as nat);
        let g = n - 1;
        assert(group_close(padded_block(data, g), group_at(parts, g)));
        lemma_corrections_counted(padded_block(data, g), group_at(parts, g), 8);
    }
}

/// Where every group was received as it was written, no codeword is in
/// error.
pub proof fn lemma_no_errors(data: Seq<u8>, parts: Seq<Option<Seq<u8>>>, n: nat)
    requires
        forall|g: int|
            0 <= g < n ==> #[trigger] group_at(parts, g) == encode_block(padded_block(data, g)),
    ensures
        errors_in(data, parts, n) == 0,
    decreases n,
{
    if n > 0 {
        lemma_no_errors(data, parts, (n - 1) as nat);
        let block = padded_block(data, n - 1);
        assert(group_at(parts, n - 1) == encode_block(block));
        lemma_received_encoded(block);
        lemma_same_planes(block, encode_block(block), 8);
    }
}

/// Where the words received are the codewords, no plane differs.
proof fn lemma_same_planes(block: Seq<u8>, group: Seq<u8>, n: nat)
    requires
        received_words(group) == code_words(block),
    ensures
        planes_differing(block, group, n) == 0,
    decreases n,
{
    if n > 0 {
        lemma_same_planes(block, group, (n - 1) as nat);
    }
}

/// The parts that data is encoded into decode to the data.
pub proof fn lemma_decode_encoded(data: Seq<u8>)
    ensures
        parts_close(data, encoded_parts(data)),
        decoded_bytes(encoded_parts(data), data.len() as int) == data,
        failed_in(encoded_parts(data), groups_for(data.len() as int) as nat) == 0,
{
    let parts = encoded_parts(data);
    assert forall|g: int| 0 <= g < groups_for(data.len() as int) implies group_close(
        #[trigger] padded_block(data, g),
        group_at(parts, g),
    ) by {
        lemma_group_at_encoded(data, g);
        lemma_close_encoded(padded_block(data, g));
    }
    lemma_decoded_bytes_close(data, parts);
}

/// The parts that data is encoded into, with any one of them missing,
/// decode to the data.
pub proof fn lemma_decode_one_missing(data: Seq<u8>, k: int)
    requires
        0 <= k < 8,
    ensures
        parts_close(data, encoded_parts(data).update(k, None)),
        decoded_bytes(encoded_parts(data).update(k, None), data.len() as int) == data,
        failed_in(encoded_parts(data).update(k, None), groups_for(data.len() as int) as nat) == 0,
{
    let parts = encoded_parts(data).update(k, None);
    assert forall|g: int| 0 <= g < groups_for(data.len() as int) implies group_close(
        #[trigger] padded_block(data, g),
        group_at(parts, g),
    ) by {
        let whole = encode_block(padded_block(data, g));
        lemma_group_at_encoded(data, g);
        assert forall|p: int| 0 <= p < 24 implies group_at(parts, g)[p] == without_slice(
            whole,
            k,
        )[p] by {
            if p / 3 != k {
                assert(parts[p / 3] == encoded_parts(data)[p / 3]);
                assert(group_at(parts, g)[p] == group_at(encoded_parts(data), g)[p]);
            }
        }
        assert(group_at(parts, g) =~= without_slice(whole, k));
        lemma_close_lost_slice(padded_block(data, g), k);
    }
    lemma_decoded_bytes_close(data, parts);
}

/// Parts in which every group differs in at most three bits from the group
/// that the data is encoded into decode to the data.
pub proof fn lemma_decode_few_flips(data: Seq<u8>, parts: Seq<Option<Seq<u8>>>)
    requires
        forall|g: int|
            0 <= g < groups_for(data.len() as int) ==> bits_differing(
                #[trigger] group_at(encoded_parts(data), g),
                group_at(parts, g),
                GROUP_BYTES as nat,
            ) <= 3,
    ensures
        parts_close(data, parts),
        decoded_bytes(parts, data.len() as int) == data,
        failed_in(parts, groups_for(data.len() as int) as nat) == 0,
{
    assert forall|g: int| 0 <= g < groups_for(data.len() as int) implies group_close(
        #[trigger] padded_block(data, g),
        group_at(parts, g),
    ) by {
        lemma_group_at_encoded(data, g);
        assert(bits_differing(group_at(encoded_parts(data), g), group_at(parts, g), 24) <= 3);
        lemma_close_three_flips(padded_block(data, g), group_at(parts, g));
    }
    lemma_decoded_bytes_close(data, parts);
}

} // verus!
