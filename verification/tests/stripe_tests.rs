use phnx::golay::GolayCode;
use phnx::stripe::{
    decode_block_bytes, decode_chunk, encode_block_bytes, encode_chunk, part_len,
    parts_cover_len,
};

fn hex(bytes: &[u8]) -> String {
    let mut out = String::new();
    for b in bytes {
        out.push_str(&format!("{:02x}", b));
    }
    out
}

fn empty_slices() -> [Vec<u8>; 8] {
    [
        Vec::new(),
        Vec::new(),
        Vec::new(),
        Vec::new(),
        Vec::new(),
        Vec::new(),
        Vec::new(),
        Vec::new(),
    ]
}

fn present(slices: &[Vec<u8>; 8]) -> [Option<Vec<u8>>; 8] {
    [
        Some(slices[0].clone()),
        Some(slices[1].clone()),
        Some(slices[2].clone()),
        Some(slices[3].clone()),
        Some(slices[4].clone()),
        Some(slices[5].clone()),
        Some(slices[6].clone()),
        Some(slices[7].clone()),
    ]
}

const HELLO: [u8; 12] = *b"hello world!";

#[test]
fn encode_block_lays_out_bit_planes() {
    let gc = GolayCode::new();
    let group = encode_block_bytes(&HELLO, &gc);
    assert_eq!(
        hex(&group),
        "636f2f663e7f3b2d793c3a6c68656c6c6f20776f726c6421"
    );
    let one = encode_block_bytes(&[1, 0, 0, 0, 0, 0, 0, 0, 0, 0, 0, 0], &gc);
    assert_eq!(
        hex(&one),
        "010100010001000100010001010000000000000000000000"
    );
}

#[test]
fn encode_block_bit_of_byte_is_bit_of_codeword() {
    let gc = GolayCode::new();
    let group = encode_block_bytes(&HELLO, &gc);
    for plane in 0..8 {
        let mut word = 0u32;
        for (j, b) in HELLO.iter().enumerate() {
            word |= (((*b >> plane) & 1) as u32) << j;
        }
        let codeword = gc.encode(word);
        for p in 0..24 {
            assert_eq!(((group[p] >> plane) & 1) as u32, (codeword >> p) & 1);
        }
    }
}

#[test]
fn decode_block_undoes_encode_block() {
    let gc = GolayCode::new();
    let mut counts = GolayCode::new();
    let group = encode_block_bytes(&HELLO, &gc);
    assert_eq!(decode_block_bytes(&group, &mut counts), HELLO);
    assert_eq!(counts.processed_codewords, 8);
    assert_eq!(counts.corrected_codewords, 0);
    assert_eq!(counts.uncorrectable_codewords, 0);
}

#[test]
fn decode_block_survives_any_lost_slice() {
    let gc = GolayCode::new();
    let block: [u8; 12] = [0xff, 0x00, 0xa5, 0x5a, 0x12, 0x34, 0x56, 0x78, 0x9a, 0xbc, 0xde, 0xf0];
    let group = encode_block_bytes(&block, &gc);
    for k in 0..8 {
        let mut damaged = group;
        damaged[3 * k] = 0;
        damaged[3 * k + 1] = 0;
        damaged[3 * k + 2] = 0;
        let mut counts = GolayCode::new();
        assert_eq!(decode_block_bytes(&damaged, &mut counts), block);
        assert_eq!(counts.uncorrectable_codewords, 0);
    }
}

#[test]
fn decode_block_survives_three_flipped_bits() {
    let gc = GolayCode::new();
    let group = encode_block_bytes(&HELLO, &gc);
    for (a, b, c) in [(0usize, 1usize, 2usize), (0, 100, 191), (7, 8, 9), (23, 95, 180)] {
        let mut damaged = group;
        for bit in [a, b, c] {
            damaged[bit / 8] ^= 1 << (bit % 8);
        }
        let mut counts = GolayCode::new();
        assert_eq!(decode_block_bytes(&damaged, &mut counts), HELLO);
        assert!(counts.corrected_codewords > 0);
        assert_eq!(counts.uncorrectable_codewords, 0);
    }
}

#[test]
fn decode_block_marks_a_plane_it_cannot_correct() {
    let gc = GolayCode::new();
    let group = encode_block_bytes(&[0u8; 12], &gc);
    let mut damaged = group;
    // Four errors in plane 0.
    damaged[0] ^= 1;
    damaged[1] ^= 1;
    damaged[2] ^= 1;
    damaged[3] ^= 1;
    let mut counts = GolayCode::new();
    let block = decode_block_bytes(&damaged, &mut counts);
    assert_eq!(block, [1u8; 12]);
    assert_eq!(counts.processed_codewords, 8);
    assert_eq!(counts.uncorrectable_codewords, 1);
}

#[test]
fn encode_chunk_appends_three_bytes_per_block() {
    let gc = GolayCode::new();
    let mut slices = empty_slices();
    slices[0].push(0xee);
    encode_chunk(b"hello world!", &mut slices, &gc);
    assert_eq!(hex(&slices[0]), "ee636f2f");
    assert_eq!(hex(&slices[1]), "663e7f");
    assert_eq!(hex(&slices[4]), "68656c");
    assert_eq!(hex(&slices[7]), "6c6421");
    encode_chunk(&[1], &mut slices, &gc);
    assert_eq!(hex(&slices[0]), "ee636f2f010100");
    assert_eq!(hex(&slices[7]), "6c6421000000");
}

#[test]
fn encode_chunk_pads_the_last_block_with_zeros() {
    let gc = GolayCode::new();
    let mut short = empty_slices();
    encode_chunk(b"hello world!x", &mut short, &gc);
    let mut padded = empty_slices();
    encode_chunk(b"hello world!x\0\0\0\0\0\0\0\0\0\0\0", &mut padded, &gc);
    assert_eq!(short, padded);
    assert_eq!(short[3].len(), 6);
    let mut none = empty_slices();
    encode_chunk(&[], &mut none, &gc);
    assert_eq!(none, empty_slices());
}

#[test]
fn encode_chunk_in_pieces_is_encode_chunk_at_once() {
    let gc = GolayCode::new();
    let data: Vec<u8> = (0..120u32).map(|i| (i * 31 + 7) as u8).collect();
    let mut whole = empty_slices();
    encode_chunk(&data, &mut whole, &gc);
    let mut pieces = empty_slices();
    encode_chunk(&data[..48], &mut pieces, &gc);
    encode_chunk(&data[48..], &mut pieces, &gc);
    assert_eq!(whole, pieces);
}

#[test]
fn decode_chunk_undoes_encode_chunk() {
    let gc = GolayCode::new();
    let data: Vec<u8> = (0..100u32).map(|i| (i * 13 + 5) as u8).collect();
    let mut slices = empty_slices();
    encode_chunk(&data, &mut slices, &gc);
    assert_eq!(slices[0].len(), 27);
    let mut counts = GolayCode::new();
    let out = decode_chunk(&present(&slices), 100, &mut counts);
    assert_eq!(out, Some(data));
    assert_eq!(counts.processed_codewords, 72);
    assert_eq!(counts.corrected_codewords, 0);
    assert_eq!(counts.uncorrectable_codewords, 0);
}

#[test]
fn decode_chunk_reads_a_missing_slice_as_zeros() {
    let gc = GolayCode::new();
    let data: Vec<u8> = (0..60u32).map(|i| (i * 77 + 1) as u8).collect();
    let mut slices = empty_slices();
    encode_chunk(&data, &mut slices, &gc);
    for k in 0..8 {
        let mut parts = present(&slices);
        parts[k] = None;
        let mut counts = GolayCode::new();
        assert_eq!(decode_chunk(&parts, 60, &mut counts), Some(data.clone()));
        assert_eq!(counts.uncorrectable_codewords, 0);
        let mut zeroed = present(&slices);
        zeroed[k] = Some(vec![0u8; 15]);
        let mut counts_zeroed = GolayCode::new();
        assert_eq!(decode_chunk(&zeroed, 60, &mut counts_zeroed), Some(data.clone()));
        assert_eq!(counts.corrected_codewords, counts_zeroed.corrected_codewords);
    }
}

#[test]
fn decode_chunk_refuses_a_short_part() {
    let gc = GolayCode::new();
    let mut slices = empty_slices();
    encode_chunk(&[7u8; 24], &mut slices, &gc);
    let mut parts = present(&slices);
    parts[5] = Some(vec![0u8; 5]);
    let mut counts = GolayCode::new();
    counts.processed_codewords = 3;
    assert_eq!(decode_chunk(&parts, 24, &mut counts), None);
    assert_eq!(counts.processed_codewords, 3);
    assert_eq!(decode_chunk(&parts, 12, &mut counts), Some(vec![7u8; 12]));
    assert_eq!(counts.processed_codewords, 11);
    assert!(parts_cover_len(&parts, 12));
    assert!(!parts_cover_len(&parts, 13));
    parts[5] = None;
    assert!(parts_cover_len(&parts, 24));
    assert!(!parts_cover_len(&parts, 25));
    assert!(parts_cover_len(&parts, 0));
}

#[test]
fn decode_chunk_cuts_the_last_block() {
    let gc = GolayCode::new();
    let mut slices = empty_slices();
    encode_chunk(b"hello world!x", &mut slices, &gc);
    let mut counts = GolayCode::new();
    assert_eq!(
        decode_chunk(&present(&slices), 13, &mut counts),
        Some(b"hello world!x".to_vec())
    );
    assert_eq!(
        decode_chunk(&present(&slices), 5, &mut counts),
        Some(b"hello".to_vec())
    );
    assert_eq!(decode_chunk(&present(&slices), 0, &mut counts), Some(vec![]));
    assert_eq!(counts.processed_codewords, 24);
}

#[test]
fn part_len_is_three_bytes_for_every_block() {
    assert_eq!(part_len(0), 0);
    assert_eq!(part_len(1), 3);
    assert_eq!(part_len(12), 3);
    assert_eq!(part_len(13), 6);
    assert_eq!(part_len(24), 6);
    assert_eq!(part_len(76_800), 19_200);
    assert_eq!(part_len(100_000 % 76_800), 3 * 1934);
}
