use phnx::golay::{count_ones, GolayCode, GOLAY_MATRIX};

fn words_of_weight_up_to_three() -> Vec<u32> {
    let mut out = vec![0u32];
    for a in 0..24 {
        out.push(1 << a);
        for b in (a + 1)..24 {
            out.push((1 << a) | (1 << b));
            for c in (b + 1)..24 {
                out.push((1 << a) | (1 << b) | (1 << c));
            }
        }
    }
    out
}

#[test]
fn count_ones_counts_the_one_bits() {
    assert_eq!(count_ones(0), 0);
    assert_eq!(count_ones(1), 1);
    assert_eq!(count_ones(0x8000_0000), 1);
    assert_eq!(count_ones(0xffff_ffff), 32);
    assert_eq!(count_ones(0x9f1), 7);
    assert_eq!(count_ones(0xaab), 7);
    assert_eq!(count_ones(0x1234_5678), 13);
}

#[test]
fn checksum_of_a_unit_vector_is_a_row() {
    for i in 0..12 {
        assert_eq!(GolayCode::checksum_bits(1 << (11 - i)), GOLAY_MATRIX[i]);
    }
}

#[test]
fn checksum_ignores_bits_above_the_twelfth() {
    assert_eq!(GolayCode::checksum_bits(0xffff_f000), 0);
    assert_eq!(GolayCode::checksum_bits(0x1001), GolayCode::checksum_bits(1));
}

#[test]
fn encode_appends_the_check_bits() {
    let gc = GolayCode::new();
    assert_eq!(gc.encode(0), 0);
    assert_eq!(gc.encode(1), 0x001aab);
    assert_eq!(gc.encode(0x800), 0x8009f1);
    assert_eq!(gc.encode(0x801), 0x80135a);
    assert_eq!(gc.encode(0x123), 0x1239e7);
    assert_eq!(gc.encode(0xf001), 0x001aab);
}

#[test]
fn decode_of_encode_is_identity_with_nothing_corrected() {
    let mut gc = GolayCode::new();
    for x in 0..4096u32 {
        let cw = gc.encode(x);
        assert_eq!(gc.decode(cw), x as i32);
    }
    assert_eq!(gc.processed_codewords, 4096);
    assert_eq!(gc.corrected_codewords, 0);
    assert_eq!(gc.uncorrectable_codewords, 0);
}

#[test]
fn decode_corrects_every_error_of_up_to_three_bits() {
    let masks = words_of_weight_up_to_three();
    assert_eq!(masks.len(), 1 + 24 + 276 + 2024);
    let mut gc = GolayCode::new();
    for x in [0u32, 1, 0x555, 0xaaa, 0xfff, 0x123, 0x800, 0x7c9] {
        let cw = gc.encode(x);
        for m in &masks {
            assert_eq!(gc.decode(cw ^ m), x as i32);
        }
    }
    assert_eq!(gc.processed_codewords, 8 * 2325);
    assert_eq!(gc.corrected_codewords, 8 * 2324);
    assert_eq!(gc.uncorrectable_codewords, 0);
}

#[test]
fn decode_corrects_for_every_data_word() {
    let mut gc = GolayCode::new();
    for x in 0..4096u32 {
        let cw = gc.encode(x);
        assert_eq!(gc.decode(cw ^ 0x80_0000), x as i32);
        assert_eq!(gc.decode(cw ^ 0x00_0801), x as i32);
        assert_eq!(gc.decode(cw ^ 0x10_0410), x as i32);
        assert_eq!(gc.decode(cw ^ 0x00_0007), x as i32);
        assert_eq!(gc.decode(cw ^ 0xe0_0000), x as i32);
    }
    assert_eq!(gc.corrected_codewords, 5 * 4096);
}

#[test]
fn decode_reports_four_errors_as_uncorrectable() {
    let mut gc = GolayCode::new();
    let cw = gc.encode(0x123);
    // Four errors lie halfway between codewords: the decoder gives up.
    assert_eq!(gc.decode(cw ^ 0x00_000f), -1);
    assert_eq!(gc.decode(cw ^ 0xf0_0000), -1);
    assert_eq!(gc.processed_codewords, 2);
    assert_eq!(gc.corrected_codewords, 0);
    assert_eq!(gc.uncorrectable_codewords, 2);
}

#[test]
fn decode_counts_every_word_once() {
    let mut gc = GolayCode::new();
    let cw = gc.encode(0xabc);
    for a in 0..24u32 {
        for b in (a + 1)..24 {
            // Five errors: the decoder fails or lands on another codeword.
            let m = (1 << a) | (1 << b) | (0x7 << ((a + 3) % 20));
            let r = gc.decode(cw ^ m);
            assert!(r == -1 || (0..4096).contains(&r));
        }
    }
    assert_eq!(gc.processed_codewords, 276);
    assert!(gc.corrected_codewords + gc.uncorrectable_codewords <= 276);
}

#[test]
fn decode_ignores_bits_above_the_codeword() {
    let mut gc = GolayCode::new();
    let cw = gc.encode(0x5a5);
    assert_eq!(gc.decode(cw | 0xff00_0000), 0x5a5);
    assert_eq!(gc.corrected_codewords, 0);
}

#[test]
fn new_codec_has_zero_counters() {
    let gc = GolayCode::new();
    assert_eq!(gc.processed_codewords, 0);
    assert_eq!(gc.corrected_codewords, 0);
    assert_eq!(gc.uncorrectable_codewords, 0);
}

#[test]
fn golay_self_test_passes() {
    assert!(phnx::golay::self_test());
}

#[test]
fn room_for_compares_with_the_largest_count() {
    let mut gc = GolayCode::new();
    assert!(gc.room_for(0));
    assert!(gc.room_for(1));
    assert!(gc.room_for(0x7fff_ffff));
    assert!(!gc.room_for(0x8000_0000));
    assert!(!gc.room_for(u64::MAX));
    gc.corrected_codewords = 0x7fff_fff0;
    assert!(gc.room_for(15));
    assert!(!gc.room_for(16));
    gc.corrected_codewords = 0;
    gc.uncorrectable_codewords = 0x7fff_ffff;
    assert!(gc.room_for(0));
    assert!(!gc.room_for(1));
    gc.uncorrectable_codewords = 0;
    gc.processed_codewords = -5;
    assert!(gc.room_for(0x7fff_ffff));
}
