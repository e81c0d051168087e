use phnx::speck::speck_schedule;
use phnx::trailer::{
    compute_checksum_tag, open_compat_trailer, open_protected_trailer, push_word,
    seal_compat_trailer, seal_protected_trailer, Trailer,
};

const TEST_KEY: [u64; 4] = [
    0x0706050403020100,
    0x0f0e0d0c0b0a0908,
    0x1716151413121110,
    0x1f1e1d1c1b1a1918,
];
const PAD0: u64 = 0xd6f7f285f878bc76;
const PAD1: u64 = 0xec1323359281a82f;
const PAD2: u64 = 0x8a1f915e2be0b7e1;

#[test]
fn push_word_appends_little_endian_bytes() {
    let mut out = vec![9u8];
    push_word(&mut out, 0x0102_0304_0506_0708);
    assert_eq!(out, vec![9, 8, 7, 6, 5, 4, 3, 2, 1]);
}

#[test]
fn protected_trailer_is_three_padded_words() {
    let schedule = speck_schedule(&TEST_KEY);
    let t = Trailer { crc: 0x1234_5678, nonce: 0x1111_2222_3333_4444, length: 1000 };
    let bytes = seal_protected_trailer(&t, &schedule);
    assert_eq!(bytes.len(), 24);
    let mut expected = Vec::new();
    expected.extend_from_slice(&(0x1234_5678_1234_5678u64 ^ PAD0).to_le_bytes());
    expected.extend_from_slice(&(0x1111_2222_3333_4444u64 ^ PAD1).to_le_bytes());
    expected.extend_from_slice(&(1000u64 ^ PAD2).to_le_bytes());
    assert_eq!(bytes, expected);
}

#[test]
fn compat_trailer_is_two_padded_words() {
    let schedule = speck_schedule(&TEST_KEY);
    let t = Trailer { crc: 0xdead_beef, nonce: 42, length: 0 };
    let bytes = seal_compat_trailer(&t, &schedule);
    assert_eq!(bytes.len(), 16);
    let mut expected = Vec::new();
    expected.extend_from_slice(&(0xdead_beef_dead_beefu64 ^ PAD0).to_le_bytes());
    expected.extend_from_slice(&(42u64 ^ PAD1).to_le_bytes());
    assert_eq!(bytes, expected);
}

#[test]
fn opening_a_sealed_trailer_shows_what_was_sealed() {
    let schedule = speck_schedule(&TEST_KEY);
    for t in [
        Trailer { crc: 0, nonce: 0, length: 0 },
        Trailer { crc: 0xffff_ffff, nonce: u64::MAX, length: u64::MAX },
        Trailer { crc: 0x9fa3_39a9, nonce: 0x0123_4567_89ab_cdef, length: 100_000 },
    ] {
        let sealed = seal_protected_trailer(&t, &schedule);
        assert_eq!(open_protected_trailer(&sealed, &schedule), Some(t));
        let compat = seal_compat_trailer(&t, &schedule);
        assert_eq!(
            open_compat_trailer(&compat, &schedule),
            Some(Trailer { crc: t.crc, nonce: t.nonce, length: 0 })
        );
    }
}

#[test]
fn opening_under_another_key_shows_disagreeing_halves() {
    let schedule = speck_schedule(&TEST_KEY);
    let other = speck_schedule(&[1, 2, 3, 4]);
    let t = Trailer { crc: 0x1234_5678, nonce: 5, length: 6 };
    assert_eq!(
        open_protected_trailer(&seal_protected_trailer(&t, &schedule), &other),
        None
    );
    assert_eq!(
        open_compat_trailer(&seal_compat_trailer(&t, &schedule), &other),
        None
    );
}

#[test]
fn a_damaged_first_word_does_not_open() {
    let schedule = speck_schedule(&TEST_KEY);
    let t = Trailer { crc: 0x1234_5678, nonce: 5, length: 6 };
    let mut sealed = seal_protected_trailer(&t, &schedule);
    sealed[0] ^= 1;
    assert_eq!(open_protected_trailer(&sealed, &schedule), None);
    sealed[4] ^= 1;
    assert_eq!(
        open_protected_trailer(&sealed, &schedule),
        Some(Trailer { crc: 0x1234_5679, nonce: 5, length: 6 })
    );
}

#[test]
fn checksum_tag_is_the_low_half_of_an_encrypted_block() {
    let schedule = speck_schedule(&TEST_KEY);
    let before: u32 = 0x364b_3fb7;
    let after: u32 = 0x0000_0055;
    let block = phnx::speck::speck_encrypt(&[0x364b_3fb7_0000_0055, 3], &schedule);
    assert_eq!(compute_checksum_tag(before, after, 3, &schedule), block[0] as u32);
    assert_ne!(
        compute_checksum_tag(before, after, 3, &schedule),
        compute_checksum_tag(after, before, 3, &schedule)
    );
    assert_ne!(
        compute_checksum_tag(before, after, 3, &schedule),
        compute_checksum_tag(before, after, 4, &schedule)
    );
}
