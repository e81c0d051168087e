use phnx::speck::{
    bytes_to_uint64, key_from_password, speck_decrypt, speck_encrypt, speck_encrypt4,
    speck_round, speck_schedule, speck_unround,
};

const TEST_KEY: [u64; 4] = [
    0x0706050403020100,
    0x0f0e0d0c0b0a0908,
    0x1716151413121110,
    0x1f1e1d1c1b1a1918,
];
const TEST_PLAINTEXT: [u64; 2] = [0x202e72656e6f6f70, 0x65736f6874206e49];
const TEST_CIPHERTEXT: [u64; 2] = [0x4eeeb48d9c188f43, 0x4109010405c0f53e];

#[test]
fn round_adds_rotates_and_xors() {
    let mut x: u64 = 0x0123_4567_89ab_cdef;
    let mut y: u64 = 0xfedc_ba98_7654_3210;
    let k: u64 = 0x0f0f_0f0f_0f0f_0f0f;
    speck_round(&mut x, &mut y, k);
    let ex = 0x0123_4567_89ab_cdefu64
        .rotate_right(8)
        .wrapping_add(0xfedc_ba98_7654_3210)
        ^ k;
    let ey = 0xfedc_ba98_7654_3210u64.rotate_left(3) ^ ex;
    assert_eq!(x, ex);
    assert_eq!(y, ey);
}

#[test]
fn round_wraps_on_overflow() {
    let mut x: u64 = 0xffff_ffff_ffff_ffff;
    let mut y: u64 = 1;
    speck_round(&mut x, &mut y, 0);
    assert_eq!(x, 0);
    assert_eq!(y, 8);
}

#[test]
fn unround_undoes_round() {
    let mut x: u64 = 0xdead_beef_0bad_f00d;
    let mut y: u64 = 0x0011_2233_4455_6677;
    speck_round(&mut x, &mut y, 0x1234);
    speck_unround(&mut x, &mut y, 0x1234);
    assert_eq!(x, 0xdead_beef_0bad_f00d);
    assert_eq!(y, 0x0011_2233_4455_6677);
}

#[test]
fn schedule_starts_with_the_first_key_word() {
    let schedule = speck_schedule(&TEST_KEY);
    assert_eq!(schedule.len(), 34);
    assert_eq!(schedule[0], TEST_KEY[0]);
    let mut l = TEST_KEY[1];
    let mut a = TEST_KEY[0];
    speck_round(&mut l, &mut a, 0);
    assert_eq!(schedule[1], a);
}

#[test]
fn encrypt_reproduces_the_test_vector() {
    let schedule = speck_schedule(&TEST_KEY);
    assert_eq!(speck_encrypt(&TEST_PLAINTEXT, &schedule), TEST_CIPHERTEXT);
}

#[test]
fn decrypt_reproduces_the_test_vector() {
    let schedule = speck_schedule(&TEST_KEY);
    assert_eq!(speck_decrypt(&TEST_CIPHERTEXT, &schedule), TEST_PLAINTEXT);
}

#[test]
fn block_decrypt_undoes_block_encrypt() {
    let mut state: u64 = 0x9e37_79b9_7f4a_7c15;
    for _ in 0..50 {
        let mut words = [0u64; 6];
        for w in words.iter_mut() {
            state = state
                .wrapping_mul(6364136223846793005)
                .wrapping_add(1442695040888963407);
            *w = state;
        }
        let schedule = speck_schedule(&[words[0], words[1], words[2], words[3]]);
        let block = [words[4], words[5]];
        let ct = speck_encrypt(&block, &schedule);
        assert_ne!(ct, block);
        assert_eq!(speck_decrypt(&ct, &schedule), block);
    }
}

#[test]
fn encrypt4_encrypts_each_lane_alone() {
    let schedule = speck_schedule(&TEST_KEY);
    let input: [u64; 8] = [7, 7, 7, 7, 0, 1, 2, 3];
    let out = speck_encrypt4(&input, &schedule);
    for lane in 0..4 {
        let single = speck_encrypt(&[input[lane], input[lane + 4]], &schedule);
        assert_eq!(out[lane], single[0]);
        assert_eq!(out[lane + 4], single[1]);
    }
    let with_vector = speck_encrypt4(
        &[
            TEST_PLAINTEXT[0],
            0,
            0,
            0,
            TEST_PLAINTEXT[1],
            0,
            0,
            0,
        ],
        &schedule,
    );
    assert_eq!(with_vector[0], TEST_CIPHERTEXT[0]);
    assert_eq!(with_vector[4], TEST_CIPHERTEXT[1]);
}

#[test]
fn bytes_to_uint64_reads_little_endian() {
    assert_eq!(bytes_to_uint64(b"pooner. "), TEST_PLAINTEXT[0]);
    assert_eq!(bytes_to_uint64(b"In those"), TEST_PLAINTEXT[1]);
    assert_eq!(bytes_to_uint64(&[]), 0);
    assert_eq!(bytes_to_uint64(&[0x12]), 0x12);
    assert_eq!(bytes_to_uint64(&[0x34, 0x12]), 0x1234);
    assert_eq!(
        bytes_to_uint64(&[1, 2, 3, 4, 5, 6, 7, 8]),
        0x0807_0605_0403_0201
    );
}

#[test]
fn key_from_password_pads_with_zeros() {
    assert_eq!(key_from_password(b""), [0, 0, 0, 0]);
    assert_eq!(key_from_password(b"hello"), [0x6f6c6c6568, 0, 0, 0]);
    assert_eq!(
        key_from_password(b"12345678"),
        [0x3837363534333231, 0, 0, 0]
    );
    assert_eq!(
        key_from_password(b"123456789"),
        [0x3837363534333231, 0x39, 0, 0]
    );
}

#[test]
fn key_from_password_uses_thirty_two_bytes() {
    let bytes: Vec<u8> = (0u8..32).collect();
    assert_eq!(key_from_password(&bytes), TEST_KEY);
    let longer: Vec<u8> = (0u8..40).collect();
    assert_eq!(key_from_password(&longer), TEST_KEY);
    let shorter: Vec<u8> = (0u8..31).collect();
    assert_eq!(
        key_from_password(&shorter),
        [
            TEST_KEY[0],
            TEST_KEY[1],
            TEST_KEY[2],
            0x001e1d1c1b1a1918
        ]
    );
}

#[test]
fn speck_self_test_passes() {
    assert!(phnx::speck::self_test());
}

#[test]
fn known_answer_is_the_published_one() {
    assert_eq!(phnx::known_answer::TEST_KEY, TEST_KEY);
    assert_eq!(phnx::known_answer::TEST_PLAINTEXT, TEST_PLAINTEXT);
    assert_eq!(phnx::known_answer::TEST_CIPHERTEXT, TEST_CIPHERTEXT);
    assert_eq!(&phnx::speck::TEST_TEXT, b"pooner. In those");
}
