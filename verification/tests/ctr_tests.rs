use phnx::ctr::{ctr_apply, keystream_batch};
use phnx::speck::{speck_encrypt, speck_schedule};

const TEST_KEY: [u64; 4] = [
    0x0706050403020100,
    0x0f0e0d0c0b0a0908,
    0x1716151413121110,
    0x1f1e1d1c1b1a1918,
];

fn hex(bytes: &[u8]) -> String {
    let mut out = String::new();
    for b in bytes {
        out.push_str(&format!("{:02x}", b));
    }
    out
}

#[test]
fn keystream_is_the_encrypted_counter_blocks() {
    let schedule = speck_schedule(&TEST_KEY);
    let mut zeros = vec![0u8; 80];
    let next = ctr_apply(&mut zeros, &schedule, 7, 0);
    assert_eq!(next, 8);
    assert_eq!(
        hex(&zeros),
        "4007bdd3ee9796261e615f601f6b8b21bbfb236b81f78a4011e9a859f3c6e3d2\
         1b2397684de702722007adf156c944963f6ab96851a4075a605a89c8e07c7a40\
         2a89e496841b5d8d1e0dfddefd6a17a3"
    );
    for block in 0..5u64 {
        let words = speck_encrypt(&[7, block], &schedule);
        let at = 16 * block as usize;
        assert_eq!(zeros[at..at + 8], words[0].to_le_bytes());
        assert_eq!(zeros[at + 8..at + 16], words[1].to_le_bytes());
    }
}

#[test]
fn keystream_batch_orders_words_as_they_meet_the_data() {
    let schedule = speck_schedule(&TEST_KEY);
    let words = keystream_batch(&schedule, 9, 100);
    for w in 0..8 {
        let block = speck_encrypt(&[9, 100 + (w as u64) / 2], &schedule);
        assert_eq!(words[w], block[w % 2]);
    }
}

#[test]
fn applying_twice_gives_back_the_data() {
    let schedule = speck_schedule(&TEST_KEY);
    for len in [0usize, 1, 15, 16, 63, 64, 65, 200] {
        let data: Vec<u8> = (0..len).map(|i| (i * 3 + 1) as u8).collect();
        let mut buffer = data.clone();
        ctr_apply(&mut buffer, &schedule, 0xdead_beef, 0);
        if len > 0 {
            assert_ne!(buffer, data);
        }
        ctr_apply(&mut buffer, &schedule, 0xdead_beef, 0);
        assert_eq!(buffer, data);
    }
}

#[test]
fn counter_advances_by_whole_batches() {
    let schedule = speck_schedule(&TEST_KEY);
    for (len, next) in [(0usize, 0u64), (1, 4), (64, 4), (65, 8), (128, 8), (76_800, 4800)] {
        let mut buffer = vec![0u8; len];
        assert_eq!(ctr_apply(&mut buffer, &schedule, 1, 0), next);
    }
    let mut buffer = vec![0u8; 1];
    assert_eq!(ctr_apply(&mut buffer, &schedule, 1, 40), 44);
}

#[test]
fn counter_wraps_at_the_top() {
    let schedule = speck_schedule(&TEST_KEY);
    let mut buffer = vec![0u8; 64];
    let next = ctr_apply(&mut buffer, &schedule, 5, 0xffff_ffff_ffff_fffe);
    assert_eq!(next, 2);
    let wrapped = speck_encrypt(&[5, 0], &schedule);
    assert_eq!(buffer[32..40], wrapped[0].to_le_bytes());
    let last = speck_encrypt(&[5, 0xffff_ffff_ffff_ffff], &schedule);
    assert_eq!(buffer[16..24], last[0].to_le_bytes());
}

#[test]
fn chunks_of_whole_batches_continue_the_keystream() {
    let schedule = speck_schedule(&TEST_KEY);
    let data: Vec<u8> = (0..300u32).map(|i| (i * 5) as u8).collect();
    let mut whole = data.clone();
    ctr_apply(&mut whole, &schedule, 77, 0);
    let mut first = data[..128].to_vec();
    let mut second = data[128..].to_vec();
    let next = ctr_apply(&mut first, &schedule, 77, 0);
    ctr_apply(&mut second, &schedule, 77, next);
    first.extend_from_slice(&second);
    assert_eq!(first, whole);
}

#[test]
fn nonce_changes_the_keystream() {
    let schedule = speck_schedule(&TEST_KEY);
    let mut a = vec![0u8; 16];
    let mut b = vec![0u8; 16];
    ctr_apply(&mut a, &schedule, 1, 0);
    ctr_apply(&mut b, &schedule, 2, 0);
    assert_ne!(a, b);
}
