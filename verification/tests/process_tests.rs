use phnx::crc32c::Crc32c;
use phnx::golay::GolayCode;
use phnx::compat::{
    compat_body_length, decrypt_bytes, decrypt_verdict, encrypt_bytes, verify_bytes,
    verify_verdict,
};
use phnx::process::{
    exit_code, mix_nonce, Failure, PHNX_FORMAT_ERROR, PHNX_IO_ERROR, PHNX_OK,
    PHNX_SELF_TEST_FAILED, PHNX_UNCORRECTABLE_ERROR, PHNX_WRONG_PASSWORD,
};
use phnx::protect::{
    check_missing, count_missing, payload_length, protect_bytes, recover_bytes,
    empty_tally, recover_verdict, take_tails, Protector, Recoverer, Tally,
    SLICE_TRAILER_BYTES,
};
use phnx::transfer::{next_chunk_len, Transfer, CHUNK_SIZE};
use phnx::speck::{key_from_password, speck_schedule};
use phnx::stripe::{decode_chunk, encode_chunk};
use phnx::trailer::{open_protected_trailer, seal_protected_trailer, Trailer};

const TEST_KEY: [u64; 4] = [
    0x0706050403020100,
    0x0f0e0d0c0b0a0908,
    0x1716151413121110,
    0x1f1e1d1c1b1a1918,
];
const RANDOM: u64 = 0x0123_4567_89ab_cdef;

fn hex(bytes: &[u8]) -> String {
    let mut out = String::new();
    for b in bytes {
        out.push_str(&format!("{:02x}", b));
    }
    out
}

fn checksum(data: &[u8]) -> u32 {
    let mut crc = Crc32c::new();
    crc.update_slice(data);
    crc.finalize()
}

fn schedule_of(password: &[u8]) -> [u64; 34] {
    speck_schedule(&key_from_password(password))
}

fn pseudorandom(len: usize) -> Vec<u8> {
    let mut state: u64 = 12345;
    let mut out = Vec::with_capacity(len);
    for _ in 0..len {
        state = state
            .wrapping_mul(6364136223846793005)
            .wrapping_add(1442695040888963407);
        out.push((state >> 56) as u8);
    }
    out
}

fn present(slices: &[Vec<u8>; 8]) -> [Option<Vec<u8>>; 8] {
    [
        Some(slices[0].clone()),
        Some(slices[1].clone()),
        Some(slices[2].clone()),
        Some(slices[3].clone()),
        Some(slices[4].clone()),
        Some(slices[5].clone()),
        Some(slices[6].clone()),
        Some(slices[7].clone()),
    ]
}

fn large_file() -> (Vec<u8>, [u64; 34], [Vec<u8>; 8]) {
    let data = pseudorandom(100_000);
    let schedule = schedule_of(b"correct horse battery staple");
    let slices = protect_bytes(&data, &schedule, RANDOM);
    (data, schedule, slices)
}

#[test]
fn exit_codes_are_as_documented() {
    assert_eq!(exit_code(None), 0);
    assert_eq!(exit_code(Some(Failure::Io)), 1);
    assert_eq!(exit_code(Some(Failure::WrongPassword)), 2);
    assert_eq!(exit_code(Some(Failure::Uncorrectable)), 3);
    assert_eq!(exit_code(Some(Failure::Format)), 4);
    assert_eq!(
        [
            PHNX_OK,
            PHNX_IO_ERROR,
            PHNX_WRONG_PASSWORD,
            PHNX_UNCORRECTABLE_ERROR,
            PHNX_FORMAT_ERROR,
            PHNX_SELF_TEST_FAILED
        ],
        [0, 1, 2, 3, 4, 5]
    );
}

#[test]
fn chunk_size_is_whole_batches_and_blocks() {
    assert_eq!(CHUNK_SIZE, 16 * 4 * 12 * 100);
    assert_eq!(next_chunk_len(0), 0);
    assert_eq!(next_chunk_len(1), 1);
    assert_eq!(next_chunk_len(76_799), 76_799);
    assert_eq!(next_chunk_len(76_800), 76_800);
    assert_eq!(next_chunk_len(76_801), 76_800);
    assert_eq!(next_chunk_len(u64::MAX), 76_800);
}

#[test]
fn nonce_is_length_xor_random() {
    assert_eq!(mix_nonce(0, 0), 0);
    assert_eq!(mix_nonce(100_000, 0), 100_000);
    assert_eq!(mix_nonce(0xff00, 0x0ff0), 0xf0f0);
}

#[test]
fn transfer_tracks_both_checksums() {
    let schedule = speck_schedule(&TEST_KEY);
    let mut transfer = Transfer::new(&schedule, 3, 3);
    assert_eq!(transfer.checksum_before(), 0);
    assert_eq!(transfer.checksum_after(), 0);
    assert_eq!(transfer.remaining(), 3);
    assert_eq!(transfer.next_len(), 3);
    assert_eq!(transfer.nonce_value(), 3);
    assert_eq!(transfer.schedule_value(), &schedule);
    let mut chunk = b"abc".to_vec();
    transfer.apply(&mut chunk);
    assert_eq!(hex(&chunk), "2c5113");
    assert_eq!(transfer.checksum_before(), 0x364b_3fb7);
    assert_eq!(transfer.checksum_after(), checksum(&[0x2c, 0x51, 0x13]));
    assert_eq!(transfer.remaining(), 0);
    assert_eq!(transfer.next_len(), 0);
}

#[test]
fn transfer_in_chunks_is_transfer_at_once() {
    let schedule = speck_schedule(&TEST_KEY);
    let data = pseudorandom(2 * CHUNK_SIZE + 1000);
    let mut whole = data.clone();
    phnx::ctr::ctr_apply(&mut whole, &schedule, 99, 0);
    let mut in_chunks = Transfer::new(&schedule, 99, data.len() as u64);
    let mut out = Vec::new();
    let mut done = 0usize;
    let mut chunks = 0;
    while in_chunks.remaining() > 0 {
        let len = in_chunks.next_len();
        let mut chunk = data[done..done + len].to_vec();
        in_chunks.apply(&mut chunk);
        out.extend_from_slice(&chunk);
        done += len;
        chunks += 1;
    }
    assert_eq!(chunks, 3);
    assert_eq!(out, whole);
    assert_eq!(in_chunks.checksum_before(), checksum(&data));
    assert_eq!(in_chunks.checksum_after(), checksum(&whole));
    let encrypted = encrypt_bytes(&data, &schedule, 99 ^ data.len() as u64);
    assert_eq!(encrypted[..data.len()], whole[..]);
}

#[test]
fn protector_hands_out_the_slices_chunk_by_chunk() {
    let schedule = schedule_of(b"hello");
    let data = pseudorandom(CHUNK_SIZE + 100);
    let whole = protect_bytes(&data, &schedule, RANDOM);
    let mut protector = Protector::new(&schedule, data.len() as u64, RANDOM);
    let mut slices: [Vec<u8>; 8] = Default::default();
    let mut done = 0usize;
    let mut lens = Vec::new();
    assert_eq!(protector.remaining(), data.len() as u64);
    while protector.remaining() > 0 {
        let len = protector.next_len();
        lens.push(len);
        let parts = protector.feed(&data[done..done + len]);
        for k in 0..8 {
            assert_eq!(parts[k].len(), 3 * ((len + 11) / 12));
            slices[k].extend_from_slice(&parts[k]);
        }
        done += len;
    }
    assert_eq!(lens, vec![CHUNK_SIZE, 100]);
    let parts = protector.finish();
    for k in 0..8 {
        assert_eq!(parts[k].len(), SLICE_TRAILER_BYTES);
        slices[k].extend_from_slice(&parts[k]);
    }
    assert_eq!(slices, whole);
}

#[test]
fn recoverer_takes_the_slices_chunk_by_chunk() {
    let schedule = schedule_of(b"hello");
    let data = pseudorandom(CHUNK_SIZE + 100);
    let slices = protect_bytes(&data, &schedule, RANDOM);
    let mut parts = present(&slices);
    parts[6] = None;
    let tails = take_tails(&parts);
    let mut recoverer = match Recoverer::open(&tails, &schedule) {
        Ok(recoverer) => recoverer,
        Err(_) => panic!("the trailer does not open"),
    };
    assert_eq!(
        recoverer.trailer_read(),
        Trailer { crc: checksum(&data), nonce: data.len() as u64 ^ RANDOM, length: data.len() as u64 }
    );
    assert_eq!(recoverer.remaining(), data.len() as u64);
    assert_eq!(recoverer.tally().processed, 16);
    let mut content = Vec::new();
    let mut offset = 0usize;
    while recoverer.remaining() > 0 {
        let len = recoverer.next_part_len();
        assert_eq!(len, 3 * ((recoverer.next_len() + 11) / 12));
        let mut window: [Option<Vec<u8>>; 8] = Default::default();
        for k in 0..8 {
            window[k] = parts[k].as_ref().map(|bytes| bytes[offset..offset + len].to_vec());
        }
        match recoverer.feed(&window) {
            Some(chunk) => content.extend_from_slice(&chunk),
            None => panic!("a slice is too short"),
        }
        offset += len;
    }
    assert_eq!(recoverer.finish(), None);
    assert_eq!(recoverer.checksum(), checksum(&data));
    assert_eq!(content, data);
    assert_eq!(offset + SLICE_TRAILER_BYTES, slices[0].len());
    let whole = recover_bytes(&parts, &schedule);
    assert_eq!(whole.content, data);
    assert_eq!(
        whole.counts.corrected,
        recoverer.tally().corrected
    );
    assert_eq!(recoverer.tally(), whole.counts);
}

#[test]
fn recoverer_refuses_a_short_part_and_goes_on() {
    let schedule = schedule_of(b"hello");
    let data = pseudorandom(30);
    let slices = protect_bytes(&data, &schedule, RANDOM);
    let parts = present(&slices);
    let mut recoverer = match Recoverer::open(&take_tails(&parts), &schedule) {
        Ok(recoverer) => recoverer,
        Err(_) => panic!("the trailer does not open"),
    };
    let mut short = present(&slices);
    short[1] = Some(vec![0u8; 8]);
    assert_eq!(recoverer.feed(&short), None);
    assert_eq!(recoverer.remaining(), 30);
    assert_eq!(recoverer.tally().processed, 16);
    assert_eq!(recoverer.feed(&parts), Some(data));
    assert_eq!(recoverer.remaining(), 0);
    assert_eq!(recoverer.tally().processed, 16 + 24);
    assert_eq!(recoverer.finish(), None);
}

#[test]
fn recoverer_does_not_open_what_recover_refuses() {
    let schedule = schedule_of(b"hello");
    let slices = protect_bytes(b"abc", &schedule, RANDOM);
    let mut tails = take_tails(&present(&slices));
    assert!(matches!(
        Recoverer::open(&tails, &schedule_of(b"other")),
        Err(Failure::WrongPassword)
    ));
    tails[0] = Some(vec![0u8; 5]);
    assert!(matches!(Recoverer::open(&tails, &schedule), Err(Failure::Io)));
    tails[0] = None;
    assert!(Recoverer::open(&tails, &schedule).is_ok());
    tails[1] = None;
    assert!(matches!(
        Recoverer::open(&tails, &schedule),
        Err(Failure::Uncorrectable)
    ));
}

#[test]
fn one_byte_file_encrypts_to_seventeen_bytes() {
    let schedule = schedule_of(b"hello");
    let encrypted = encrypt_bytes(b"x", &schedule, 0);
    assert_eq!(encrypted.len(), 17);
    assert_eq!(hex(&encrypted), "65f7c87f7aff2a815e0c938283ec16024a");
    let with_random = encrypt_bytes(b"x", &schedule, RANDOM);
    assert_eq!(hex(&with_random), "3ef7c87f7aff2a815ee35e290a8b53214b");
    for file in [encrypted, with_random] {
        let out = decrypt_bytes(&file, &schedule);
        assert_eq!(out.failure, None);
        assert_eq!(out.content, b"x".to_vec());
    }
}

#[test]
fn decrypt_undoes_encrypt() {
    let schedule = schedule_of(b"correct horse battery staple");
    for len in [0usize, 1, 15, 16, 17, 63, 64, 65, 1000, 76_800, 76_801, 100_000] {
        let data = pseudorandom(len);
        let encrypted = encrypt_bytes(&data, &schedule, RANDOM);
        assert_eq!(encrypted.len(), len + 16);
        let out = decrypt_bytes(&encrypted, &schedule);
        assert_eq!(out.failure, None);
        assert_eq!(out.content, data);
    }
}

#[test]
fn large_file_encrypts_as_computed_by_hand() {
    let data = pseudorandom(100_000);
    assert_eq!(hex(&data[..8]), "1c43e2d5538fcb64");
    assert_eq!(checksum(&data), 0x9fa3_39a9);
    let schedule = schedule_of(b"correct horse battery staple");
    let encrypted = encrypt_bytes(&data, &schedule, RANDOM);
    assert_eq!(encrypted.len(), 100_016);
    assert_eq!(checksum(&encrypted), 0xea71_8e73);
}

#[test]
fn decrypt_with_another_password_is_a_wrong_password() {
    let encrypted = encrypt_bytes(b"some cleartext", &schedule_of(b"hello"), RANDOM);
    let out = decrypt_bytes(&encrypted, &schedule_of(b"hellp"));
    assert_eq!(out.failure, Some(Failure::WrongPassword));
    assert_eq!(exit_code(out.failure), 2);
    assert_eq!(out.content, encrypted);
}

#[test]
fn decrypt_of_a_short_file_is_a_format_error() {
    let schedule = schedule_of(b"hello");
    for len in [0usize, 1, 15] {
        let data = vec![0x55u8; len];
        let out = decrypt_bytes(&data, &schedule);
        assert_eq!(out.failure, Some(Failure::Format));
        assert_eq!(out.content, data);
    }
}

#[test]
fn decrypt_of_a_damaged_body_is_a_format_error() {
    let schedule = schedule_of(b"hello");
    let mut encrypted = encrypt_bytes(b"some cleartext", &schedule, RANDOM);
    encrypted[3] ^= 0x10;
    let out = decrypt_bytes(&encrypted, &schedule);
    assert_eq!(out.failure, Some(Failure::Format));
    assert_eq!(out.content.len(), encrypted.len());
    assert_eq!(out.content[..3], b"som"[..]);
    assert_eq!(out.content[3], b'e' ^ 0x10);
    assert_eq!(out.content[14..], encrypted[14..]);
}

#[test]
fn verify_checks_the_tag_in_the_name() {
    let schedule = speck_schedule(&TEST_KEY);
    let out = verify_bytes(b"abc", 0x59ed_c9ef, &schedule);
    assert_eq!(out.failure, None);
    assert_eq!(hex(&out.content), "2c5113");
    let wrong = verify_bytes(b"abc", 0x59ed_c9ee, &schedule);
    assert_eq!(wrong.failure, Some(Failure::Format));
    assert_eq!(hex(&wrong.content), "2c5113");
    let back = verify_bytes(&out.content, 0, &schedule);
    assert_eq!(back.content, b"abc".to_vec());
}

#[test]
fn small_file_protects_as_computed_by_hand() {
    let schedule = schedule_of(b"hello");
    let slices = protect_bytes(b"hello world!", &schedule, 0);
    let expected = [
        "ab7494c5b530d6a26c",
        "1770e551f62a598a72",
        "0af89b36a569695396",
        "f5fea0dd2960127bf2",
        "80549913c088ec1602",
        "deccea9a1b224a76c5",
        "56fe5976be0165b30b",
        "42faf7938283604270",
    ];
    for k in 0..8 {
        assert_eq!(hex(&slices[k]), expected[k]);
    }
    let empty = protect_bytes(b"", &schedule, 5);
    let expected_empty = [
        "b2eb70d6ae6c",
        "e496c8598672",
        "286e95695f9a",
        "c395bc1e77fe",
        "649743ec1602",
        "d36c754a7ac5",
        "bdf70865b30b",
        "938283604270",
    ];
    for k in 0..8 {
        assert_eq!(hex(&empty[k]), expected_empty[k]);
    }
}

#[test]
fn large_file_protects_into_eight_equal_slices() {
    let (data, schedule, slices) = large_file();
    let expected = [
        0xc569_cd58u32,
        0x8d63_c755,
        0xf386_bc5b,
        0xb3d2_fdf1,
        0xb85b_3ccf,
        0x95b3_3826,
        0x79ed_c665,
        0xc6e1_686b,
    ];
    for k in 0..8 {
        assert_eq!(slices[k].len(), 3 * ((100_000 + 11) / 12 + 2));
        assert_eq!(slices[k].len(), 25_008);
        assert_eq!(checksum(&slices[k]), expected[k]);
    }
    let out = recover_bytes(&present(&slices), &schedule);
    assert_eq!(out.failure, None);
    assert_eq!(out.content, data);
    assert_eq!(out.counts.processed, 8 * (8334 + 2));
    assert_eq!(out.counts.corrected, 0);
    assert_eq!(out.counts.uncorrectable, 0);
}

#[test]
fn recover_undoes_protect() {
    let schedule = schedule_of(b"hello");
    for len in [0usize, 1, 11, 12, 13, 24, 100, 1000] {
        let data = pseudorandom(len);
        let slices = protect_bytes(&data, &schedule, RANDOM);
        let out = recover_bytes(&present(&slices), &schedule);
        assert_eq!(out.failure, None);
        assert_eq!(out.content, data);
    }
}

#[test]
fn large_file_is_recovered_without_slice_d() {
    let (data, schedule, slices) = large_file();
    let mut parts = present(&slices);
    parts[3] = None;
    assert_eq!(count_missing(&parts), 1);
    let out = recover_bytes(&parts, &schedule);
    assert_eq!(out.failure, None);
    assert_eq!(out.content, data);
    assert!(out.counts.corrected > 0);
    assert_eq!(out.counts.uncorrectable, 0);
}

#[test]
fn file_is_recovered_without_any_one_slice() {
    let schedule = schedule_of(b"hello");
    let data = pseudorandom(500);
    let slices = protect_bytes(&data, &schedule, RANDOM);
    for k in 0..8 {
        let mut parts = present(&slices);
        parts[k] = None;
        let out = recover_bytes(&parts, &schedule);
        assert_eq!(out.failure, None);
        assert_eq!(out.content, data);
    }
}

#[test]
fn large_file_is_recovered_with_three_bits_flipped_in_slice_a() {
    let (data, schedule, slices) = large_file();
    let mut parts = present(&slices);
    if let Some(a) = parts[0].as_mut() {
        for bit in [0usize, 5, 17] {
            a[bit / 8] ^= 1 << (bit % 8);
        }
    }
    let out = recover_bytes(&parts, &schedule);
    assert_eq!(out.failure, None);
    assert_eq!(out.content, data);
    assert!(out.counts.corrected > 0);
    assert_eq!(out.counts.corrected, 3);
}

#[test]
fn file_is_recovered_with_three_bits_flipped_in_every_group() {
    let schedule = schedule_of(b"hello");
    let data = pseudorandom(120);
    let slices = protect_bytes(&data, &schedule, RANDOM);
    let mut parts = present(&slices);
    let groups = slices[0].len() / 3;
    assert_eq!(groups, 12);
    for g in 0..groups {
        for n in 0..3 {
            let bit = (g * 37 + n * 61) % 192;
            let k = bit / 24;
            if let Some(part) = parts[k].as_mut() {
                part[3 * g + (bit % 24) / 8] ^= 1 << (bit % 8);
            }
        }
    }
    let out = recover_bytes(&parts, &schedule);
    assert_eq!(out.failure, None);
    assert_eq!(out.content, data);
}

#[test]
fn large_file_is_not_recovered_without_slices_d_and_f() {
    let (_, schedule, slices) = large_file();
    let mut parts = present(&slices);
    parts[3] = None;
    parts[5] = None;
    assert_eq!(count_missing(&parts), 2);
    let out = recover_bytes(&parts, &schedule);
    assert_eq!(out.failure, Some(Failure::Uncorrectable));
    assert_eq!(exit_code(out.failure), 3);
    assert!(out.content.is_empty());
    assert_eq!(out.counts.processed, 0);
}

#[test]
fn recover_with_another_password_is_a_wrong_password() {
    let slices = protect_bytes(b"some cleartext", &schedule_of(b"hello"), RANDOM);
    let out = recover_bytes(&present(&slices), &schedule_of(b"Hello"));
    assert_eq!(out.failure, Some(Failure::WrongPassword));
    assert_eq!(exit_code(out.failure), 2);
    assert!(out.content.is_empty());
    let mut parts = present(&slices);
    parts[7] = None;
    let out = recover_bytes(&parts, &schedule_of(b"Hello"));
    assert_eq!(out.failure, Some(Failure::WrongPassword));
}

#[test]
fn recover_from_a_short_slice_is_an_io_error() {
    let schedule = schedule_of(b"hello");
    let slices = protect_bytes(&pseudorandom(100), &schedule, RANDOM);
    let mut parts = present(&slices);
    parts[2] = Some(vec![1, 2, 3, 4, 5]);
    let out = recover_bytes(&parts, &schedule);
    assert_eq!(out.failure, Some(Failure::Io));
    assert!(out.content.is_empty());
    // A slice that holds its trailer but not its payload.
    let mut parts = present(&slices);
    let tail = slices[2][slices[2].len() - 6..].to_vec();
    parts[2] = Some(tail);
    let out = recover_bytes(&parts, &schedule);
    assert_eq!(out.failure, Some(Failure::Io));
    assert!(out.content.is_empty());
}

#[test]
fn recover_of_a_damaged_payload_is_uncorrectable() {
    let schedule = schedule_of(b"hello");
    let data = pseudorandom(100);
    let slices = protect_bytes(&data, &schedule, RANDOM);
    let mut parts = present(&slices);
    // Four errors in one codeword: bit 0 of four bytes of one group, in
    // the slices that carry the data bits.
    for k in [4usize, 5, 6, 7] {
        if let Some(part) = parts[k].as_mut() {
            part[0] ^= 1;
        }
    }
    let out = recover_bytes(&parts, &schedule);
    assert_eq!(out.counts.uncorrectable, 1);
    assert_eq!(out.failure, Some(Failure::Uncorrectable));
    assert_eq!(exit_code(out.failure), 3);
    // The cleartext is yielded all the same, with plane 0 of the first
    // block filled with ones.
    assert_eq!(out.content.len(), 100);
    assert_ne!(checksum(&out.content), checksum(&data));
    assert_eq!(out.content[12..], data[12..]);
    for j in 0..12 {
        assert_eq!(out.content[j] & 0xfe, data[j] & 0xfe);
    }
}

#[test]
fn recover_of_damaged_check_bits_is_uncorrectable() {
    let schedule = schedule_of(b"hello");
    let data = pseudorandom(100);
    let slices = protect_bytes(&data, &schedule, RANDOM);
    let mut parts = present(&slices);
    // Bit 0 of byte 0 of the first group in slices A, B, C and D: four
    // errors in the check bits of the codeword of plane 0.
    for k in [0usize, 1, 2, 3] {
        if let Some(part) = parts[k].as_mut() {
            part[0] ^= 1;
        }
    }
    let out = recover_bytes(&parts, &schedule);
    assert_eq!(out.counts.processed, 8 * (9 + 2));
    assert_eq!(out.counts.corrected, 0);
    assert_eq!(out.counts.uncorrectable, 1);
    assert_eq!(out.failure, Some(Failure::Uncorrectable));
    assert_eq!(exit_code(out.failure), 3);
    assert_eq!(out.content.len(), 100);
    assert_eq!(out.content[12..], data[12..]);
}

#[test]
fn recover_of_a_wrong_checksum_is_a_format_error() {
    let schedule = schedule_of(b"hello");
    let data = b"twelve bytes".to_vec();
    let gc = GolayCode::new();
    let mut transfer = Transfer::new(&schedule, 7, 12);
    let mut body = data.clone();
    transfer.apply(&mut body);
    let t = Trailer { crc: transfer.checksum_before() ^ 1, nonce: 7, length: 12 };
    let mut slices: [Vec<u8>; 8] = Default::default();
    encode_chunk(&body, &mut slices, &gc);
    encode_chunk(&seal_protected_trailer(&t, &schedule), &mut slices, &gc);
    let out = recover_bytes(&present(&slices), &schedule);
    assert_eq!(out.failure, Some(Failure::Format));
    assert_eq!(exit_code(out.failure), 4);
    assert_eq!(out.content, data);
}

#[test]
fn recover_of_a_damaged_trailer_codeword_is_uncorrectable() {
    let schedule = schedule_of(b"hello");
    let data = pseudorandom(30);
    let slices = protect_bytes(&data, &schedule, RANDOM);
    let mut parts = present(&slices);
    // Four errors in the check bits of one codeword of the last group. The
    // decoder fills that plane with ones, the top bit of every byte of the
    // trailer's second half: the length then announces no payload.
    let at = slices[0].len() - 3;
    if let Some(part) = parts[0].as_mut() {
        part[at] ^= 0x80;
        part[at + 1] ^= 0x80;
        part[at + 2] ^= 0x80;
    }
    if let Some(part) = parts[1].as_mut() {
        part[at] ^= 0x80;
    }
    let out = recover_bytes(&parts, &schedule);
    assert_eq!(out.counts.uncorrectable, 1);
    assert_eq!(out.failure, Some(Failure::Uncorrectable));
    assert_eq!(exit_code(out.failure), 3);
    assert!(out.content.is_empty());
    assert_eq!(out.counts.processed, 16);
}

#[test]
fn recover_reads_a_length_with_the_top_bit_set_as_none() {
    let schedule = schedule_of(b"hello");
    let gc = GolayCode::new();
    let t = Trailer { crc: 0, nonce: 7, length: 0x8000_0000_0000_0000 };
    let mut slices: [Vec<u8>; 8] = Default::default();
    encode_chunk(&seal_protected_trailer(&t, &schedule), &mut slices, &gc);
    let out = recover_bytes(&present(&slices), &schedule);
    assert_eq!(out.failure, None);
    assert!(out.content.is_empty());
}

#[test]
fn recover_refuses_a_length_that_the_slices_do_not_hold() {
    let schedule = schedule_of(b"hello");
    let gc = GolayCode::new();
    for length in [1u64, 12, 0x7fff_ffff_ffff_ffff] {
        let t = Trailer { crc: 0, nonce: 7, length };
        let mut slices: [Vec<u8>; 8] = Default::default();
        encode_chunk(&seal_protected_trailer(&t, &schedule), &mut slices, &gc);
        let out = recover_bytes(&present(&slices), &schedule);
        if length <= 24 {
            // The trailer itself is read as payload.
            assert_ne!(out.failure, Some(Failure::Io));
        } else {
            assert_eq!(out.failure, Some(Failure::Io));
        }
    }
}

#[test]
fn take_tails_takes_six_bytes_of_each_slice() {
    let parts: [Option<Vec<u8>>; 8] = [
        Some(vec![1, 2, 3, 4, 5, 6, 7]),
        None,
        Some(vec![1, 2, 3, 4, 5, 6]),
        Some(vec![0; 10]),
        Some(vec![9; 6]),
        Some(vec![9; 6]),
        Some(vec![9; 6]),
        Some(vec![9; 6]),
    ];
    let tails = take_tails(&parts);
    assert_eq!(tails[0], Some(vec![2, 3, 4, 5, 6, 7]));
    assert_eq!(tails[1], None);
    assert_eq!(tails[2], Some(vec![1, 2, 3, 4, 5, 6]));
    assert_eq!(tails[3], Some(vec![0; 6]));
    assert_eq!(count_missing(&parts), 1);
}

#[test]
fn trailer_of_a_protected_file_carries_checksum_nonce_and_length() {
    let schedule = schedule_of(b"hello");
    let data = pseudorandom(50);
    let slices = protect_bytes(&data, &schedule, RANDOM);
    let tails = take_tails(&present(&slices));
    let mut gc = GolayCode::new();
    let bytes = decode_chunk(&tails, 24, &mut gc).unwrap_or_default();
    assert_eq!(
        open_protected_trailer(&bytes, &schedule),
        Some(Trailer { crc: checksum(&data), nonce: 50 ^ RANDOM, length: 50 })
    );
}

#[test]
fn more_than_one_missing_slice_is_uncorrectable() {
    assert_eq!(check_missing(0), None);
    assert_eq!(check_missing(1), None);
    assert_eq!(check_missing(2), Some(Failure::Uncorrectable));
    assert_eq!(check_missing(8), Some(Failure::Uncorrectable));
}

#[test]
fn verdicts_put_the_uncorrectable_count_first() {
    let t = Trailer { crc: 0x1234, nonce: 1, length: 2 };
    assert_eq!(decrypt_verdict(&t, 0x1234), None);
    assert_eq!(decrypt_verdict(&t, 0x1235), Some(Failure::Format));
    let mut counts = Tally { processed: 100, corrected: 9, uncorrectable: 0 };
    assert_eq!(recover_verdict(&t, 0x1234, &counts), None);
    assert_eq!(recover_verdict(&t, 0x1235, &counts), Some(Failure::Format));
    counts.uncorrectable = 1;
    assert_eq!(recover_verdict(&t, 0x1234, &counts), Some(Failure::Uncorrectable));
    assert_eq!(recover_verdict(&t, 0x1235, &counts), Some(Failure::Uncorrectable));
    assert_eq!(exit_code(recover_verdict(&t, 0x1235, &counts)), 3);
    let schedule = speck_schedule(&TEST_KEY);
    let before = checksum(b"abc");
    let after = checksum(&[0x2c, 0x51, 0x13]);
    assert_eq!(verify_verdict(0x59ed_c9ef, before, after, 3, &schedule), None);
    assert_eq!(
        verify_verdict(0x59ed_c9ef, after, before, 3, &schedule),
        Some(Failure::Format)
    );
}

#[test]
fn lengths_are_read_off_files_and_trailers() {
    assert_eq!(compat_body_length(0), None);
    assert_eq!(compat_body_length(15), None);
    assert_eq!(compat_body_length(16), Some(0));
    assert_eq!(compat_body_length(17), Some(1));
    assert_eq!(compat_body_length(u64::MAX), Some(u64::MAX - 16));
    let mut t = Trailer { crc: 0, nonce: 0, length: 0 };
    assert_eq!(payload_length(&t), 0);
    t.length = 0x7fff_ffff_ffff_ffff;
    assert_eq!(payload_length(&t), 0x7fff_ffff_ffff_ffff);
    t.length = 0x8000_0000_0000_0000;
    assert_eq!(payload_length(&t), 0);
    t.length = u64::MAX;
    assert_eq!(payload_length(&t), 0);
}

#[test]
fn recover_counts_what_the_decoder_saw() {
    let schedule = schedule_of(b"hello");
    let data = pseudorandom(100);
    let slices = protect_bytes(&data, &schedule, RANDOM);
    let out = recover_bytes(&present(&slices), &schedule);
    assert_eq!(out.counts.processed, 8 * (9 + 2));
    let wrong = recover_bytes(&present(&slices), &schedule_of(b"other"));
    assert_eq!(wrong.failure, Some(Failure::WrongPassword));
    assert_eq!(wrong.counts.processed, 0);
    let mut parts = present(&slices);
    parts[0] = Some(vec![0u8; 3]);
    let short = recover_bytes(&parts, &schedule);
    assert_eq!(short.failure, Some(Failure::Io));
    assert_eq!(short.counts.processed, 0);
}

#[test]
fn recover_counts_a_correction_for_every_plane_touched() {
    let schedule = schedule_of(b"hello");
    let data = pseudorandom(60);
    let slices = protect_bytes(&data, &schedule, RANDOM);
    // Three bits of one plane: one codeword is corrected.
    let mut parts = present(&slices);
    for k in [0usize, 3, 7] {
        if let Some(part) = parts[k].as_mut() {
            part[4] ^= 0x10;
        }
    }
    let out = recover_bytes(&parts, &schedule);
    assert_eq!(out.failure, None);
    assert_eq!(out.content, data);
    assert_eq!(out.counts, Tally { processed: 8 * (5 + 2), corrected: 1, uncorrectable: 0 });
    // One bit in each of three planes of one group, and one bit in
    // another group: four codewords are corrected.
    let mut parts = present(&slices);
    if let Some(part) = parts[2].as_mut() {
        part[0] ^= 0x01;
        part[1] ^= 0x20;
        part[2] ^= 0x02;
        part[9] ^= 0x80;
    }
    let out = recover_bytes(&parts, &schedule);
    assert_eq!(out.failure, None);
    assert_eq!(out.content, data);
    assert_eq!(out.counts.corrected, 4);
    // Nothing touched: nothing corrected.
    let out = recover_bytes(&present(&slices), &schedule);
    assert_eq!(out.counts, Tally { processed: 56, corrected: 0, uncorrectable: 0 });
}

#[test]
fn an_empty_tally_counts_nothing() {
    assert_eq!(
        empty_tally(),
        Tally { processed: 0, corrected: 0, uncorrectable: 0 }
    );
    let early = recover_bytes(&[None, None, None, None, None, None, None, None], &schedule_of(b"x"));
    assert_eq!(early.failure, Some(Failure::Uncorrectable));
    assert_eq!(early.counts, empty_tally());
}

