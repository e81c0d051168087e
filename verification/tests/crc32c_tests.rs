use phnx::crc32c::Crc32c;

fn checksum(data: &[u8]) -> u32 {
    let mut crc = Crc32c::new();
    crc.update_slice(data);
    crc.finalize()
}

#[test]
fn checksum_of_nothing_is_zero() {
    assert_eq!(Crc32c::new().finalize(), 0);
    assert_eq!(checksum(&[]), 0);
}

#[test]
fn checksum_of_the_check_string() {
    assert_eq!(checksum(b"123456789"), 0xe306_9283);
}

#[test]
fn checksum_of_known_blocks() {
    assert_eq!(checksum(&[0u8; 32]), 0x8a91_36aa);
    assert_eq!(checksum(&[0xffu8; 32]), 0x62a8_ab43);
    let rising: Vec<u8> = (0u8..32).collect();
    assert_eq!(checksum(&rising), 0x46dd_794e);
}

#[test]
fn checksum_of_one_byte() {
    assert_eq!(checksum(b"a"), 0xc1d0_4330);
}

#[test]
fn update_and_update_slice_agree() {
    let data = b"The quick brown fox jumps over the lazy dog";
    let mut bytewise = Crc32c::new();
    for b in data.iter() {
        bytewise.update(*b);
    }
    assert_eq!(bytewise.finalize(), checksum(data));
    assert_eq!(checksum(data), 0x2262_0404);
}

#[test]
fn feeding_in_pieces_is_feeding_at_once() {
    let data: Vec<u8> = (0..1000u32).map(|i| (i * 7 + 3) as u8).collect();
    for cut in [0usize, 1, 17, 500, 999, 1000] {
        let mut crc = Crc32c::new();
        crc.update_slice(&data[..cut]);
        crc.update_slice(&data[cut..]);
        assert_eq!(crc.finalize(), checksum(&data));
    }
}

#[test]
fn finalize_does_not_end_the_checksum() {
    let mut crc = Crc32c::new();
    crc.update_slice(b"1234");
    let _ = crc.finalize();
    crc.update_slice(b"56789");
    assert_eq!(crc.finalize(), 0xe306_9283);
}
