use phnx::names::{classify, output_name, slice_name, Role};

#[test]
fn a_slice_name_is_decoded() {
    for letter in b"ABCDEFGH" {
        let mut name = b"photo.jpg.phnx_".to_vec();
        name.push(*letter);
        assert_eq!(classify(&name, false), Role::Decode);
        assert_eq!(classify(&name, true), Role::Decode);
    }
    assert_eq!(classify(b".phnx_A", false), Role::Decode);
}

#[test]
fn a_name_with_another_letter_is_not_a_slice() {
    assert_eq!(classify(b"photo.jpg.phnx_I", false), Role::Encode);
    assert_eq!(classify(b"photo.jpg.phnx_@", false), Role::Encode);
    assert_eq!(classify(b"photo.jpg.phnx_a", false), Role::Encode);
    assert_eq!(classify(b"photo.jpg.phnx_", false), Role::Encode);
    assert_eq!(classify(b"photo.jpg.phnxA", true), Role::Encrypt);
    assert_eq!(classify(b"phnx_A", true), Role::Encrypt);
}

#[test]
fn an_encrypted_name_is_decrypted() {
    assert_eq!(classify(b"notes.txt.encrypted", false), Role::Decrypt);
    assert_eq!(classify(b"notes.txt.encrypted", true), Role::Decrypt);
    assert_eq!(classify(b".encrypted", false), Role::Decrypt);
    assert_eq!(classify(b"encrypted", false), Role::Encode);
    assert_eq!(classify(b"notes.txt.Encrypted", true), Role::Encrypt);
}

#[test]
fn a_tagged_name_is_verified() {
    assert_eq!(
        classify(b"notes.txt.encrypted-deadbeef", false),
        Role::VerifyTag { expected: 0xdead_beef }
    );
    assert_eq!(
        classify(b"notes.txt.encrypted-DeadBeef", true),
        Role::VerifyTag { expected: 0xdead_beef }
    );
    assert_eq!(
        classify(b".encrypted-00000000", true),
        Role::VerifyTag { expected: 0 }
    );
    assert_eq!(
        classify(b"a.encrypted-FFFFFFFF", true),
        Role::VerifyTag { expected: 0xffff_ffff }
    );
    assert_eq!(
        classify(b"a.encrypted-0123abCD", true),
        Role::VerifyTag { expected: 0x0123_abcd }
    );
}

#[test]
fn a_tag_needs_eight_hexadecimal_digits() {
    assert_eq!(classify(b"a.encrypted-deadbee", true), Role::Encrypt);
    assert_eq!(classify(b"a.encrypted-deadbeef0", false), Role::Encode);
    assert_eq!(classify(b"a.encrypted-deadbeeg", true), Role::Encrypt);
    assert_eq!(classify(b"a.encrypted_deadbeef", true), Role::Encrypt);
    assert_eq!(classify(b"a.encrypted-", true), Role::Encrypt);
    assert_eq!(classify(b"a.encrypted-dead/eef", false), Role::Encode);
    assert_eq!(classify(b"a.encrypted-dead:eef", false), Role::Encode);
    assert_eq!(classify(b"a.encrypted-dead`eef", false), Role::Encode);
    assert_eq!(classify(b"a.encrypted-dead@eef", false), Role::Encode);
}

#[test]
fn any_other_name_is_encrypted() {
    assert_eq!(classify(b"notes.txt", false), Role::Encode);
    assert_eq!(classify(b"notes.txt", true), Role::Encrypt);
    assert_eq!(classify(b"", false), Role::Encode);
    assert_eq!(classify(b"", true), Role::Encrypt);
    assert_eq!(classify(b"x", true), Role::Encrypt);
}

#[test]
fn output_name_drops_or_adds_the_ending() {
    assert_eq!(output_name(b"photo.jpg.phnx_C", false), b"photo.jpg".to_vec());
    assert_eq!(output_name(b"notes.txt.encrypted", false), b"notes.txt".to_vec());
    assert_eq!(
        output_name(b"notes.txt.encrypted-deadbeef", true),
        b"notes.txt".to_vec()
    );
    assert_eq!(output_name(b"notes.txt", true), b"notes.txt.encrypted".to_vec());
    assert_eq!(output_name(b"notes.txt", false), b"notes.txt".to_vec());
    assert_eq!(output_name(b".phnx_A", false), b"".to_vec());
}

#[test]
fn slice_name_adds_the_tag_and_the_letter() {
    assert_eq!(slice_name(b"photo.jpg", 0), b"photo.jpg.phnx_A".to_vec());
    assert_eq!(slice_name(b"photo.jpg", 3), b"photo.jpg.phnx_D".to_vec());
    assert_eq!(slice_name(b"photo.jpg", 7), b"photo.jpg.phnx_H".to_vec());
    assert_eq!(slice_name(b"", 1), b".phnx_B".to_vec());
}

#[test]
fn slice_names_of_an_output_name_are_the_siblings() {
    let base = output_name(b"photo.jpg.phnx_F", true);
    for k in 0..8 {
        let sibling = slice_name(&base, k);
        assert_eq!(classify(&sibling, false), Role::Decode);
        assert_eq!(sibling[..15], b"photo.jpg.phnx_"[..]);
        assert_eq!(sibling[15], b'A' + k as u8);
    }
}
