//! What a file's name says is to be done with it, and the names of the
//! files that come out.
//!
//! Names are byte strings. A name that ends in `.phnx_A` to `.phnx_H` is
//! one of eight slices; one that ends in `.encrypted` was encrypted in
//! place; one that ends in `.encrypted-` and eight hexadecimal digits
//! carries a checksum tag. Any other name is a file to be encrypted.

use vstd::prelude::*;

verus! {

/// `.phnx_`, which precedes the letter of a slice.
pub const SLICE_TAG: [u8; 6] = [0x2e, 0x70, 0x68, 0x6e, 0x78, 0x5f];

/// `.encrypted`, the end of the name of a file encrypted in place.
pub const ENCRYPTED_TAG: [u8; 10] = [0x2e, 0x65, 0x6e, 0x63, 0x72, 0x79, 0x70, 0x74, 0x65, 0x64];

/// `-`, which follows `.encrypted` in a name that carries a checksum tag.
pub const DASH: u8 = 0x2d;

/// `A`, the letter of the first slice.
pub const FIRST_LETTER: u8 = 0x41;

/// Number of hexadecimal digits of a checksum tag.
pub const TAG_DIGITS: usize = 8;

/// What is to be done with a file.
#[derive(Clone, Copy, PartialEq, Eq, Structural, Debug)]
pub enum Role {
    /// The file is one of eight slices: read them all, correct, decrypt.
    Decode,
    /// The file was encrypted in place: check its trailer and decrypt it.
    Decrypt,
    /// The file's name carries a checksum tag: decrypt it and check the tag.
    VerifyTag { expected: u32 },
    /// Encrypt the file in place and append a trailer.
    Encrypt,
    /// Encrypt the file and write it out as eight slices.
    Encode,
}

/// Whether `name` ends with `suffix`.
pub open spec fn ends_with(name: Seq<u8>, suffix: Seq<u8>) -> bool {
    name.len() >= suffix.len() && name.subrange(name.len() - suffix.len(), name.len() as int)
        == suffix
}

/// The letter of slice `k`.
pub open spec fn slice_letter(k: int) -> u8 {
    (FIRST_LETTER + k) as u8
}

/// The end of the name of slice `k`: `.phnx_` and the letter.
pub open spec fn slice_suffix(k: int) -> Seq<u8> {
    SLICE_TAG@.push(slice_letter(k))
}

/// Whether `name` is the name of a slice.
pub open spec fn is_slice_name(name: Seq<u8>) -> bool {
    exists|k: int| 0 <= k < 8 && ends_with(name, #[trigger] slice_suffix(k))
}

/// Whether `name` is the name of a file encrypted in place.
pub open spec fn is_encrypted_name(name: Seq<u8>) -> bool {
    ends_with(name, ENCRYPTED_TAG@)
}

/// Value of a hexadecimal digit in either case, or `None` for another byte.
pub open spec fn hex_digit(c: u8) -> Option<u32> {
    if 0x30 <= c <= 0x39 {
        Some((c - 0x30) as u32)
    } else if 0x41 <= c <= 0x46 {
        Some((c - 0x41 + 10) as u32)
    } else if 0x61 <= c <= 0x66 {
        Some((c - 0x61 + 10) as u32)
    } else {
        None
    }
}

/// Whether every byte of `digits` is a hexadecimal digit.
pub open spec fn all_hex(digits: Seq<u8>) -> bool {
    forall|i: int| 0 <= i < digits.len() ==> (#[trigger] hex_digit(digits[i])) is Some
}

/// The number that the hexadecimal digits `digits` write, most significant
/// digit first.
pub open spec fn hex_value(digits: Seq<u8>) -> nat
    decreases digits.len(),
{
    if digits.len() == 0 {
        0
    } else {
        hex_value(digits.drop_last()) * 16 + (match hex_digit(digits.last()) {
            Some(v) => v as nat,
            None => 0,
        })
    }
}

/// The end of a name that carries a checksum tag, without the digits:
/// `.encrypted-`.
pub open spec fn tagged_prefix() -> Seq<u8> {
    ENCRYPTED_TAG@.push(DASH)
}

/// The last eight bytes of `name`.
pub open spec fn tag_digits(name: Seq<u8>) -> Seq<u8> {
    name.subrange(name.len() - TAG_DIGITS, name.len() as int)
}

/// Whether `name` carries a checksum tag: it ends in `.encrypted-` and
/// eight hexadecimal digits.
pub open spec fn is_tagged_name(name: Seq<u8>) -> bool {
    &&& name.len() >= 19
    &&& name.subrange(name.len() - 19, name.len() - 8) == tagged_prefix()
    &&& all_hex(tag_digits(name))
}

/// What is to be done with the file named `name`. In compatibility mode a
/// file that is not yet encrypted is encrypted in place; otherwise it is
/// written out as eight slices.
pub open spec fn role_of(name: Seq<u8>, compatibility_mode: bool) -> Role {
    if is_slice_name(name) {
        Role::Decode
    } else if is_encrypted_name(name) {
        Role::Decrypt
    } else if is_tagged_name(name) {
        Role::VerifyTag { expected: hex_value(tag_digits(name)) as u32 }
    } else if compatibility_mode {
        Role::Encrypt
    } else {
        Role::Encode
    }
}

/// The name that the file's content goes by once its role has been played:
/// for a slice, an encrypted or a tagged file the name without its ending;
/// for a file encrypted in place the name with `.encrypted`; for a file
/// written out as slices the name itself, to which the slices add theirs.
pub open spec fn output_name_of(name: Seq<u8>, role: Role) -> Seq<u8> {
    match role {
        Role::Decode => name.take(name.len() - 7),
        Role::Decrypt => name.take(name.len() - 10),
        Role::VerifyTag { .. } => name.take(name.len() - 19),
        Role::Encrypt => name + ENCRYPTED_TAG@,
        Role::Encode => name,
    }
}

/// The name of slice `k` of the file named `base`.
pub open spec fn slice_name_of(base: Seq<u8>, k: int) -> Seq<u8> {
    base + slice_suffix(k)
}

/// The least number that `n` hexadecimal digits cannot write, for `n` up to
/// eight.
pub open spec fn hex_limit(n: nat) -> nat {
    if n == 0 {
        1
    } else if n == 1 {
        0x10
    } else if n == 2 {
        0x100
    } else if n == 3 {
        0x1000
    } else if n == 4 {
        0x1_0000
    } else if n == 5 {
        0x10_0000
    } else if n == 6 {
        0x100_0000
    } else if n == 7 {
        0x1000_0000
    } else {
        0x1_0000_0000
    }
}

/// Up to eight hexadecimal digits write a number below 2^32.
pub proof fn lemma_hex_value_bound(digits: Seq<u8>)
    requires
        digits.len() <= 8,
    ensures
        hex_value(digits) < hex_limit(digits.len()),
    decreases digits.len(),
{
    if digits.len() > 0 {
        lemma_hex_value_bound(digits.drop_last());
    }
}

/// Whether the `suffix.len()` bytes of `name` that end at `end` are
/// `suffix`.
fn matches_at(name: &[u8], end: usize, suffix: &[u8]) -> (b: bool)
    requires
        end <= name@.len(),
    ensures
        b == (end >= suffix@.len() && name@.subrange(end - suffix@.len(), end as int)
            == suffix@),
{
    if end < suffix.len() {
        return false;
    }
    let start: usize = end - suffix.len();
    let mut i: usize = 0;
    while i < suffix.len()
        invariant
            i <= suffix@.len(),
            start + suffix@.len() == end,
            end <= name@.len(),
            forall|j: int| 0 <= j < i ==> name@[start + j] == suffix@[j],
        decreases suffix@.len() - i,
    {
        if name[start + i] != suffix[i] {
            assert(name@.subrange(start as int, end as int)[i as int] != suffix@[i as int]);
            return false;
        }
        i = i + 1;
    }
    assert(name@.subrange(start as int, end as int) =~= suffix@);
    true
}

/// The value of a hexadecimal digit.
fn parse_hex_digit(c: u8) -> (v: Option<u32>)
    ensures
        v == hex_digit(c),
{
    if 0x30 <= c && c <= 0x39 {
        Some((c - 0x30) as u32)
    } else if 0x41 <= c && c <= 0x46 {
        Some((c - 0x41 + 10) as u32)
    } else if 0x61 <= c && c <= 0x66 {
        Some((c - 0x61 + 10) as u32)
    } else {
        None
    }
}

/// Reads the last eight bytes of `name` as hexadecimal digits.
fn parse_tag(name: &[u8]) -> (tag: Option<u32>)
    requires
        name@.len() >= 8,
    ensures
        tag is Some <==> all_hex(tag_digits(name@)),
        tag is Some ==> tag->0 == hex_value(tag_digits(name@)),
{
    let start: usize = name.len() - 8;
    let ghost digits = tag_digits(name@);
    let mut value: u32 = 0;
    let mut i: usize = 0;
    while i < 8
        invariant
            i <= 8,
            start + 8 == name@.len(),
            start + 8 <= usize::MAX,
            digits == tag_digits(name@),
            all_hex(digits.take(i as int)),
            value == hex_value(digits.take(i as int)),
        decreases 8 - i,
    {
        proof {
            lemma_hex_value_bound(digits.take(i as int));
            assert(digits.take(i + 1).drop_last() =~= digits.take(i as int));
            assert(digits[i as int] == name@[start + i]);
        }
        match parse_hex_digit(name[start + i]) {
            Some(v) => {
                value = value * 16 + v;
            },
            None => {
                assert(hex_digit(digits[i as int]) is None);
                return None;
            },
        }
        assert forall|j: int| 0 <= j < i + 1 implies (#[trigger] hex_digit(
            digits.take(i + 1)[j],
        )) is Some by {
            if j < i {
                assert(digits.take(i as int)[j] == digits.take(i + 1)[j]);
            }
        }
        i = i + 1;
    }
    assert(digits.take(8) =~= digits);
    Some(value)
}

/// Says what is to be done with the file named `name`.
pub fn classify(name: &[u8], compatibility_mode: bool) -> (role: Role)
    ensures
        role == role_of(name@, compatibility_mode),
{
    let len: usize = name.len();
    if len >= 7 && matches_at(name, len - 1, SLICE_TAG.as_slice()) && FIRST_LETTER <= name[len - 1]
        && name[len - 1] < FIRST_LETTER + 8 {
        proof {
            let k = name@[len - 1] - FIRST_LETTER;
            assert(name@.subrange(len - 7, len as int) =~= slice_suffix(k));
        }
        return Role::Decode;
    }
    proof {
        assert forall|k: int| 0 <= k < 8 implies !ends_with(name@, #[trigger] slice_suffix(k)) by {
            if ends_with(name@, slice_suffix(k)) {
                let tail = name@.subrange(len - 7, len as int);
                assert(tail[6] == slice_letter(k));
                assert(name@.subrange(len - 7, len - 1) =~= tail.take(6));
                assert(slice_suffix(k).take(6) =~= SLICE_TAG@);
            }
        }
    }
    if matches_at(name, len, ENCRYPTED_TAG.as_slice()) {
        return Role::Decrypt;
    }
    if len >= 19 && matches_at(name, len - 9, ENCRYPTED_TAG.as_slice()) && name[len - 9] == DASH {
        proof {
            assert(name@.subrange(len - 19, len - 8) =~= tagged_prefix());
        }
        match parse_tag(name) {
            Some(expected) => {
                return Role::VerifyTag { expected };
            },
            None => {},
        }
    } else {
        proof {
            if len >= 19 && name@.subrange(len - 19, len - 8) == tagged_prefix() {
                let mid = name@.subrange(len - 19, len - 8);
                assert(mid[10] == DASH);
                assert(name@.subrange(len - 19, len - 9) =~= mid.take(10));
                assert(tagged_prefix().take(10) =~= ENCRYPTED_TAG@);
            }
        }
    }
    if compatibility_mode {
        Role::Encrypt
    } else {
        Role::Encode
    }
}

/// Appends the bytes of `tail` to `out`.
fn extend(out: &mut Vec<u8>, tail: &[u8])
    ensures
        final(out)@ == old(out)@ + tail@,
{
    let mut i: usize = 0;
    while i < tail.len()
        invariant
            i <= tail@.len(),
            out@ == old(out)@ + tail@.take(i as int),
        decreases tail@.len() - i,
    {
        out.push(tail[i]);
        assert(tail@.take(i + 1) =~= tail@.take(i as int).push(tail@[i as int]));
        i = i + 1;
    }
    assert(tail@.take(i as int) =~= tail@);
}

/// Gives the name that the file's content goes by once its role has been
/// played.
pub fn output_name(name: &[u8], compatibility_mode: bool) -> (out: Vec<u8>)
    ensures
        out@ == output_name_of(name@, role_of(name@, compatibility_mode)),
{
    let role = classify(name, compatibility_mode);
    let mut out: Vec<u8> = Vec::new();
    let cut: usize = match role {
        Role::Decode => 7,
        Role::Decrypt => 10,
        Role::VerifyTag { .. } => 19,
        Role::Encrypt => 0,
        Role::Encode => 0,
    };
    proof {
        if role == Role::Decode {
            let k = choose|k: int| 0 <= k < 8 && ends_with(name@, #[trigger] slice_suffix(k));
            assert(slice_suffix(k).len() == 7);
        }
    }
    extend(&mut out, vstd::slice::slice_subrange(name, 0, name.len() - cut));
    assert(name@.subrange(0, name@.len() - cut) =~= name@.take(name@.len() - cut));
    match role {
        Role::Encrypt => {
            extend(&mut out, ENCRYPTED_TAG.as_slice());
        },
        _ => {},
    }
    out
}

/// Gives the name of slice `k` of the file named `base`.
pub fn slice_name(base: &[u8], k: usize) -> (out: Vec<u8>)
    requires
        k < 8,
    ensures
        out@ == slice_name_of(base@, k as int),
{
    let mut out: Vec<u8> = Vec::new();
    extend(&mut out, base);
    extend(&mut out, SLICE_TAG.as_slice());
    out.push(FIRST_LETTER + k as u8);
    assert(out@ =~= slice_name_of(base@, k as int));
    out
}

} // verus!
