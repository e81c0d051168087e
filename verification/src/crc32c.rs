//! CRC-32C (Castagnoli), computed a byte at a time.
//!
//! The checksum of a byte string is defined bit by bit over the reflected
//! polynomial; the implementation goes a byte at a time through a table of
//! 256 entries, which `Crc32c::new` fills.

use vstd::prelude::*;

verus! {

/// The Castagnoli polynomial, reflected.
pub const CRC32C_POLY: u32 = 0x82f6_3b78;

/// The register before any byte has gone in.
pub const CRC32C_INIT: u32 = 0xffff_ffff;

/// The register after one more bit has been shifted out.
pub open spec fn crc_shift(c: u32) -> u32 {
    if c & 1 == 1 {
        (c >> 1) ^ CRC32C_POLY
    } else {
        c >> 1
    }
}

/// The register after `n` more bits have been shifted out.
pub open spec fn crc_shift_n(c: u32, n: u32) -> u32
    decreases n,
{
    if n == 0 {
        c
    } else {
        crc_shift(crc_shift_n(c, (n - 1) as u32))
    }
}

/// The register after the byte `byte` has gone in.
pub open spec fn crc_step(c: u32, byte: u8) -> u32 {
    crc_shift_n(c ^ (byte as u32), 8)
}

/// The register after the bytes `bytes` have gone in, starting from `c`.
pub open spec fn crc_register(c: u32, bytes: Seq<u8>) -> u32
    decreases bytes.len(),
{
    if bytes.len() == 0 {
        c
    } else {
        crc_step(crc_register(c, bytes.drop_last()), bytes.last())
    }
}

/// The CRC-32C checksum of `bytes`.
pub open spec fn crc32c(bytes: Seq<u8>) -> u32 {
    !crc_register(CRC32C_INIT, bytes)
}

/// A byte's step through the register, split into the table entry of the
/// low byte and the rest of the register.
proof fn lemma_step_by_table(c: u32, byte: u8)
    by (bit_vector)
    ensures
        crc_shift_n(c ^ (byte as u32), 8) == crc_shift_n((c ^ (byte as u32)) & 0xff, 8) ^ (c >> 8),
        (c ^ (byte as u32)) & 0xff < 256,
{
}

/// The register, together with the bytes that brought it to its value.
struct Register {
    value: u32,
    fed: Ghost<Seq<u8>>,
}

impl Register {
    #[verifier::type_invariant]
    spec fn well_formed(self) -> bool {
        self.value == crc_register(CRC32C_INIT, self.fed@)
    }
}

/// A running CRC-32C checksum.
pub struct Crc32c {
    register: Register,
    table: [u32; 256],
}

impl View for Crc32c {
    type V = Seq<u8>;

    /// The bytes that have gone in so far.
    closed spec fn view(&self) -> Seq<u8> {
        self.register.fed@
    }
}

impl Crc32c {
    #[verifier::type_invariant]
    spec fn well_formed(self) -> bool {
        forall|i: int| 0 <= i < 256 ==> #[trigger] self.table[i] == crc_shift_n(i as u32, 8)
    }

    /// A checksum into which no byte has gone yet.
    pub fn new() -> (crc: Self)
        ensures
            crc@ == Seq::<u8>::empty(),
    {
        let mut table = [0u32;256];
        let mut i: u32 = 0;
        while i < 256
            invariant
                i <= 256,
                forall|k: int| 0 <= k < i ==> #[trigger] table[k] == crc_shift_n(k as u32, 8),
            decreases 256 - i,
        {
            let mut j: u32 = i;
            let mut k: u32 = 0;
            while k < 8
                invariant
                    k <= 8,
                    j == crc_shift_n(i, k),
                decreases 8 - k,
            {
                if j & 1 == 1 {
                    j = (j >> 1) ^ CRC32C_POLY;
                } else {
                    j = j >> 1;
                }
                k = k + 1;
            }
            table[i as usize] = j;
            i = i + 1;
        }
        Crc32c { register: Register { value: CRC32C_INIT, fed: Ghost(Seq::empty()) }, table }
    }

    /// Feeds one byte.
    pub fn update(&mut self, byte: u8)
        ensures
            final(self)@ == old(self)@.push(byte),
    {
        let value: u32 = self.register.value;
        proof {
            use_type_invariant(&*self);
            use_type_invariant(&self.register);
            lemma_step_by_table(value, byte);
            assert(self@.push(byte).drop_last() =~= self@);
        }
        let low: u32 = (value ^ byte as u32) & 0xff;
        self.register = Register {
            value: self.table[low as usize] ^ (value >> 8),
            fed: Ghost(self@.push(byte)),
        };
    }

    /// Feeds the bytes of `data`, in order.
    pub fn update_slice(&mut self, data: &[u8])
        ensures
            final(self)@ == old(self)@ + data@,
    {
        let mut i: usize = 0;
        assert(self@ + data@.take(0) =~= self@);
        while i < data.len()
            invariant
                i <= data@.len(),
                self@ == old(self)@ + data@.take(i as int),
            decreases data@.len() - i,
        {
            self.update(data[i]);
            assert(data@.take(i + 1) =~= data@.take(i as int).push(data@[i as int]));
            assert(old(self)@ + data@.take(i + 1) =~= (old(self)@ + data@.take(i as int)).push(
                data@[i as int],
            ));
            i = i + 1;
        }
        assert(data@.take(i as int) =~= data@);
    }

    /// The checksum of the bytes fed so far.
    pub fn finalize(&self) -> (sum: u32)
        ensures
            sum == crc32c(self@),
    {
        proof {
            use_type_invariant(&self.register);
        }
        !self.register.value
    }
}

} // verus!
