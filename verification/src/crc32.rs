//! The CRC-32 checksum (reflected, polynomial `0xEDB88320`) by which the copy
//! cache tells changed content from unchanged.
use vstd::prelude::*;

verus! {

/// One bit of the checksum register: shift right, and fold the polynomial in
/// where a one dropped out.
#[verifier::inline]
pub open spec fn crc_bit(acc: u32) -> u32 {
    if acc & 1 != 0 {
        0xEDB88320u32 ^ (acc >> 1)
    } else {
        acc >> 1
    }
}

/// `n` bits of the checksum register.
pub open spec fn crc_bits(acc: u32, n: nat) -> u32
    decreases n,
{
    if n == 0 {
        acc
    } else {
        crc_bits(crc_bit(acc), (n - 1) as nat)
    }
}

/// The register after one more byte of input.
pub open spec fn crc_byte(acc: u32, byte: u8) -> u32 {
    crc_bits(acc ^ (byte as u32), 8)
}

/// The register after all of `bytes`, starting from `acc`.
pub open spec fn crc_fold(acc: u32, bytes: Seq<u8>) -> u32
    decreases bytes.len(),
{
    if bytes.len() == 0 {
        acc
    } else {
        crc_byte(crc_fold(acc, bytes.drop_last()), bytes.last())
    }
}

/// The CRC-32 of `bytes`: the register starts as all ones and is complemented
/// at the end.
pub open spec fn checksum(bytes: Seq<u8>) -> u32 {
    !crc_fold(0xFFFF_FFFFu32, bytes)
}

/// The lookup table: entry `i` is what eight register bits make of `i`.
pub struct Crc32Table(Vec<u32>);

/// The entries of the lookup table.
pub open spec fn table_entries() -> Seq<u32> {
    Seq::new(256, |i: int| crc_bits(i as u32, 8))
}

impl Crc32Table {
    /// The entries of the table.
    pub closed spec fn entries(&self) -> Seq<u32> {
        self.0@
    }

    #[verifier::type_invariant]
    spec fn well_formed(&self) -> bool {
        &&& self.0.len() == 256
        &&& forall|i: int| 0 <= i < 256 ==> #[trigger] self.0[i] == crc_bits(i as u32, 8)
    }

    /// The CRC-32 of `bytes`.
    pub fn calculate(&self, bytes: &[u8]) -> (crc: u32)
        ensures
            crc == checksum(bytes@),
    {
        proof {
            use_type_invariant(self);
        }
        let mut acc: u32 = 0xFFFF_FFFF;
        let mut i: usize = 0;
        while i < bytes.len()
            invariant
                i <= bytes.len(),
                self.0.len() == 256,
                forall|k: int| 0 <= k < 256 ==> #[trigger] self.0[k] == crc_bits(k as u32, 8),
                acc == crc_fold(0xFFFF_FFFFu32, bytes@.take(i as int)),
            decreases bytes.len() - i,
        {
            let byte = bytes[i];
            let index: u32 = (acc ^ (byte as u32)) & 0xFF;
            proof {
                assert(index < 256) by (bit_vector)
                    requires
                        index == (acc ^ (byte as u32)) & 0xFF,
                ;
                lemma_table_step(acc, byte);
                assert(bytes@.take(i + 1).drop_last() == bytes@.take(i as int));
            }
            acc = self.0[index as usize] ^ (acc >> 8);
            i += 1;
        }
        assert(bytes@.take(bytes.len() as int) == bytes@);
        !acc
    }

    /// Whether `crc32` is the CRC-32 of `bytes`.
    pub fn compare(&self, bytes: &[u8], crc32: u32) -> (same: bool)
        ensures
            same == (checksum(bytes@) == crc32),
    {
        self.calculate(bytes) == crc32
    }
}

impl Default for Crc32Table {
    /// Builds the 256 entries of the table.
    fn default() -> (table: Self)
        ensures
            table.entries() == table_entries(),
    {
        let mut entries: Vec<u32> = Vec::new();
        let mut i: u32 = 0;
        while i < 256
            invariant
                i <= 256,
                entries.len() == i,
                forall|k: int| 0 <= k < i ==> #[trigger] entries[k] == crc_bits(k as u32, 8),
            decreases 256 - i,
        {
            let mut acc: u32 = i;
            let mut bit: u32 = 0;
            while bit < 8
                invariant
                    bit <= 8,
                    crc_bits(acc, (8 - bit) as nat) == crc_bits(i, 8),
                decreases 8 - bit,
            {
                acc = if acc & 1 != 0 {
                    0xEDB88320 ^ (acc >> 1)
                } else {
                    acc >> 1
                };
                bit += 1;
            }
            entries.push(acc);
            i += 1;
        }
        assert(entries@ =~= table_entries());
        Crc32Table(entries)
    }
}

/// Register bits are linear over exclusive or.
proof fn lemma_bits_linear(x: u32, y: u32, n: nat)
    ensures
        crc_bits(x ^ y, n) == crc_bits(x, n) ^ crc_bits(y, n),
    decreases n,
{
    if n > 0 {
        assert(crc_bit(x ^ y) == crc_bit(x) ^ crc_bit(y)) by (bit_vector);
        lemma_bits_linear(crc_bit(x), crc_bit(y), (n - 1) as nat);
    }
}

/// Where the low `n` bits are zero, `n` register bits only shift.
proof fn lemma_bits_shift(x: u32, n: nat)
    requires
        n <= 8,
        x & (((1u32 << (n as u32)) - 1) as u32) == 0,
    ensures
        crc_bits(x, n) == x >> (n as u32),
    decreases n,
{
    let m = n as u32;
    if n > 0 {
        assert(crc_bit(x) == x >> 1 && (x >> 1) & (((1u32 << ((m - 1) as u32)) - 1) as u32) == 0
            && (x >> 1) >> ((m - 1) as u32) == x >> m) by (bit_vector)
            requires
                1 <= m <= 8,
                x & (((1u32 << m) - 1) as u32) == 0,
        ;
        lemma_bits_shift(x >> 1, (n - 1) as nat);
    } else {
        assert(x >> 0u32 == x) by (bit_vector);
    }
}

/// A table lookup does the work of eight register bits.
proof fn lemma_table_step(acc: u32, byte: u8)
    ensures
        crc_bits(((acc ^ (byte as u32)) & 0xFF) as u32, 8) ^ (acc >> 8) == crc_byte(acc, byte),
{
    let b = byte as u32;
    let low = (acc ^ b) & 0xFF;
    let high = acc & 0xFFFF_FF00;
    assert(acc ^ b == low ^ high && high & (((1u32 << 8u32) - 1) as u32) == 0 && high >> 8u32 == acc
        >> 8) by (bit_vector)
        requires
            b < 256,
            low == (acc ^ b) & 0xFF,
            high == acc & 0xFFFF_FF00,
    ;
    lemma_bits_linear(low, high, 8);
    lemma_bits_shift(high, 8);
}

/// Register bits lose nothing: different registers stay different.
pub proof fn lemma_bits_injective(x: u32, y: u32, n: nat)
    requires
        x != y,
    ensures
        crc_bits(x, n) != crc_bits(y, n),
    decreases n,
{
    if n > 0 {
        assert(crc_bit(x) != crc_bit(y)) by (bit_vector)
            requires
                x != y,
        ;
        lemma_bits_injective(crc_bit(x), crc_bit(y), (n - 1) as nat);
    }
}

/// Two inputs of one length that differ in their last byte only, or before
/// it in one byte only, leave different registers.
pub proof fn lemma_fold_one_byte(acc: u32, a: Seq<u8>, b: Seq<u8>, k: int)
    requires
        a.len() == b.len(),
        0 <= k < a.len(),
        a[k] != b[k],
        forall|i: int| 0 <= i < a.len() && i != k ==> a[i] == b[i],
    ensures
        crc_fold(acc, a) != crc_fold(acc, b),
    decreases a.len(),
{
    let before_a = crc_fold(acc, a.drop_last());
    let before_b = crc_fold(acc, b.drop_last());
    let x = a.last() as u32;
    let y = b.last() as u32;
    if k == a.len() - 1 {
        assert(a.drop_last() =~= b.drop_last());
        assert(before_a ^ x != before_a ^ y) by (bit_vector)
            requires
                x != y,
        ;
        lemma_bits_injective(before_a ^ x, before_a ^ y, 8);
    } else {
        lemma_fold_one_byte(acc, a.drop_last(), b.drop_last(), k);
        assert(before_a ^ x != before_b ^ x) by (bit_vector)
            requires
                before_a != before_b,
        ;
        lemma_bits_injective(before_a ^ x, before_b ^ x, 8);
    }
}

/// Changing one byte of an input changes its checksum.
pub proof fn lemma_one_byte_changes_checksum(bytes: Seq<u8>, k: int, byte: u8)
    requires
        0 <= k < bytes.len(),
        bytes[k] != byte,
    ensures
        checksum(bytes.update(k, byte)) != checksum(bytes),
{
    let changed = bytes.update(k, byte);
    lemma_fold_one_byte(0xFFFF_FFFFu32, changed, bytes, k);
    let x = crc_fold(0xFFFF_FFFFu32, changed);
    let y = crc_fold(0xFFFF_FFFFu32, bytes);
    assert(!x != !y) by (bit_vector)
        requires
            x != y,
    ;
}

} // verus!
