//! Bytes as bits and back, least significant bit first.
//!
//! Both directions of the codec go through this one bit order: bit `i` of a
//! byte is `(byte >> i) & 1`, and the byte's eight bits are produced, and
//! consumed again, from `i = 0` upwards.

use vstd::prelude::*;

verus! {

/// Bit `i` of `byte`, counting from the least significant one.
pub open spec fn bit_of(byte: u8, i: int) -> bool {
    (byte >> (i as u8)) & 1 == 1
}

/// The eight bits of `byte`, least significant first.
pub open spec fn bits_of_byte(byte: u8) -> Seq<bool> {
    Seq::new(8, |i: int| bit_of(byte, i))
}

/// The bits of `bytes`: eight for each byte, bytes in order and the bits of
/// each byte least significant first.
pub open spec fn bits_of(bytes: Seq<u8>) -> Seq<bool> {
    Seq::new(8 * bytes.len(), |k: int| bit_of(bytes[k / 8], k % 8))
}

/// `acc` with bit `i` set where `bit` holds.
pub open spec fn with_bit(acc: u8, i: int, bit: bool) -> u8 {
    if bit {
        acc | (1u8 << (i as u8))
    } else {
        acc
    }
}

/// The byte whose `n` lowest bits are the first `n` of `bits` and whose
/// other bits are zero.
pub open spec fn byte_prefix(bits: Seq<bool>, n: int) -> u8
    decreases n,
{
    if n <= 0 {
        0
    } else {
        with_bit(byte_prefix(bits, n - 1), n - 1, bits[n - 1])
    }
}

/// The byte made of the first eight of `bits`, least significant first.
pub open spec fn byte_of(bits: Seq<bool>) -> u8 {
    byte_prefix(bits, 8)
}

/// The bytes made of `bits`, eight at a time; bits left over at the end
/// make no byte.
pub open spec fn bytes_of(bits: Seq<bool>) -> Seq<u8> {
    Seq::new((bits.len() / 8) as nat, |i: int| byte_of(bits.subrange(8 * i, 8 * i + 8)))
}

/// Taking a byte apart into bits and putting the bits together again gives
/// the same byte.
pub proof fn lemma_byte_of_bits_of_byte(byte: u8)
    ensures
        byte_of(bits_of_byte(byte)) == byte,
{
    let bits = bits_of_byte(byte);
    reveal_with_fuel(byte_prefix, 9);
    assert(1u8 << 0u8 == 1 && 1u8 << 1u8 == 2 && 1u8 << 2u8 == 4 && 1u8 << 3u8 == 8 && 1u8 << 4u8
        == 16 && 1u8 << 5u8 == 32 && 1u8 << 6u8 == 64 && 1u8 << 7u8 == 128) by (bit_vector);
    let low1 = byte_prefix(bits, 1);
    let low2 = byte_prefix(bits, 2);
    let low3 = byte_prefix(bits, 3);
    let low4 = byte_prefix(bits, 4);
    let low5 = byte_prefix(bits, 5);
    let low6 = byte_prefix(bits, 6);
    let low7 = byte_prefix(bits, 7);
    assert(low1 == byte & 0x01) by {
        assert((if (byte >> 0u8) & 1 == 1 { 0u8 | 1u8 } else { 0u8 }) == byte & 0x01)
            by (bit_vector);
    }
    assert(low2 == byte & 0x03) by {
        assert((if (byte >> 1u8) & 1 == 1 { (byte & 0x01) | 2u8 } else { byte & 0x01 }) == byte
            & 0x03) by (bit_vector);
    }
    assert(low3 == byte & 0x07) by {
        assert((if (byte >> 2u8) & 1 == 1 { (byte & 0x03) | 4u8 } else { byte & 0x03 }) == byte
            & 0x07) by (bit_vector);
    }
    assert(low4 == byte & 0x0f) by {
        assert((if (byte >> 3u8) & 1 == 1 { (byte & 0x07) | 8u8 } else { byte & 0x07 }) == byte
            & 0x0f) by (bit_vector);
    }
    assert(low5 == byte & 0x1f) by {
        assert((if (byte >> 4u8) & 1 == 1 { (byte & 0x0f) | 16u8 } else { byte & 0x0f }) == byte
            & 0x1f) by (bit_vector);
    }
    assert(low6 == byte & 0x3f) by {
        assert((if (byte >> 5u8) & 1 == 1 { (byte & 0x1f) | 32u8 } else { byte & 0x1f }) == byte
            & 0x3f) by (bit_vector);
    }
    assert(low7 == byte & 0x7f) by {
        assert((if (byte >> 6u8) & 1 == 1 { (byte & 0x3f) | 64u8 } else { byte & 0x3f }) == byte
            & 0x7f) by (bit_vector);
    }
    assert(byte_prefix(bits, 8) == byte) by {
        assert((if (byte >> 7u8) & 1 == 1 { (byte & 0x7f) | 128u8 } else { byte & 0x7f }) == byte)
            by (bit_vector);
    }
}

/// Bit-order symmetry: the bytes made of the bits of `bytes` are `bytes`.
pub proof fn lemma_bytes_of_bits_of(bytes: Seq<u8>)
    ensures
        bytes_of(bits_of(bytes)) == bytes,
{
    let bits = bits_of(bytes);
    assert forall|i: int| 0 <= i < bytes.len() implies #[trigger] bytes_of(bits)[i] == bytes[i] by {
        assert(bits.subrange(8 * i, 8 * i + 8) =~= bits_of_byte(bytes[i]));
        lemma_byte_of_bits_of_byte(bytes[i]);
    }
}

/// The bits of a byte sequence followed by another are the bits of the
/// first followed by the bits of the second.
pub proof fn lemma_bits_of_concat(a: Seq<u8>, b: Seq<u8>)
    ensures
        bits_of(a + b) == bits_of(a) + bits_of(b),
{
}

/// The bytes made of whole bytes' worth of bits followed by more bits are
/// the bytes of the first followed by the bytes of the second.
pub proof fn lemma_bytes_of_concat(first: Seq<bool>, second: Seq<bool>)
    requires
        first.len() % 8 == 0,
    ensures
        bytes_of(first + second) == bytes_of(first) + bytes_of(second),
{
    let n = (first.len() / 8) as int;
    let all = first + second;
    assert forall|i: int| 0 <= i < bytes_of(all).len() implies bytes_of(all)[i] == (bytes_of(first)
        + bytes_of(second))[i] by {
        if i < n {
            assert(all.subrange(8 * i, 8 * i + 8) =~= first.subrange(8 * i, 8 * i + 8));
        } else {
            assert(all.subrange(8 * i, 8 * i + 8) =~= second.subrange(
                8 * (i - n),
                8 * (i - n) + 8,
            ));
        }
    }
}

/// Puts bit `i` of a byte under assembly in place.
pub fn push_bit(acc: u8, i: u8, bit: bool) -> (byte: u8)
    requires
        i < 8,
    ensures
        byte == with_bit(acc, i as int, bit),
{
    if bit {
        acc | (1u8 << i)
    } else {
        acc
    }
}

/// Assembles one byte from eight bits, least significant first.
pub fn byte_from_bits(bits: &[bool]) -> (byte: u8)
    requires
        bits@.len() == 8,
    ensures
        byte == byte_of(bits@),
{
    let mut acc: u8 = 0;
    let mut i: u8 = 0;
    while i < 8
        invariant
            i <= 8,
            bits@.len() == 8,
            acc == byte_prefix(bits@, i as int),
        decreases 8 - i,
    {
        acc = push_bit(acc, i, bits[i as usize]);
        i = i + 1;
    }
    acc
}

/// A one-pass sequence of the bits of a byte buffer.
pub struct BitIterator<'a> {
    bytes: &'a [u8],
    index: usize,
    bit: u8,
}

impl<'a> View for BitIterator<'a> {
    type V = Seq<bool>;

    /// The bits that are still to come.
    closed spec fn view(&self) -> Seq<bool> {
        bits_of(self.bytes@).skip(8 * self.index + self.bit)
    }
}

impl<'a> BitIterator<'a> {
    #[verifier::type_invariant]
    spec fn inv(self) -> bool {
        &&& self.index <= self.bytes@.len()
        &&& self.bit < 8
        &&& self.index == self.bytes@.len() ==> self.bit == 0
    }

    /// Starts at the first bit of `bytes`.
    pub fn new(bytes: &'a [u8]) -> (bits: Self)
        ensures
            bits@ == bits_of(bytes@),
    {
        let bits = BitIterator { bytes, index: 0, bit: 0 };
        bits
    }

    /// The next bit, or `None` once all bits were handed out.
    pub fn next(&mut self) -> (bit: Option<bool>)
        ensures
            match bit {
                Some(b) => old(self)@.len() > 0 && b == old(self)@[0] && final(self)@ == old(
                    self,
                )@.skip(1),
                None => old(self)@.len() == 0 && final(self)@ == old(self)@,
            },
    {
        proof {
            use_type_invariant(&*self);
        }
        if self.index >= self.bytes.len() {
            return None;
        }
        let byte = self.bytes[self.index];
        let b = (byte >> self.bit) & 1 == 1;
        if self.bit == 7 {
            self.bit = 0;
            self.index = self.index + 1;
        } else {
            self.bit = self.bit + 1;
        }
        Some(b)
    }
}

} // verus!
