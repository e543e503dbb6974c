//! Bitstreams: a payload as one element per bit, most significant bit of
//! each byte first, and back.

use crate::StegError;
use vstd::prelude::*;

verus! {

/// The weight of bit `j` of a byte, counted from the most significant one.
pub open spec fn weight(j: int) -> int {
    if j == 0 {
        128
    } else if j == 1 {
        64
    } else if j == 2 {
        32
    } else if j == 3 {
        16
    } else if j == 4 {
        8
    } else if j == 5 {
        4
    } else if j == 6 {
        2
    } else {
        1
    }
}

/// Bit `j` of the byte `b`, counted from the most significant one.
pub open spec fn bit_at(b: u8, j: int) -> u8 {
    ((b as int / weight(j)) % 2) as u8
}

/// The bytes as a stream of bits, eight for each byte.
pub open spec fn bits_of(bytes: Seq<u8>) -> Seq<u8> {
    Seq::new(8 * bytes.len(), |i: int| bit_at(bytes[i / 8], i % 8))
}

/// Every element is 0 or 1.
pub open spec fn is_binary(bits: Seq<u8>) -> bool {
    forall|i: int| 0 <= i < bits.len() ==> bits[i] <= 1
}

/// The byte that the eight bits from place `8 * k` on spell.
pub open spec fn byte_of(bits: Seq<u8>, k: int) -> u8 {
    (128 * bits[8 * k] + 64 * bits[8 * k + 1] + 32 * bits[8 * k + 2] + 16 * bits[8 * k + 3] + 8
        * bits[8 * k + 4] + 4 * bits[8 * k + 5] + 2 * bits[8 * k + 6] + bits[8 * k + 7]) as u8
}

/// The whole bytes that a stream of bits spells.
pub open spec fn bytes_of(bits: Seq<u8>) -> Seq<u8> {
    Seq::new(bits.len() / 8, |k: int| byte_of(bits, k))
}

/// What `from_bits` says of a stream that spells no whole bytes.
pub open spec fn ragged_message() -> Seq<char> {
    "reconstructing byte: the bits do not form whole bytes"@
}

/// The bits of a byte spell that byte.
pub proof fn lemma_byte_of_bits(b: u8)
    ensures
        128 * bit_at(b, 0) + 64 * bit_at(b, 1) + 32 * bit_at(b, 2) + 16 * bit_at(b, 3) + 8
            * bit_at(b, 4) + 4 * bit_at(b, 5) + 2 * bit_at(b, 6) + bit_at(b, 7) == b,
{
    assert(128 * (b / 128 % 2) + 64 * (b / 64 % 2) + 32 * (b / 32 % 2) + 16 * (b / 16 % 2) + 8 * (b
        / 8 % 2) + 4 * (b / 4 % 2) + 2 * (b / 2 % 2) + b % 2 == b) by (bit_vector);
}

/// A stream of bits made from bytes is binary and spells those bytes again.
pub proof fn lemma_bits_round_trip(bytes: Seq<u8>)
    ensures
        bits_of(bytes).len() == 8 * bytes.len(),
        is_binary(bits_of(bytes)),
        bytes_of(bits_of(bytes)) == bytes,
{
    let bits = bits_of(bytes);
    assert forall|k: int| 0 <= k < bytes.len() implies byte_of(bits, k) == bytes[k] by {
        lemma_byte_of_bits(bytes[k]);
        assert(bits[8 * k] == bit_at(bytes[k], 0));
        assert(bits[8 * k + 1] == bit_at(bytes[k], 1));
        assert(bits[8 * k + 2] == bit_at(bytes[k], 2));
        assert(bits[8 * k + 3] == bit_at(bytes[k], 3));
        assert(bits[8 * k + 4] == bit_at(bytes[k], 4));
        assert(bits[8 * k + 5] == bit_at(bytes[k], 5));
        assert(bits[8 * k + 6] == bit_at(bytes[k], 6));
        assert(bits[8 * k + 7] == bit_at(bytes[k], 7));
    }
    assert(bytes_of(bits) =~= bytes);
}

/// Expands bytes to their bits, most significant bit first.
pub fn to_bits(bytes: &[u8]) -> (bits: Vec<u8>)
    requires
        8 * bytes@.len() <= usize::MAX,
    ensures
        bits@ == bits_of(bytes@),
{
    let mut bits: Vec<u8> = Vec::new();
    let mut i: usize = 0;
    while i < bytes.len()
        invariant
            i <= bytes@.len(),
            bits@.len() == 8 * i,
            forall|j: int| 0 <= j < 8 * i ==> bits@[j] == bit_at(bytes@[j / 8], j % 8),
        decreases bytes@.len() - i,
    {
        let b: u8 = bytes[i];
        bits.push(b / 128 % 2);
        bits.push(b / 64 % 2);
        bits.push(b / 32 % 2);
        bits.push(b / 16 % 2);
        bits.push(b / 8 % 2);
        bits.push(b / 4 % 2);
        bits.push(b / 2 % 2);
        bits.push(b % 2);
        i = i + 1;
    }
    assert(bits@ =~= bits_of(bytes@));
    bits
}

/// Regroups a stream of bits into bytes, most significant bit first. The
/// stream must be binary and hold a whole number of bytes.
pub fn from_bits(bits: &[u8]) -> (r: Result<Vec<u8>, StegError>)
    ensures
        r is Ok <==> bits@.len() % 8 == 0 && is_binary(bits@),
        r matches Ok(bytes) ==> bytes@ == bytes_of(bits@),
        r matches Err(e) ==> e matches StegError::Decoding(m) && m@ == ragged_message(),
{
    if bits.len() % 8 != 0 {
        return Err(StegError::Decoding(ragged_text()));
    }
    let count: usize = bits.len() / 8;
    let mut bytes: Vec<u8> = Vec::new();
    let mut k: usize = 0;
    while k < count
        invariant
            count == bits@.len() / 8,
            bits@.len() % 8 == 0,
            bits@.len() <= usize::MAX,
            k <= count,
            bytes@.len() == k,
            forall|j: int| 0 <= j < 8 * k ==> bits@[j] <= 1,
            forall|j: int| 0 <= j < k ==> bytes@[j] == byte_of(bits@, j),
        decreases count - k,
    {
        assert(8 * k + 8 <= bits@.len());
        let at: usize = 8 * k;
        let mut j: usize = 0;
        while j < 8
            invariant
                at == 8 * k,
                k < count,
                count == bits@.len() / 8,
                bits@.len() % 8 == 0,
                bits@.len() <= usize::MAX,
                j <= 8,
                forall|i: int| 0 <= i < at + j ==> bits@[i] <= 1,
            decreases 8 - j,
        {
            if bits[at + j] > 1 {
                return Err(StegError::Decoding(ragged_text()));
            }
            j = j + 1;
        }
        let byte: u8 = 128 * bits[at] + 64 * bits[at + 1] + 32 * bits[at + 2] + 16 * bits[at
            + 3] + 8 * bits[at + 4] + 4 * bits[at + 5] + 2 * bits[at + 6] + bits[at + 7];
        bytes.push(byte);
        k = k + 1;
    }
    assert(bytes@ =~= bytes_of(bits@));
    Ok(bytes)
}

/// The text of the error for a stream that spells no whole bytes.
fn ragged_text() -> (text: String)
    ensures
        text@ == ragged_message(),
{
    "reconstructing byte: the bits do not form whole bytes".to_owned()
}

} // verus!
