//! Machine words as bytes, and bytes as machine words.

use crate::bytes::{be_bytes_of_u32, from_u32l, le_u32, le_value, lemma_le_value_push, lemma_pow256, pow256, to_u32l};
use crate::sequence::{SeqTrait, Sequence};
use vstd::prelude::*;

verus! {

/// The four bytes of a 32-bit word.
#[derive(Clone, Copy, Debug, PartialEq, Eq)]
pub struct U32Word(pub [u8; 4]);

/// The eight bytes of a 64-bit word.
#[derive(Clone, Copy, Debug, PartialEq, Eq)]
pub struct U64Word(pub [u8; 8]);

/// The sixteen bytes of a 128-bit word.
#[derive(Clone, Copy, Debug, PartialEq, Eq)]
pub struct U128Word(pub [u8; 16]);

/// The byte of `x` that has the weight `256^i`.
pub open spec fn byte_of(x: int, i: nat) -> u8 {
    ((x / pow256(i) as int) % 256) as u8
}

/// The `len` bytes of `x`, the least significant one first.
pub open spec fn le_bytes(x: int, len: nat) -> Seq<u8> {
    Seq::new(len, |i: int| byte_of(x, i as nat))
}

/// The `len` bytes of `x`, the most significant one first.
pub open spec fn be_bytes(x: int, len: nat) -> Seq<u8> {
    Seq::new(len, |i: int| byte_of(x, (len - 1 - i) as nat))
}

/// The bytes of each of the words, the least significant one first.
pub open spec fn le_bytes_of_all(x: Seq<u64>) -> Seq<u8> {
    Seq::new(8 * x.len(), |k: int| byte_of(x[k / 8] as int, (k % 8) as nat))
}

/// The first powers of 256.
pub proof fn lemma_powers()
    ensures
        pow256(0) == 1,
        pow256(1) == 0x100,
        pow256(2) == 0x1_0000,
        pow256(3) == 0x100_0000,
        pow256(4) == 0x1_0000_0000,
        pow256(5) == 0x100_0000_0000,
        pow256(6) == 0x1_0000_0000_0000,
        pow256(7) == 0x100_0000_0000_0000,
{
    lemma_pow256(0);
    lemma_pow256(1);
    lemma_pow256(2);
    lemma_pow256(3);
    lemma_pow256(4);
    lemma_pow256(5);
    lemma_pow256(6);
}

/// The four bytes of `x`, the most significant one first.
pub fn u32_to_le_bytes(x: u32) -> (w: U32Word)
    ensures
        w.0@ == be_bytes(x as int, 4),
{
    let (a, b, c, d) = from_u32l(x);
    let w = U32Word([a, b, c, d]);
    proof {
        lemma_powers();
        assert(seq![a, b, c, d] == be_bytes_of_u32(x));
        assert(seq![a, b, c, d][0] == a);
        assert(seq![a, b, c, d][1] == b);
        assert(seq![a, b, c, d][2] == c);
        assert(seq![a, b, c, d][3] == d);
        assert((x as int / 0x100_0000) % 256 == x as int / 0x100_0000);
        assert((x as int / 1) % 256 == x as int % 256);
        assert(w.0@ =~= be_bytes(x as int, 4));
    }
    w
}

/// The number that the four bytes stand for, the least significant one
/// first.
pub fn u32_from_le_bytes(s: U32Word) -> (x: u32)
    ensures
        x == le_u32(s.0@),
{
    let bytes = s.0;
    to_u32l(bytes.as_slice())
}

/// The four bytes of `x`, the most significant one first.
pub fn u32_to_be_bytes(x: u32) -> (w: U32Word)
    ensures
        w.0@ == be_bytes(x as int, 4),
{
    u32_to_le_bytes(x)
}

/// The number that the bytes stand for, the least significant one first.
pub fn le_uint(b: &[u8]) -> (r: u128)
    requires
        b@.len() <= 16,
    ensures
        r == le_value(b@),
{
    if b.len() == 0 {
        proof {
            lemma_le_value_push(Seq::<u8>::empty(), 0);
            assert(b@ =~= Seq::<u8>::empty());
        }
        return 0;
    }
    crate::bytes::Bytes::from_array(b).to_le_uint()
}

/// The number that the sixteen bytes stand for, the least significant one
/// first.
pub fn u128_from_le_bytes(s: U128Word) -> (x: u128)
    ensures
        x == le_value(s.0@),
{
    let bytes = s.0;
    le_uint(bytes.as_slice())
}

/// The byte of `x` with the weight `256^i`.
pub fn byte_at(x: u64, i: usize) -> (b: u8)
    requires
        i < 8,
    ensures
        b == byte_of(x as int, i as nat),
{
    let shift = (8 * i) as u64;
    let b = ((x >> shift) & 0xff) as u8;
    proof {
        lemma_powers();
        assert((x >> 0) & 0xff == (x / 1) % 256 && (x >> 8) & 0xff == (x / 0x100) % 256 && (x
            >> 16) & 0xff == (x / 0x1_0000) % 256 && (x >> 24) & 0xff == (x / 0x100_0000) % 256
            && (x >> 32) & 0xff == (x / 0x1_0000_0000) % 256 && (x >> 40) & 0xff == (x
            / 0x100_0000_0000) % 256 && (x >> 48) & 0xff == (x / 0x1_0000_0000_0000) % 256 && (x
            >> 56) & 0xff == (x / 0x100_0000_0000_0000) % 256) by (bit_vector);
        assert(shift == 0 || shift == 8 || shift == 16 || shift == 24 || shift == 32 || shift
            == 40 || shift == 48 || shift == 56);
    }
    b
}

/// The eight bytes of `x`, the most significant one first.
pub fn u64_to_be_bytes(x: u64) -> (w: U64Word)
    ensures
        w.0@ == be_bytes(x as int, 8),
{
    let mut out: [u8; 8] = [0u8;8];
    let mut i: usize = 0;
    while i < 8
        invariant
            i <= 8,
            forall|j: int| 0 <= j < i ==> out@[j] == byte_of(x as int, (7 - j) as nat),
        decreases 8 - i,
    {
        out[i] = byte_at(x, 7 - i);
        i += 1;
    }
    assert(out@ =~= be_bytes(x as int, 8));
    U64Word(out)
}

/// The eight bytes of `x`, the least significant one first.
pub fn u64_to_le_bytes(x: u64) -> (w: U64Word)
    ensures
        w.0@ == le_bytes(x as int, 8),
{
    let mut out: [u8; 8] = [0u8;8];
    let mut i: usize = 0;
    while i < 8
        invariant
            i <= 8,
            forall|j: int| 0 <= j < i ==> out@[j] == byte_of(x as int, j as nat),
        decreases 8 - i,
    {
        out[i] = byte_at(x, i);
        i += 1;
    }
    assert(out@ =~= le_bytes(x as int, 8));
    U64Word(out)
}

/// The bytes of each of the words, the least significant one first.
pub fn u64_slice_to_le_u8s(x: &dyn SeqTrait<u64>) -> (out: Sequence<u8>)
    requires
        8 * x.items().len() <= usize::MAX,
    ensures
        out@ == le_bytes_of_all(x.items()),
{
    let words = x.raw();
    let mut result: Vec<u8> = Vec::new();
    let mut i: usize = 0;
    while i < words.len()
        invariant
            i <= words@.len(),
            words@ == x.items(),
            8 * words@.len() <= usize::MAX,
            result@.len() == 8 * i,
            forall|k: int|
                0 <= k < 8 * i ==> result@[k] == byte_of(words@[k / 8] as int, (k % 8) as nat),
        decreases words.len() - i,
    {
        let v = words[i];
        let mut j: usize = 0;
        while j < 8
            invariant
                j <= 8,
                i < words@.len(),
                v == words@[i as int],
                result@.len() == 8 * i + j,
                forall|k: int|
                    0 <= k < 8 * i + j ==> result@[k] == byte_of(
                        words@[k / 8] as int,
                        (k % 8) as nat,
                    ),
            decreases 8 - j,
        {
            result.push(byte_at(v, j));
            j += 1;
        }
        i += 1;
    }
    assert(result@ =~= le_bytes_of_all(x.items()));
    Sequence::from_vec(result)
}

} // verus!
