//! Byte strings of variable length.

use crate::randomness::get_random_bytes;
use crate::util::{hex_bytes, hex_string_to_bytes, is_hex};
use core::ops::{Index, Range};
use vstd::prelude::*;
use vstd::string::StringSliceAdditionalSpecFns;

verus! {

/// What byte strings have in common: they are sequences of bytes.
pub trait ByteArray {
    /// The bytes, first to last.
    spec fn bytes(&self) -> Seq<u8>;

    /// The bytes as a slice.
    fn raw(&self) -> (r: &[u8])
        ensures
            r@ == self.bytes(),
    ;

    /// The number of bytes.
    fn len(&self) -> (l: usize)
        ensures
            l == self.bytes().len(),
    ;

    /// An iterator over the bytes, first to last.
    fn iter(&self) -> (it: core::slice::Iter<'_, u8>)
        ensures
            vstd::std_specs::slice::into_iter_elts(it) == self.bytes(),
    ;

    /// Whether there are no bytes.
    fn is_empty(&self) -> (b: bool)
        ensures
            b == (self.bytes().len() == 0),
    ;
}

/// `256^k`.
pub open spec fn pow256(k: nat) -> nat
    decreases k,
{
    if k == 0 {
        1
    } else {
        256 * pow256((k - 1) as nat)
    }
}

/// The number that the bytes stand for, the least significant byte first.
pub open spec fn le_value(b: Seq<u8>) -> nat
    decreases b.len(),
{
    if b.len() == 0 {
        0
    } else {
        le_value(b.drop_last()) + b.last() as nat * pow256((b.len() - 1) as nat)
    }
}

/// `s` with the bytes of `v` written over it from the index `start` on.
pub open spec fn overwritten(s: Seq<u8>, start: int, v: Seq<u8>) -> Seq<u8> {
    Seq::new(
        s.len(),
        |i: int|
            if start <= i < start + v.len() {
                v[i - start]
            } else {
                s[i]
            },
    )
}

/// The number of blocks of the size `block_size` that `len` bytes fall into,
/// the last of which may be shorter.
pub open spec fn block_count(len: int, block_size: int) -> int {
    (len + block_size - 1) / block_size
}

/// The block `k` of the bytes `s`, cut into blocks of the size `block_size`.
pub open spec fn block(s: Seq<u8>, block_size: int, k: int) -> Seq<u8> {
    s.subrange(
        k * block_size,
        if (k + 1) * block_size <= s.len() {
            (k + 1) * block_size
        } else {
            s.len() as int
        },
    )
}

/// The four bytes of `x`, the most significant one first.
pub open spec fn be_bytes_of_u32(x: u32) -> Seq<u8> {
    seq![
        (x / 0x100_0000) as u8,
        ((x / 0x1_0000) % 0x100) as u8,
        ((x / 0x100) % 0x100) as u8,
        (x % 0x100) as u8,
    ]
}

/// The number that four bytes stand for, the least significant byte first.
pub open spec fn le_u32(b: Seq<u8>) -> int {
    b[0] + 0x100 * b[1] + 0x1_0000 * b[2] + 0x100_0000 * b[3]
}

/// The number that four bytes stand for, the least significant byte first.
pub fn to_u32l(x: &[u8]) -> (r: u32)
    requires
        x@.len() == 4,
    ensures
        r == le_u32(x@),
{
    let a = x[0] as u32;
    let b = x[1] as u32;
    let c = x[2] as u32;
    let d = x[3] as u32;
    assert((d << 24 | c << 16 | b << 8 | a) == a + 0x100 * b + 0x1_0000 * c + 0x100_0000 * d)
        by (bit_vector)
        requires
            a < 256,
            b < 256,
            c < 256,
            d < 256,
    ;
    d << 24 | c << 16 | b << 8 | a
}

/// The four bytes of `x`, the most significant one first.
pub fn from_u32l(x: u32) -> (r: (u8, u8, u8, u8))
    ensures
        seq![r.0, r.1, r.2, r.3] == be_bytes_of_u32(x),
{
    let a = ((x & 0xFF00_0000) >> 24) as u8;
    let b = ((x & 0x00FF_0000) >> 16) as u8;
    let c = ((x & 0xFF00) >> 8) as u8;
    let d = (x & 0xFF) as u8;
    assert((x & 0xFF00_0000) >> 24 == x / 0x100_0000 && (x & 0xFF00_0000) >> 24 < 256)
        by (bit_vector);
    assert((x & 0x00FF_0000) >> 16 == (x / 0x1_0000) % 0x100) by (bit_vector);
    assert((x & 0xFF00) >> 8 == (x / 0x100) % 0x100) by (bit_vector);
    assert(x & 0xFF == x % 0x100) by (bit_vector);
    assert(seq![a, b, c, d] =~= be_bytes_of_u32(x));
    (a, b, c, d)
}

/// The `N` items of the slice as an array.
pub fn to_array<T: Copy + Default, const N: usize>(slice: &[T]) -> (a: [T; N])
    requires
        slice@.len() == N,
    ensures
        a@ == slice@,
{
    let mut a: [T; N] = [T::default();N];
    let mut i: usize = 0;
    while i < N
        invariant
            i <= N,
            slice@.len() == N,
            forall|j: int| 0 <= j < i ==> a@[j] == slice@[j],
        decreases N - i,
    {
        a[i] = slice[i];
        i += 1;
    }
    assert(a@ =~= slice@);
    a
}

/// A view into the bytes of a `Bytes`.
#[derive(Copy, Clone, Debug, PartialEq, PartialOrd)]
pub struct ByteSlice<'a> {
    b: &'a [u8],
}

impl<'a> View for ByteSlice<'a> {
    type V = Seq<u8>;

    closed spec fn view(&self) -> Seq<u8> {
        self.b@
    }
}

impl<'a> ByteSlice<'a> {
    /// A view into all the bytes of `b_in`.
    fn new(b_in: &'a Bytes) -> (out: Self)
        ensures
            out@ == b_in@,
    {
        Self { b: b_in.b.as_slice() }
    }

    /// The number of bytes.
    pub fn len(&self) -> (l: usize)
        ensures
            l == self@.len(),
    {
        self.b.len()
    }

    /// Whether there are no bytes.
    pub fn is_empty(&self) -> (b: bool)
        ensures
            b == (self@.len() == 0),
    {
        self.b.len() == 0
    }

    /// The `N` bytes of the range `r` as an array.
    pub fn get<const N: usize>(&self, r: Range<usize>) -> (a: [u8; N])
        requires
            r.start <= r.end <= self@.len(),
            r.end - r.start == N,
        ensures
            a@ == self@.subrange(r.start as int, r.end as int),
    {
        copy_range(self.b, r.start, r.end)
    }

    /// An iterator over the bytes, first to last.
    pub fn iter(&self) -> (it: core::slice::Iter<'_, u8>)
        ensures
            vstd::std_specs::slice::into_iter_elts(it) == self@,
    {
        let it = self.b.iter();
        proof {
            lemma_iter_elements(self.b, it);
        }
        it
    }
}

/// The `N` bytes from `start` up to `end` as an array.
pub fn copy_range<const N: usize>(s: &[u8], start: usize, end: usize) -> (a: [u8; N])
    requires
        start <= end <= s@.len(),
        end - start == N,
    ensures
        a@ == s@.subrange(start as int, end as int),
{
    let mut a: [u8; N] = [0u8;N];
    let mut i: usize = 0;
    while i < N
        invariant
            i <= N,
            start <= end <= s@.len(),
            end - start == N,
            forall|j: int| 0 <= j < i ==> a@[j] == s@[start + j],
        decreases N - i,
    {
        a[i] = s[start + i];
        i += 1;
    }
    assert(a@ =~= s@.subrange(start as int, end as int));
    a
}

/// A byte string of variable length.
#[derive(Debug, Clone, PartialEq, Default)]
pub struct Bytes {
    b: Vec<u8>,
}

impl View for Bytes {
    type V = Seq<u8>;

    closed spec fn view(&self) -> Seq<u8> {
        self.b@
    }
}

impl Bytes {
    /// A view into these bytes.
    pub fn get_slice(&self) -> (out: ByteSlice<'_>)
        ensures
            out@ == self@,
    {
        ByteSlice::new(self)
    }

    /// `l` zero bytes.
    pub fn new_len(l: usize) -> (out: Self)
        ensures
            out@ == Seq::new(l as nat, |i: int| 0u8),
    {
        let mut b: Vec<u8> = Vec::new();
        while b.len() < l
            invariant
                b@.len() <= l,
                forall|j: int| 0 <= j < b@.len() ==> b@[j] == 0,
            decreases l - b.len(),
        {
            b.push(0u8);
        }
        assert(b@ =~= Seq::new(l as nat, |i: int| 0u8));
        Self { b }
    }

    /// `l` random bytes.
    pub fn random(l: usize) -> (out: Self)
        ensures
            out@.len() == l,
    {
        Self { b: get_random_bytes(l) }
    }

    /// Whether there are no bytes.
    pub fn is_empty(&self) -> (b: bool)
        ensures
            b == (self@.len() == 0),
    {
        self.b.len() == 0
    }

    /// The bytes of the vector.
    pub fn from_vec(v: Vec<u8>) -> (out: Self)
        ensures
            out@ == v@,
    {
        Self { b: v }
    }

    /// The bytes of the slice.
    pub fn from_array(v: &[u8]) -> (out: Self)
        ensures
            out@ == v@,
    {
        Self { b: vstd::slice::slice_to_vec(v) }
    }

    /// The bytes that hexadecimal text stands for.
    pub fn from_hex(s: &str) -> (out: Self)
        requires
            is_hex(s.spec_bytes()),
        ensures
            out@ == hex_bytes(s.spec_bytes()),
    {
        Self { b: hex_string_to_bytes(s) }
    }

    /// The bytes as a vector.
    pub fn into_vec(self) -> (out: Vec<u8>)
        ensures
            out@ == self@,
    {
        self.b
    }

    /// The bytes as a slice.
    pub fn to_slice(&self) -> (out: &[u8])
        ensures
            out@ == self@,
    {
        self.b.as_slice()
    }

    /// Appends the bytes of `v`.
    pub fn extend(&mut self, v: Bytes)
        ensures
            final(self)@ == old(self)@ + v@,
    {
        self.extend_from_slice(v.b.as_slice());
    }

    /// Appends the bytes of `v`.
    pub fn extend_from_slice(&mut self, v: &[u8])
        ensures
            final(self)@ == old(self)@ + v@,
    {
        let mut i: usize = 0;
        while i < v.len()
            invariant
                i <= v@.len(),
                self.b@ == old(self).b@ + v@.subrange(0, i as int),
            decreases v.len() - i,
        {
            self.b.push(v[i]);
            i += 1;
            assert(self.b@ =~= old(self).b@ + v@.subrange(0, i as int));
        }
        assert(v@.subrange(0, i as int) =~= v@);
    }

    /// Appends the byte `v`.
    pub fn push(&mut self, v: u8)
        ensures
            final(self)@ == old(self)@.push(v),
    {
        self.b.push(v);
    }

    /// Writes the bytes of `v` over these bytes, from the index `start` on.
    pub fn update_raw(&mut self, start: usize, v: &[u8])
        requires
            start + v@.len() <= old(self)@.len(),
        ensures
            final(self)@ == overwritten(old(self)@, start as int, v@),
    {
        let mut i: usize = 0;
        let len = self.b.len();
        while i < v.len()
            invariant
                i <= v@.len(),
                start + v@.len() <= self.b@.len(),
                self.b@.len() == old(self).b@.len(),
                len == self.b@.len(),
                forall|j: int|
                    0 <= j < self.b@.len() ==> self.b@[j] == if start <= j < start + i {
                        v@[j - start]
                    } else {
                        old(self).b@[j]
                    },
            decreases v.len() - i,
        {
            self.b[start + i] = v[i];
            i += 1;
        }
        assert(self.b@ =~= overwritten(old(self)@, start as int, v@));
    }

    /// Writes the bytes of `v` over these bytes, from the index `start` on.
    pub fn update_vec(&mut self, start: usize, v: Vec<u8>)
        requires
            start + v@.len() <= old(self)@.len(),
        ensures
            final(self)@ == overwritten(old(self)@, start as int, v@),
    {
        self.update_raw(start, v.as_slice());
    }

    /// Writes the bytes of `v` over these bytes, from the index `start` on.
    pub fn update(&mut self, start: usize, v: &dyn ByteArray)
        requires
            start + v.bytes().len() <= old(self)@.len(),
        ensures
            final(self)@ == overwritten(old(self)@, start as int, v.bytes()),
    {
        self.update_raw(start, v.raw());
    }

    /// Writes the bytes of `v` over these bytes, from the index `start` on.
    pub fn update_slice(&mut self, start: usize, v: ByteSlice)
        requires
            start + v@.len() <= old(self)@.len(),
        ensures
            final(self)@ == overwritten(old(self)@, start as int, v@),
    {
        self.update_raw(start, v.b);
    }

    /// All `N` bytes as an array.
    pub fn to_array<const N: usize>(&self) -> (a: [u8; N])
        requires
            self@.len() == N,
        ensures
            a@ == self@,
    {
        let a = copy_range(self.b.as_slice(), 0, self.b.len());
        assert(self@.subrange(0, self@.len() as int) =~= self@);
        a
    }

    /// The `N` bytes from `start` up to `end` as an array.
    pub fn to_array_part<const N: usize>(&self, start: usize, end: usize) -> (a: [u8; N])
        requires
            start <= end <= self@.len(),
            end - start == N,
        ensures
            a@ == self@.subrange(start as int, end as int),
    {
        copy_range(self.b.as_slice(), start, end)
    }

    /// The `N` bytes of the range `r` as an array.
    pub fn get<const N: usize>(&self, r: Range<usize>) -> (a: [u8; N])
        requires
            r.start <= r.end <= self@.len(),
            r.end - r.start == N,
        ensures
            a@ == self@.subrange(r.start as int, r.end as int),
    {
        copy_range(self.b.as_slice(), r.start, r.end)
    }

    /// The bytes in blocks of the size `block_size`; the last block holds what
    /// is left.
    pub fn split(&self, block_size: usize) -> (res: Vec<Bytes>)
        requires
            block_size > 0,
        ensures
            res@.len() == block_count(self@.len() as int, block_size as int),
            forall|k: int|
                0 <= k < res@.len() ==> (#[trigger] res@[k])@ == block(self@, block_size as int, k),
    {
        let mut res: Vec<Bytes> = Vec::new();
        let mut i: usize = 0;
        let len = self.b.len();
        assert(0 == 0 * block_size) by (nonlinear_arith);
        while i < len
            invariant
                len == self.b@.len(),
                block_size > 0,
                i <= len,
                i == res@.len() * block_size,
                forall|k: int|
                    0 <= k < res@.len() ==> (#[trigger] res@[k])@ == block(
                        self@,
                        block_size as int,
                        k,
                    ),
            decreases len - i,
        {
            let end = if len - i < block_size {
                len
            } else {
                i + block_size
            };
            let ghost k = res@.len() as int;
            proof {
                assert((k + 1) * block_size == i + block_size) by (nonlinear_arith)
                    requires
                        i == k * block_size,
                ;
            }
            let piece = vstd::slice::slice_subrange(self.b.as_slice(), i, end);
            res.push(Bytes::from_array(piece));
            if len - i < block_size {
                proof {
                    assert((k + 1 - 1) * block_size == k * block_size);
                    lemma_block_count(len as int, block_size as int, k + 1);
                }
                return res;
            }
            i = end;
        }
        proof {
            let k = res@.len() as int;
            assert((k - 1) * block_size < k * block_size) by (nonlinear_arith)
                requires
                    block_size > 0,
            ;
            lemma_block_count(len as int, block_size as int, k);
        }
        res
    }

    /// The number that the four bytes stand for, the least significant byte
    /// first.
    pub fn to_u32l(&self) -> (r: u32)
        requires
            self@.len() == 4,
        ensures
            r == le_u32(self@),
    {
        to_u32l(self.b.as_slice())
    }

    /// The four bytes of `x`, the most significant one first.
    pub fn from_u32l(x: u32) -> (out: Self)
        ensures
            out@ == be_bytes_of_u32(x),
    {
        let (a, b, c, d) = from_u32l(x);
        let mut v: Vec<u8> = Vec::new();
        v.push(a);
        v.push(b);
        v.push(c);
        v.push(d);
        assert(v@ =~= seq![a, b, c, d]);
        Bytes { b: v }
    }

    /// The number that the bytes stand for, the least significant byte first.
    pub fn to_le_uint(&self) -> (r: u128)
        requires
            0 < self@.len() <= 16,
        ensures
            r == le_value(self@),
    {
        let mut r: u128 = self.b[0] as u128;
        proof {
            lemma_le_value_push(Seq::<u8>::empty(), self.b@[0]);
            assert(Seq::<u8>::empty().push(self.b@[0]) =~= self@.subrange(0, 1));
            lemma_pow256(0);
            assert(1u128 << 8 == 256) by (bit_vector);
            assert(self.b@[0] as nat * 1 == self.b@[0] as nat) by (nonlinear_arith);
        }
        let mut i: usize = 1;
        while i < self.b.len()
            invariant
                1 <= i <= self.b@.len() <= 16,
                r == le_value(self@.subrange(0, i as int)),
                r < pow256(i as nat),
                i < 16 ==> pow256(i as nat) == 1u128 << ((i * 8) as u128),
            decreases self.b.len() - i,
        {
            let byte = self.b[i] as u128;
            let shift = i * 8;
            proof {
                let s = shift as u128;
                let w = 1u128 << s;
                assert((r | (byte << s)) == r + byte * w && byte << s == byte * w) by (bit_vector)
                    requires
                        r < w,
                        w == 1u128 << s,
                        byte < 256,
                        s <= 120,
                ;
                assert(s < 120 ==> (1u128 << ((s + 8) as u128)) == 256 * w) by (bit_vector)
                    requires
                        w == 1u128 << s,
                        s <= 120,
                ;
                lemma_pow256(i as nat);
                lemma_le_value_push(self@.subrange(0, i as int), self.b@[i as int]);
                assert(self@.subrange(0, i as int).push(self.b@[i as int]) =~= self@.subrange(
                    0,
                    i + 1,
                ));
                assert(r + byte * w < 256 * w) by (nonlinear_arith)
                    requires
                        r < w,
                        byte < 256,
                ;
            }
            r |= byte << shift;
            i += 1;
        }
        assert(self@.subrange(0, i as int) =~= self@);
        r
    }
}

/// Each further power is 256 times the one before.
pub proof fn lemma_pow256(k: nat)
    ensures
        pow256(k + 1) == 256 * pow256(k),
        pow256(0) == 1,
{
    reveal_with_fuel(pow256, 2);
}

/// A further byte adds its value at the next power of 256.
pub proof fn lemma_le_value_push(b: Seq<u8>, c: u8)
    ensures
        le_value(b.push(c)) == le_value(b) + c as nat * pow256(b.len()),
        le_value(Seq::<u8>::empty()) == 0,
{
    assert(b.push(c).drop_last() =~= b);
}

/// The iterator of a slice walks the items of the slice.
pub proof fn lemma_iter_elements(s: &[u8], it: core::slice::Iter<'_, u8>)
    requires
        it == vstd::std_specs::slice::spec_slice_iter(s),
        vstd::std_specs::iter::IteratorSpec::initial_value_relation(&it, &it),
    ensures
        vstd::std_specs::slice::into_iter_elts(it) == s@,
{
    vstd::std_specs::slice::axiom_spec_slice_iter(s);
    assert(vstd::std_specs::slice::into_iter_elts(it) =~= s@);
}

/// Whole blocks fill the bytes up to the last one.
pub proof fn lemma_block_count(len: int, block_size: int, k: int)
    requires
        block_size > 0,
        0 <= len,
        0 <= k,
        (k - 1) * block_size < len <= k * block_size,
    ensures
        block_count(len, block_size) == k,
{
    let a = len + block_size - 1;
    assert(k * block_size <= a < (k + 1) * block_size) by (nonlinear_arith)
        requires
            (k - 1) * block_size < len <= k * block_size,
            a == len + block_size - 1,
            block_size > 0,
    ;
    vstd::arithmetic::div_mod::lemma_fundamental_div_mod_converse(
        a,
        block_size,
        k,
        a - k * block_size,
    );
}

impl ByteArray for Bytes {
    open spec fn bytes(&self) -> Seq<u8> {
        self@
    }

    fn raw(&self) -> (r: &[u8]) {
        self.b.as_slice()
    }

    fn len(&self) -> (l: usize) {
        self.b.len()
    }

    fn iter(&self) -> (it: core::slice::Iter<'_, u8>) {
        let s = self.b.as_slice();
        let it = s.iter();
        proof {
            lemma_iter_elements(s, it);
        }
        it
    }

    fn is_empty(&self) -> (b: bool) {
        self.b.len() == 0
    }
}

impl vstd::std_specs::core::IndexSpecImpl<usize> for Bytes {
    open spec fn index_req(&self, index: &usize) -> bool {
        (*index) < self@.len()
    }
}

impl Index<usize> for Bytes {
    type Output = u8;

    fn index(&self, i: usize) -> (out: &u8)
        ensures
            *out == self@[i as int],
    {
        &self.b[i]
    }
}

impl vstd::std_specs::convert::FromSpecImpl<Vec<u8>> for Bytes {
    open spec fn obeys_from_spec() -> bool {
        false
    }

    open spec fn from_spec(v: Vec<u8>) -> Self {
        vstd::pervasive::arbitrary()
    }
}

impl From<Vec<u8>> for Bytes {
    fn from(x: Vec<u8>) -> (out: Bytes)
        ensures
            out@ == x@,
    {
        Self { b: x }
    }
}

impl vstd::std_specs::convert::FromSpecImpl<&[u8]> for Bytes {
    open spec fn obeys_from_spec() -> bool {
        false
    }

    open spec fn from_spec(v: &[u8]) -> Self {
        vstd::pervasive::arbitrary()
    }
}

impl From<&[u8]> for Bytes {
    fn from(x: &[u8]) -> (out: Bytes)
        ensures
            out@ == x@,
    {
        Self { b: vstd::slice::slice_to_vec(x) }
    }
}

} // verus!
