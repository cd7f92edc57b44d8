//! Byte strings of a fixed length.

use crate::bytes::{copy_range, lemma_iter_elements, overwritten, ByteArray};
use crate::randomness::get_random_bytes;
use crate::words::{byte_at, le_bytes_of_all};
use core::ops::{Index, Range};
use vstd::prelude::*;

verus! {

/// A byte string of the length `L`.
#[derive(Clone, Copy, Debug, PartialEq)]
pub struct FixedBytes<const L: usize>(pub [u8; L]);

impl<const L: usize> View for FixedBytes<L> {
    type V = Seq<u8>;

    open spec fn view(&self) -> Seq<u8> {
        self.0@
    }
}

/// The first `l` bytes of `v`, with zeros where `v` has none.
pub open spec fn padded(v: Seq<u8>, l: int) -> Seq<u8> {
    Seq::new(
        l as nat,
        |i: int|
            if i < v.len() {
                v[i]
            } else {
                0u8
            },
    )
}

impl<const L: usize> FixedBytes<L> {
    /// `L` zero bytes.
    pub fn new() -> (out: Self)
        ensures
            out@ == padded(Seq::<u8>::empty(), L as int),
    {
        let out = Self([0u8;L]);
        assert(out@ =~= padded(Seq::<u8>::empty(), L as int));
        out
    }

    /// The length `L`.
    pub fn capacity() -> (l: usize)
        ensures
            l == L,
    {
        L
    }

    /// `L` random bytes.
    pub fn random() -> (out: Self)
        ensures
            out@.len() == L,
    {
        let drawn = get_random_bytes(L);
        Self::from_slice(drawn.as_slice())
    }

    /// The bytes of the array.
    pub fn from_array(v: [u8; L]) -> (out: Self)
        ensures
            out@ == v@,
    {
        Self(v)
    }

    /// The `L` bytes of the slice.
    pub fn from_slice(v: &[u8]) -> (out: Self)
        requires
            v@.len() == L,
        ensures
            out@ == v@,
    {
        let out = Self::from_slice_lazy(v);
        assert(out@ =~= v@);
        out
    }

    /// The bytes of the slice, which are `L` at most, followed by zeros.
    pub fn from_slice_pad(v: &[u8]) -> (out: Self)
        requires
            v@.len() <= L,
        ensures
            out@ == padded(v@, L as int),
    {
        Self::from_slice_lazy(v)
    }

    /// The first `L` bytes of the slice, followed by zeros where it has
    /// fewer.
    pub fn from_slice_lazy(v: &[u8]) -> (out: Self)
        ensures
            out@ == padded(v@, L as int),
    {
        let mut tmp = [0u8;L];
        let mut i: usize = 0;
        while i < L && i < v.len()
            invariant
                i <= L,
                i <= v@.len(),
                forall|j: int| 0 <= j < i ==> tmp@[j] == v@[j],
                forall|j: int| i <= j < L ==> tmp@[j] == 0,
            decreases L - i,
        {
            tmp[i] = v[i];
            i += 1;
        }
        assert(tmp@ =~= padded(v@, L as int));
        Self(tmp)
    }

    /// The first `L` bytes of the vector, followed by zeros where it has
    /// fewer.
    pub fn from_vec_lazy(v: Vec<u8>) -> (out: Self)
        ensures
            out@ == padded(v@, L as int),
    {
        Self::from_slice_lazy(v.as_slice())
    }

    /// The `L` bytes of another byte string.
    pub fn from_byte_array(v: &dyn ByteArray) -> (out: Self)
        requires
            v.bytes().len() == L,
        ensures
            out@ == v.bytes(),
    {
        let out = Self::from_slice_lazy(v.raw());
        assert(out@ =~= v.bytes());
        out
    }

    /// Writes the bytes of `v` over these bytes, from the index `start` on.
    pub fn update_raw(&mut self, start: usize, v: &[u8])
        requires
            start + v@.len() <= L,
        ensures
            final(self)@ == overwritten(old(self)@, start as int, v@),
    {
        let mut i: usize = 0;
        while i < v.len()
            invariant
                i <= v@.len(),
                start + v@.len() <= L,
                forall|j: int|
                    0 <= j < L ==> self.0@[j] == if start <= j < start + i {
                        v@[j - start]
                    } else {
                        old(self).0@[j]
                    },
            decreases v.len() - i,
        {
            self.0[start + i] = v[i];
            i += 1;
        }
        assert(self@ =~= overwritten(old(self)@, start as int, v@));
    }

    /// Writes the bytes of `v` over these bytes, from the index `start` on.
    pub fn update(&mut self, start: usize, v: &dyn ByteArray)
        requires
            start + v.bytes().len() <= L,
        ensures
            final(self)@ == overwritten(old(self)@, start as int, v.bytes()),
    {
        self.update_raw(start, v.raw());
    }

    /// Writes the bytes of `v` over these bytes, from the index `start` on.
    pub fn update_vec(&mut self, start: usize, v: Vec<u8>)
        requires
            start + v@.len() <= L,
        ensures
            final(self)@ == overwritten(old(self)@, start as int, v@),
    {
        self.update_raw(start, v.as_slice());
    }

    /// The length `L`.
    pub fn len(&self) -> (l: usize)
        ensures
            l == L,
    {
        L
    }

    /// The four bytes from the index `start` on.
    pub fn word(&self, start: usize) -> (res: [u8; 4])
        requires
            start + 4 <= L,
        ensures
            res@ == self@.subrange(start as int, start + 4),
    {
        let bytes = self.0;
        copy_range(bytes.as_slice(), start, start + 4)
    }

    /// The `N` bytes of the range `r` as an array.
    pub fn get<const N: usize>(&self, r: Range<usize>) -> (a: [u8; N])
        requires
            r.start <= r.end <= L,
            r.end - r.start == N,
        ensures
            a@ == self@.subrange(r.start as int, r.end as int),
    {
        let bytes = self.0;
        copy_range(bytes.as_slice(), r.start, r.end)
    }

    /// The bytes of each of the words, the least significant one first,
    /// followed by zeros.
    pub fn from_u64_slice_le(x: &[u64]) -> (out: Self)
        requires
            8 * x@.len() <= L,
        ensures
            out@ == padded(le_bytes_of_all(x@), L as int),
    {
        let mut result = [0u8;L];
        let mut i: usize = 0;
        while i < x.len()
            invariant
                i <= x@.len(),
                8 * x@.len() <= L,
                forall|k: int|
                    0 <= k < 8 * i ==> result@[k] == crate::words::byte_of(
                        x@[k / 8] as int,
                        (k % 8) as nat,
                    ),
                forall|k: int| 8 * i <= k < L ==> result@[k] == 0,
            decreases x.len() - i,
        {
            let v = x[i];
            let mut j: usize = 0;
            while j < 8
                invariant
                    j <= 8,
                    i < x@.len(),
                    8 * x@.len() <= L,
                    v == x@[i as int],
                    forall|k: int|
                        0 <= k < 8 * i + j ==> result@[k] == crate::words::byte_of(
                            x@[k / 8] as int,
                            (k % 8) as nat,
                        ),
                    forall|k: int| 8 * i + j <= k < L ==> result@[k] == 0,
                decreases 8 - j,
            {
                result[8 * i + j] = byte_at(v, j);
                j += 1;
            }
            i += 1;
        }
        assert(result@ =~= padded(le_bytes_of_all(x@), L as int));
        Self(result)
    }
}

impl<const L: usize> ByteArray for FixedBytes<L> {
    open spec fn bytes(&self) -> Seq<u8> {
        self@
    }

    fn raw(&self) -> (r: &[u8]) {
        self.0.as_slice()
    }

    fn len(&self) -> (l: usize) {
        L
    }

    fn iter(&self) -> (it: core::slice::Iter<'_, u8>) {
        let s = self.0.as_slice();
        let it = s.iter();
        proof {
            lemma_iter_elements(s, it);
        }
        it
    }

    fn is_empty(&self) -> (b: bool) {
        L == 0
    }
}

impl<const L: usize> vstd::std_specs::core::IndexSpecImpl<usize> for FixedBytes<L> {
    open spec fn index_req(&self, index: &usize) -> bool {
        (*index) < L
    }
}

impl<const L: usize> Index<usize> for FixedBytes<L> {
    type Output = u8;

    fn index(&self, i: usize) -> (out: &u8)
        ensures
            *out == self@[i as int],
    {
        &self.0[i]
    }
}

} // verus!
