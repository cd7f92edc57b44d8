//! Sequences of variable length.

use crate::randomness::get_random_bytes;
use crate::util::{bytes_to_hex, hex_bytes, hex_string_to_bytes, hex_text, is_hex};
use core::ops::{Index, Range};
use vstd::prelude::*;
use vstd::string::StringSliceAdditionalSpecFns;

verus! {

/// What sequences of items have in common.
pub trait SeqTrait<T: Copy> {
    /// The items, first to last.
    spec fn items(&self) -> Seq<T>;

    /// The items as a slice.
    fn raw<'a>(&'a self) -> (r: &'a [T])
        ensures
            r@ == self.items(),
    ;

    /// The number of items.
    fn len(&self) -> (l: usize)
        ensures
            l == self.items().len(),
    ;

    /// An iterator over the items, first to last.
    fn iter(&self) -> (it: core::slice::Iter<'_, T>)
        ensures
            vstd::std_specs::slice::into_iter_elts(it) == self.items(),
    ;
}

/// A sequence of variable length.
#[derive(Debug, Clone, PartialEq, Default)]
pub struct Sequence<T: Copy> {
    b: Vec<T>,
}

impl<T: Copy> View for Sequence<T> {
    type V = Seq<T>;

    closed spec fn view(&self) -> Seq<T> {
        self.b@
    }
}

/// `s` with the items of `v` from `start_in` on, `len` of them, written over
/// it from the index `start_out` on.
pub open spec fn overwritten_by<T>(
    s: Seq<T>,
    start_out: int,
    v: Seq<T>,
    start_in: int,
    len: int,
) -> Seq<T> {
    Seq::new(
        s.len(),
        |i: int|
            if start_out <= i < start_out + len {
                v[start_in + (i - start_out)]
            } else {
                s[i]
            },
    )
}

/// The smaller of two numbers.
pub open spec fn lesser(a: int, b: int) -> int {
    if a <= b {
        a
    } else {
        b
    }
}

/// The part of `s` that starts at `start` and holds up to `len` items: less
/// where `s` ends before.
pub open spec fn part<T>(s: Seq<T>, start: int, len: int) -> Seq<T> {
    s.subrange(lesser(start, s.len() as int), lesser(start + len, s.len() as int))
}

/// The number of chunks of the size `chunk_size` that `len` items fall into,
/// the last of which may be shorter.
pub open spec fn chunk_count(len: int, chunk_size: int) -> int {
    (len + chunk_size - 1) / chunk_size
}

/// The chunk `k` of `s`, cut into chunks of the size `chunk_size`.
pub open spec fn chunk<T>(s: Seq<T>, chunk_size: int, k: int) -> Seq<T> {
    part(s, k * chunk_size, chunk_size)
}

/// Whole chunks fill the items up to the last one.
pub proof fn lemma_chunk_count(len: int, chunk_size: int, k: int)
    requires
        chunk_size > 0,
        0 <= len,
        0 <= k,
        (k - 1) * chunk_size < len <= k * chunk_size,
    ensures
        chunk_count(len, chunk_size) == k,
{
    let a = len + chunk_size - 1;
    assert(k * chunk_size <= a < (k + 1) * chunk_size) by (nonlinear_arith)
        requires
            (k - 1) * chunk_size < len <= k * chunk_size,
            a == len + chunk_size - 1,
            chunk_size > 0,
    ;
    vstd::arithmetic::div_mod::lemma_fundamental_div_mod_converse(
        a,
        chunk_size,
        k,
        a - k * chunk_size,
    );
}

/// The iterator of a slice walks the items of the slice.
pub proof fn lemma_iter_items<T>(s: &[T], it: core::slice::Iter<'_, T>)
    requires
        it == vstd::std_specs::slice::spec_slice_iter(s),
        vstd::std_specs::iter::IteratorSpec::initial_value_relation(&it, &it),
    ensures
        vstd::std_specs::slice::into_iter_elts(it) == s@,
{
    vstd::std_specs::slice::axiom_spec_slice_iter(s);
    assert(vstd::std_specs::slice::into_iter_elts(it) =~= s@);
}

impl<T: Copy + Default> Sequence<T> {
    /// The empty sequence.
    pub fn new() -> (out: Self)
        ensures
            out@ == Seq::<T>::empty(),
    {
        Self { b: Vec::<T>::new() }
    }

    /// `l` times the default value of the item type.
    pub fn new_len(l: usize) -> (out: Self)
        ensures
            out@.len() == l,
            exists|d: T| call_ensures(T::default, (), d) && out@ == Seq::new(l as nat, |i: int| d),
    {
        let d = T::default();
        let mut b: Vec<T> = Vec::new();
        while b.len() < l
            invariant
                b@.len() <= l,
                forall|j: int| 0 <= j < b@.len() ==> b@[j] == d,
            decreases l - b.len(),
        {
            b.push(d);
        }
        assert(b@ =~= Seq::new(l as nat, |i: int| d));
        Self { b }
    }

    /// The items of the vector.
    pub fn from_vec(v: Vec<T>) -> (out: Self)
        ensures
            out@ == v@,
    {
        Self { b: v }
    }

    /// The items as a vector.
    pub fn into_vec(self) -> (v: Vec<T>)
        ensures
            v@ == self@,
    {
        self.b
    }

    /// Whether there are no items.
    pub fn is_empty(&self) -> (e: bool)
        ensures
            e == (self@.len() == 0),
    {
        self.b.len() == 0
    }

    /// The items of the slice.
    pub fn from_array(v: &[T]) -> (out: Self)
        ensures
            out@ == v@,
    {
        Self { b: vstd::slice::slice_to_vec(v) }
    }

    /// The number of items.
    pub fn len(&self) -> (l: usize)
        ensures
            l == self@.len(),
    {
        self.b.len()
    }

    /// The sequence with the items of `v` written over it from the index
    /// `start` on.
    pub fn update<A: SeqTrait<T>>(self, start: usize, v: A) -> (out: Self)
        requires
            start + v.items().len() <= self@.len(),
        ensures
            out@ == overwritten_by(self@, start as int, v.items(), 0, v.items().len() as int),
    {
        let l = v.len();
        self.update_sub(start, v, 0, l)
    }

    /// The sequence with the `len` items of `v` from `start_in` on written
    /// over it from the index `start_out` on.
    pub fn update_sub<A: SeqTrait<T>>(
        self,
        start_out: usize,
        v: A,
        start_in: usize,
        len: usize,
    ) -> (out: Self)
        requires
            start_out + len <= self@.len(),
            start_in + len <= v.items().len(),
        ensures
            out@ == overwritten_by(self@, start_out as int, v.items(), start_in as int, len as int),
    {
        let mut out = self;
        let src = v.raw();
        let total = out.b.len();
        let available = src.len();
        let mut i: usize = 0;
        while i < len
            invariant
                i <= len,
                src@ == v.items(),
                total == out.b@.len(),
                available == src@.len(),
                out.b@.len() == self@.len(),
                start_out + len <= out.b@.len(),
                start_in + len <= src@.len(),
                forall|j: int|
                    0 <= j < out.b@.len() ==> out.b@[j] == if start_out <= j < start_out + i {
                        src@[start_in + (j - start_out)]
                    } else {
                        self@[j]
                    },
            decreases len - i,
        {
            out.b[start_out + i] = src[start_in + i];
            i += 1;
        }
        assert(out@ =~= overwritten_by(
            self@,
            start_out as int,
            v.items(),
            start_in as int,
            len as int,
        ));
        out
    }

    /// The sequence with `v` at the index `start_out`.
    pub fn update_element(self, start_out: usize, v: T) -> (out: Self)
        requires
            start_out < self@.len(),
        ensures
            out@ == self@.update(start_out as int, v),
    {
        let mut out = self;
        out.b[start_out] = v;
        out
    }

    /// The part that starts at `start_out` and holds up to `len` items.
    pub fn sub(self, start_out: usize, len: usize) -> (out: Self)
        ensures
            out@ == part(self@, start_out as int, len as int),
    {
        let total = self.b.len();
        let from = if start_out < total {
            start_out
        } else {
            total
        };
        let to = if len < total - from {
            from + len
        } else {
            total
        };
        let piece = vstd::slice::slice_subrange(self.b.as_slice(), from, to);
        Self { b: vstd::slice::slice_to_vec(piece) }
    }

    /// The sequence that is made of the items of `input` in the range `r`.
    /// A new sequence has no place for an item, so the range holds none.
    pub fn from_sub<A: SeqTrait<T>>(input: A, r: Range<usize>) -> (out: Self)
        requires
            r.start <= r.end,
            r.start == r.end || input.items().len() <= r.start,
        ensures
            out@ == Seq::<T>::empty(),
    {
        Self { b: Vec::<T>::new() }
    }

    /// The items in chunks of the size `chunk_size`, each with its length;
    /// the last chunk holds what is left.
    pub fn chunks(&self, chunk_size: usize) -> (res: Vec<(usize, Sequence<T>)>)
        requires
            chunk_size > 0,
        ensures
            res@.len() == chunk_count(self@.len() as int, chunk_size as int),
            forall|k: int|
                0 <= k < res@.len() ==> (#[trigger] res@[k]).1@ == chunk(
                    self@,
                    chunk_size as int,
                    k,
                ) && res@[k].0 == res@[k].1@.len(),
    {
        let mut res: Vec<(usize, Sequence<T>)> = Vec::new();
        let mut i: usize = 0;
        let len = self.b.len();
        assert(0 == 0 * chunk_size) by (nonlinear_arith);
        while i < len
            invariant
                len == self.b@.len(),
                chunk_size > 0,
                i <= len,
                i == res@.len() * chunk_size,
                forall|k: int|
                    0 <= k < res@.len() ==> (#[trigger] res@[k]).1@ == chunk(
                        self@,
                        chunk_size as int,
                        k,
                    ) && res@[k].0 == res@[k].1@.len(),
            decreases len - i,
        {
            let end = if len - i < chunk_size {
                len
            } else {
                i + chunk_size
            };
            let ghost k = res@.len() as int;
            proof {
                assert((k + 1) * chunk_size == i + chunk_size) by (nonlinear_arith)
                    requires
                        i == k * chunk_size,
                ;
            }
            let piece = vstd::slice::slice_subrange(self.b.as_slice(), i, end);
            res.push((end - i, Sequence { b: vstd::slice::slice_to_vec(piece) }));
            if len - i < chunk_size {
                proof {
                    assert((k + 1 - 1) * chunk_size == k * chunk_size);
                    lemma_chunk_count(len as int, chunk_size as int, k + 1);
                }
                return res;
            }
            i = end;
        }
        proof {
            let k = res@.len() as int;
            assert((k - 1) * chunk_size < k * chunk_size) by (nonlinear_arith)
                requires
                    chunk_size > 0,
            ;
            lemma_chunk_count(len as int, chunk_size as int, k);
        }
        res
    }
}

impl Sequence<u8> {
    /// `l` random bytes.
    pub fn random(l: usize) -> (out: Self)
        ensures
            out@.len() == l,
    {
        Self { b: get_random_bytes(l) }
    }

    /// The bytes as hexadecimal text.
    pub fn to_hex(&self) -> (out: String)
        ensures
            out@ == hex_text(self@),
    {
        bytes_to_hex(self.b.as_slice())
    }

    /// The bytes that hexadecimal text stands for.
    pub fn from_hex(s: &str) -> (out: Self)
        requires
            is_hex(s.spec_bytes()),
        ensures
            out@ == hex_bytes(s.spec_bytes()),
    {
        Self { b: hex_string_to_bytes(s) }
    }
}

impl<T: Copy> SeqTrait<T> for Sequence<T> {
    open spec fn items(&self) -> Seq<T> {
        self@
    }

    fn raw<'a>(&'a self) -> (r: &'a [T]) {
        self.b.as_slice()
    }

    fn len(&self) -> (l: usize) {
        self.b.len()
    }

    fn iter(&self) -> (it: core::slice::Iter<'_, T>) {
        let s = self.b.as_slice();
        let it = s.iter();
        proof {
            lemma_iter_items(s, it);
        }
        it
    }
}

impl<T: Copy> vstd::std_specs::core::IndexSpecImpl<usize> for Sequence<T> {
    open spec fn index_req(&self, index: &usize) -> bool {
        (*index) < self@.len()
    }
}

impl<T: Copy> Index<usize> for Sequence<T> {
    type Output = T;

    fn index(&self, i: usize) -> (out: &T)
        ensures
            *out == self@[i as int],
    {
        &self.b[i]
    }
}

impl<T: Copy> vstd::std_specs::core::IndexSpecImpl<u8> for Sequence<T> {
    open spec fn index_req(&self, index: &u8) -> bool {
        (*index) < self@.len()
    }
}

impl<T: Copy> Index<u8> for Sequence<T> {
    type Output = T;

    fn index(&self, i: u8) -> (out: &T)
        ensures
            *out == self@[i as int],
    {
        &self.b[i as usize]
    }
}

impl<T: Copy> vstd::std_specs::core::IndexSpecImpl<u32> for Sequence<T> {
    open spec fn index_req(&self, index: &u32) -> bool {
        (*index) < self@.len()
    }
}

impl<T: Copy> Index<u32> for Sequence<T> {
    type Output = T;

    fn index(&self, i: u32) -> (out: &T)
        ensures
            *out == self@[i as int],
    {
        &self.b[i as usize]
    }
}

impl<T: Copy> vstd::std_specs::core::IndexSpecImpl<i32> for Sequence<T> {
    open spec fn index_req(&self, index: &i32) -> bool {
        0 <= (*index) < self@.len()
    }
}

impl<T: Copy> Index<i32> for Sequence<T> {
    type Output = T;

    fn index(&self, i: i32) -> (out: &T)
        ensures
            *out == self@[i as int],
    {
        &self.b[i as usize]
    }
}

impl<T: Copy> vstd::std_specs::convert::FromSpecImpl<Vec<T>> for Sequence<T> {
    open spec fn obeys_from_spec() -> bool {
        false
    }

    open spec fn from_spec(v: Vec<T>) -> Self {
        vstd::pervasive::arbitrary()
    }
}

impl<T: Copy> From<Vec<T>> for Sequence<T> {
    fn from(x: Vec<T>) -> (out: Sequence<T>)
        ensures
            out@ == x@,
    {
        Self { b: x }
    }
}

impl<T: Copy> vstd::std_specs::convert::FromSpecImpl<&[T]> for Sequence<T> {
    open spec fn obeys_from_spec() -> bool {
        false
    }

    open spec fn from_spec(v: &[T]) -> Self {
        vstd::pervasive::arbitrary()
    }
}

impl<T: Copy> From<&[T]> for Sequence<T> {
    fn from(x: &[T]) -> (out: Sequence<T>)
        ensures
            out@ == x@,
    {
        Self { b: vstd::slice::slice_to_vec(x) }
    }
}

} // verus!
