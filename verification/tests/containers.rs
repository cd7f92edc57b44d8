use hacspec::bytes::{copy_range, from_u32l, to_array, to_u32l, ByteArray, Bytes};
use hacspec::randomness::get_random_bytes;
use hacspec::sequence::{SeqTrait, Sequence};
use hacspec::util::{bytes_to_hex, hex_digit_value, hex_pair_value, hex_string_to_bytes};
use hacspec::words::{
    byte_at, le_uint, u128_from_le_bytes, u32_from_le_bytes, u32_to_be_bytes, u32_to_le_bytes,
    u64_slice_to_le_u8s, u64_to_be_bytes, u64_to_le_bytes, U128Word, U32Word, U64Word,
};

#[test]
fn hexadecimal_text() {
    assert_eq!(hex_string_to_bytes("000102030405"), vec![0, 1, 2, 3, 4, 5]);
    assert_eq!(hex_string_to_bytes("fFAb"), vec![0xff, 0xab]);
    assert_eq!(hex_string_to_bytes(""), Vec::<u8>::new());
    // a plus sign and a digit are read as the digit
    assert_eq!(hex_string_to_bytes("+f"), vec![0x0f]);
    assert_eq!(hex_digit_value(b'a'), Some(10));
    assert_eq!(hex_digit_value(b'G'), None);
    assert_eq!(hex_pair_value(b'1', b'0'), Some(16));
    assert_eq!(hex_pair_value(b'1', b'+'), None);
    assert_eq!(hex_pair_value(b'-', b'1'), None);
    assert_eq!(bytes_to_hex(&[0x03, 0x88, 0xda, 0xce]), "0388dace");
    assert_eq!(bytes_to_hex(&[]), "");
    assert_eq!(Sequence::<u8>::from_hex("0aff").to_hex(), "0aff");
}

#[test]
fn words_of_bytes() {
    assert_eq!(to_u32l(&[0x78, 0x56, 0x34, 0x12]), 0x12345678);
    assert_eq!(from_u32l(0x12345678), (0x12, 0x34, 0x56, 0x78));
    assert_eq!(Bytes::from_array(&[0x78, 0x56, 0x34, 0x12]).to_u32l(), 0x12345678);
    assert_eq!(Bytes::from_u32l(0x12345678), Bytes::from_array(&[0x12, 0x34, 0x56, 0x78]));
    assert_eq!(Bytes::from_array(&[0x78, 0x56, 0x34]).to_le_uint(), 0x345678);
    assert_eq!(Bytes::from_array(&[0xff; 16]).to_le_uint(), u128::MAX);
    assert_eq!(Bytes::from_array(&[7]).to_le_uint(), 7);
    assert_eq!(le_uint(&[]), 0);
    assert_eq!(u32_to_le_bytes(0x12345678), U32Word([0x12, 0x34, 0x56, 0x78]));
    assert_eq!(u32_to_be_bytes(0x12345678), U32Word([0x12, 0x34, 0x56, 0x78]));
    assert_eq!(u32_from_le_bytes(U32Word([0x78, 0x56, 0x34, 0x12])), 0x12345678);
    assert_eq!(
        u64_to_be_bytes(0x0102030405060708),
        U64Word([1, 2, 3, 4, 5, 6, 7, 8])
    );
    assert_eq!(
        u64_to_le_bytes(0x0102030405060708),
        U64Word([8, 7, 6, 5, 4, 3, 2, 1])
    );
    let mut w = [0u8; 16];
    w[0] = 1;
    w[15] = 0x80;
    assert_eq!(u128_from_le_bytes(U128Word(w)), (1u128 << 127) + 1);
    assert_eq!(byte_at(0x0102030405060708, 2), 6);
    let words = Sequence::from_vec(vec![0x0102030405060708u64, 0x1112131415161718]);
    assert_eq!(
        u64_slice_to_le_u8s(&words).into_vec(),
        vec![8, 7, 6, 5, 4, 3, 2, 1, 0x18, 0x17, 0x16, 0x15, 0x14, 0x13, 0x12, 0x11]
    );
}

#[test]
fn byte_strings() {
    let mut b = Bytes::new_len(3);
    assert_eq!(b, Bytes::from_vec(vec![0, 0, 0]));
    assert!(!b.is_empty());
    assert!(Bytes::new_len(0).is_empty());
    b.push(7);
    b.extend_from_slice(&[8, 9]);
    b.extend(Bytes::from_array(&[10]));
    assert_eq!(b.to_slice(), &[0, 0, 0, 7, 8, 9, 10]);
    b.update_raw(1, &[1, 2]);
    assert_eq!(b.to_slice(), &[0, 1, 2, 7, 8, 9, 10]);
    b.update_vec(5, vec![5, 6]);
    assert_eq!(b.to_slice(), &[0, 1, 2, 7, 8, 5, 6]);
    b.update(0, &Bytes::from_array(&[3]));
    assert_eq!(b.to_slice(), &[3, 1, 2, 7, 8, 5, 6]);
    let other = Bytes::from_array(&[4, 4]);
    b.update_slice(2, other.get_slice());
    assert_eq!(b.to_slice(), &[3, 1, 4, 4, 8, 5, 6]);
    assert_eq!(ByteArray::len(&b), 7);
    assert_eq!(b[4], 8);
    assert_eq!(b.clone().into_vec(), vec![3, 1, 4, 4, 8, 5, 6]);
    assert_eq!(Bytes::from(vec![1u8, 2]), Bytes::from(&[1u8, 2][..]));
    assert_eq!(b.raw(), &[3, 1, 4, 4, 8, 5, 6]);
    assert_eq!(ByteArray::iter(&b).copied().collect::<Vec<u8>>(), vec![3, 1, 4, 4, 8, 5, 6]);
    assert!(!ByteArray::is_empty(&b));
    let a: [u8; 7] = b.to_array();
    assert_eq!(a, [3, 1, 4, 4, 8, 5, 6]);
    let a: [u8; 2] = b.to_array_part(1, 3);
    assert_eq!(a, [1, 4]);
    let a: [u8; 3] = b.get(4..7);
    assert_eq!(a, [8, 5, 6]);
    let s = b.get_slice();
    assert_eq!(s.len(), 7);
    assert!(!s.is_empty());
    let a: [u8; 2] = s.get(0..2);
    assert_eq!(a, [3, 1]);
    assert_eq!(s.iter().copied().collect::<Vec<u8>>(), vec![3, 1, 4, 4, 8, 5, 6]);
    let a: [u8; 2] = copy_range(&[1, 2, 3], 1, 3);
    assert_eq!(a, [2, 3]);
    let a: [u16; 2] = to_array(&[1u16, 2]);
    assert_eq!(a, [1, 2]);
    let a: [u16; 0] = to_array(&[]);
    assert_eq!(a, []);
}

#[test]
fn blocks_of_bytes() {
    let b = Bytes::from_array(&[1, 2, 3, 4, 5]);
    assert_eq!(
        b.split(2),
        vec![Bytes::from_array(&[1, 2]), Bytes::from_array(&[3, 4]), Bytes::from_array(&[5])]
    );
    assert_eq!(b.split(5), vec![b.clone()]);
    assert_eq!(b.split(9), vec![b.clone()]);
    assert_eq!(Bytes::new_len(0).split(3), Vec::<Bytes>::new());
}

#[test]
fn random_bytes_have_the_length() {
    assert_eq!(get_random_bytes(33).len(), 33);
    assert_eq!(ByteArray::len(&Bytes::random(5)), 5);
    assert_eq!(Sequence::<u8>::random(9).len(), 9);
}

#[test]
fn sequences() {
    let s = Sequence::<u32>::new_len(3);
    assert_eq!(s, Sequence::from_array(&[0, 0, 0]));
    assert!(Sequence::<u32>::new().is_empty());
    assert_eq!(s.len(), 3);
    let s = s.update(1, Sequence::from_array(&[7, 8]));
    assert_eq!(s, Sequence::from_array(&[0, 7, 8]));
    let s = s.update_sub(0, Sequence::from_array(&[1, 2, 3, 4]), 2, 2);
    assert_eq!(s, Sequence::from_array(&[3, 4, 8]));
    let s = s.update_element(2, 9);
    assert_eq!(s.clone().into_vec(), vec![3, 4, 9]);
    assert_eq!(s.clone().sub(1, 5), Sequence::from_array(&[4, 9]));
    assert_eq!(s.clone().sub(1, 1), Sequence::from_array(&[4]));
    assert_eq!(s.clone().sub(7, 1), Sequence::new());
    assert_eq!(Sequence::<u32>::from_sub(s.clone(), 5..9), Sequence::new());
    assert_eq!(Sequence::<u32>::from_sub(s.clone(), 1..1), Sequence::new());
    assert_eq!(s.raw(), &[3, 4, 9]);
    assert_eq!(SeqTrait::len(&s), 3);
    assert_eq!(SeqTrait::iter(&s).copied().collect::<Vec<u32>>(), vec![3, 4, 9]);
    assert_eq!(Sequence::from(vec![3u32, 4, 9]), s);
    assert_eq!(Sequence::from(&[3u32, 4, 9][..]), s);
    assert_eq!(s[0usize], 3);
    assert_eq!(s[1u8], 4);
    assert_eq!(s[2u32], 9);
    assert_eq!(s[2i32], 9);
    assert_eq!(
        s.chunks(2),
        vec![(2, Sequence::from_array(&[3, 4])), (1, Sequence::from_array(&[9]))]
    );
}

#[test]
fn polynomials_over_the_integers() {
    let x = Sequence::<u128>::from_array(&[5, 2, 7, 8, 9]);
    let y = Sequence::<u128>::from_array(&[2, 1, 0, 2, 4]);
    assert_eq!(
        (x.clone() * y.clone()).into_vec(),
        vec![10, 9, 16, 33, 50, 31, 44, 50, 36, 0]
    );
    assert_eq!((x.clone() + y.clone()).into_vec(), vec![7, 3, 7, 10, 13]);
    let x = Sequence::<i128>::from_array(&[-1, 0, 1]);
    let y = Sequence::<i128>::from_array(&[1, 1]);
    let (q, r) = x / y;
    assert_eq!(q.into_vec(), vec![-1, 1, 0]);
    assert!(r.into_vec().iter().all(|c| *c == 0));
}
