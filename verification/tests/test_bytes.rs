use hacspec::array::FixedBytes;
use hacspec::bytes::{ByteArray, ByteSlice, Bytes};

#[test]
fn test_vlbytes() {
    let x_ = Bytes::from_hex("000102030405");
    let x = x_.get_slice();

    fn sth(b: ByteSlice) {
        println!("do: {:?}", b);
    }

    sth(x);
    println!("{:?}", x);
    assert_eq!(x_, Bytes::from_array(&[0, 1, 2, 3, 4, 5]));
}

#[test]
fn test_bytes_conversion() {
    fn do_test(b: FixedBytes<77>) {
        println!("TestBytes: {:?}", b);
    }
    fn do_other(b: FixedBytes<77>) {
        println!("OtherBytes: {:?}", b);
    }

    let t = FixedBytes::<77>::new();
    let o = FixedBytes::<77>::new();

    do_test(FixedBytes::<77>::from_byte_array(&o));
    do_other(FixedBytes::<77>::from_byte_array(&t));
    assert_eq!(FixedBytes::<77>::from_byte_array(&o), t);
}

#[test]
fn byte_strings_of_a_fixed_length() {
    assert_eq!(FixedBytes::<3>::new(), FixedBytes([0, 0, 0]));
    assert_eq!(FixedBytes::<3>::capacity(), 3);
    assert_eq!(FixedBytes::<3>::random().len(), 3);
    assert_eq!(FixedBytes::<3>::from_array([1, 2, 3]), FixedBytes([1, 2, 3]));
    assert_eq!(FixedBytes::<3>::from_slice(&[1, 2, 3]), FixedBytes([1, 2, 3]));
    assert_eq!(FixedBytes::<3>::from_slice_pad(&[1, 2]), FixedBytes([1, 2, 0]));
    assert_eq!(FixedBytes::<3>::from_slice_lazy(&[1, 2, 3, 4]), FixedBytes([1, 2, 3]));
    assert_eq!(FixedBytes::<3>::from_vec_lazy(vec![1]), FixedBytes([1, 0, 0]));
    let mut b = FixedBytes::<6>::new();
    b.update_raw(1, &[1, 2]);
    b.update(3, &Bytes::from_array(&[3]));
    b.update_vec(4, vec![4, 5]);
    assert_eq!(b, FixedBytes([0, 1, 2, 3, 4, 5]));
    assert_eq!(b.word(1), [1, 2, 3, 4]);
    let a: [u8; 2] = b.get(4..6);
    assert_eq!(a, [4, 5]);
    assert_eq!(b[2], 2);
    assert_eq!(b.raw(), &[0, 1, 2, 3, 4, 5]);
    assert!(!ByteArray::is_empty(&b));
    assert_eq!(ByteArray::iter(&b).count(), 6);
    assert_eq!(
        FixedBytes::<10>::from_u64_slice_le(&[0x0102030405060708]),
        FixedBytes([8, 7, 6, 5, 4, 3, 2, 1, 0, 0])
    );
}
