use hacspec::sequence::{SeqTrait, Sequence};

#[test]
fn test_byte_sequences() {
    let msg = Sequence::<u8>::from_hex("0388dace60b6a392f328c2b971b2fe78");
    let msg_u32 = Sequence::<u32>::from_array(&[0x0388dace, 0x60b6a392, 0xf328c2b9, 0x71b2fe78]);
    let chunks = msg.chunks(4);
    assert_eq!(chunks.len(), 4);
    for (i, (l, chunk)) in chunks.into_iter().enumerate() {
        assert_eq!(l, 4);
        assert_eq!((msg_u32.raw()[i] & 0xFF) as u8, chunk.raw()[3]);
        assert_eq!(((msg_u32.raw()[i] & 0xFF00) >> 8) as u8, chunk.raw()[2]);
        assert_eq!(((msg_u32.raw()[i] & 0xFF0000) >> 16) as u8, chunk.raw()[1]);
        assert_eq!(((msg_u32.raw()[i] & 0xFF000000) >> 24) as u8, chunk.raw()[0]);
    }
}
