use ttf_glyphs::buffer::ByteBuffer;
use ttf_glyphs::error::FontError;

#[test]
fn reads_big_endian_values() {
    let mut b = ByteBuffer::new(vec![0x12, 0x34, 0xff, 0xfe, 0x00, 0x01, 0x00, 0x02, 0x80]);
    assert_eq!(b.read_u16(), Ok(0x1234));
    assert_eq!(b.read_i16(), Ok(-2));
    assert_eq!(b.read_u32(), Ok(0x0001_0002));
    assert_eq!(b.read_i8(), Ok(-128));
    assert_eq!(b.current_position(), 9);
    assert_eq!(b.remaining(), 0);
}

#[test]
fn reads_signed_32_bit() {
    let mut b = ByteBuffer::new(vec![0xff, 0xff, 0xff, 0xfd, 0x7f, 0xff, 0xff, 0xff]);
    assert_eq!(b.read_i32(), Ok(-3));
    assert_eq!(b.read_i32(), Ok(i32::MAX));
}

#[test]
fn read_past_end_fails_and_keeps_cursor() {
    let mut b = ByteBuffer::new(vec![1, 2, 3]);
    b.skip_bytes(2).unwrap();
    assert_eq!(b.read_u16(), Err(FontError::OutOfBounds));
    assert_eq!(b.current_position(), 2);
    assert_eq!(b.read_u8(), Ok(3));
    assert_eq!(b.read_u8(), Err(FontError::OutOfBounds));
    assert_eq!(b.skip_bytes(1), Err(FontError::OutOfBounds));
}

#[test]
fn seek_backward_and_past_end() {
    let mut b = ByteBuffer::new(vec![10, 20, 30, 40]);
    b.set_position(3);
    assert_eq!(b.read_u8(), Ok(40));
    b.set_position(1);
    assert_eq!(b.read_u8(), Ok(20));
    b.set_position(9);
    assert_eq!(b.remaining(), 0);
    assert_eq!(b.read_u8(), Err(FontError::OutOfBounds));
}

#[test]
fn reads_tags_and_raw_bytes() {
    let mut b = ByteBuffer::new(b"glyfabc".to_vec());
    assert_eq!(b.read_tag(), Ok(*b"glyf"));
    assert_eq!(b.read_bytes(3), Ok(b"abc".to_vec()));
    assert_eq!(b.read_bytes(1), Err(FontError::OutOfBounds));
    assert_eq!(b.read_tag(), Err(FontError::OutOfBounds));
}

#[test]
fn reads_typed_arrays() {
    let mut b = ByteBuffer::new(vec![0, 1, 0xff, 0xff, 0, 0, 0, 7, 9]);
    assert_eq!(b.read_u16_array(2), Ok(vec![1, 0xffff]));
    b.set_position(0);
    assert_eq!(b.read_i16_array(2), Ok(vec![1, -1]));
    assert_eq!(b.read_u32_array(1), Ok(vec![7]));
    assert_eq!(b.read_u32_array(1), Err(FontError::OutOfBounds));
    assert_eq!(b.current_position(), 8);
    assert_eq!(b.read_u16_array(0), Ok(vec![]));
}
