use primport::io::{
    align, low_u32, read_u16_array, read_u32_array, read_u8_array, write_u16_into, write_u32_into, write_u8_into,
    PrimError, Reader, Writer,
};

#[test]
fn align_pads_with_zeros_to_the_next_multiple() {
    let mut writer = Writer::new();
    write_u8_into(&mut writer, &[1, 2, 3, 4, 5]);
    align(&mut writer, 0x10);
    assert_eq!(writer.buf.len(), 16);
    assert_eq!(&writer.buf[..5], &[1, 2, 3, 4, 5]);
    assert!(writer.buf[5..].iter().all(|b| *b == 0));
}

#[test]
fn align_leaves_an_aligned_buffer_alone() {
    let mut writer = Writer::new();
    write_u8_into(&mut writer, &[7; 32]);
    align(&mut writer, 0x10);
    assert_eq!(writer.buf, vec![7; 32]);
    let mut empty = Writer::new();
    align(&mut empty, 0x10);
    assert!(empty.buf.is_empty());
}

#[test]
fn align_to_four() {
    let mut writer = Writer::new();
    writer.write_u8(9);
    align(&mut writer, 4);
    assert_eq!(writer.buf, vec![9, 0, 0, 0]);
}

#[test]
fn read_u8_array_reads_in_order() {
    let mut reader = Reader::new(vec![10, 20, 30, 40]);
    reader.seek(1);
    let r = read_u8_array(&mut reader, 2).unwrap();
    assert_eq!(r, vec![20, 30]);
    assert_eq!(reader.position(), 3);
}

#[test]
fn read_u8_array_past_the_end_fails() {
    let mut reader = Reader::new(vec![10, 20, 30]);
    reader.seek(2);
    assert_eq!(read_u8_array(&mut reader, 2), Err(PrimError::UnexpectedEnd));
    let mut far = Reader::new(vec![1]);
    far.seek(100);
    assert_eq!(read_u8_array(&mut far, 1), Err(PrimError::UnexpectedEnd));
    assert_eq!(read_u8_array(&mut far, 0), Ok(vec![]));
}

#[test]
fn read_u16_array_is_little_endian() {
    let mut reader = Reader::new(vec![0x34, 0x12, 0x78, 0x56, 0xFF]);
    assert_eq!(read_u16_array(&mut reader, 2), Ok(vec![0x1234, 0x5678]));
    assert_eq!(reader.position(), 4);
    assert_eq!(read_u16_array(&mut reader, 1), Err(PrimError::UnexpectedEnd));
}

#[test]
fn read_u32_array_is_little_endian() {
    let mut reader = Reader::new(vec![0x78, 0x56, 0x34, 0x12, 1, 0, 0, 0]);
    assert_eq!(read_u32_array(&mut reader, 2), Ok(vec![0x12345678, 1]));
    let mut short = Reader::new(vec![1, 2, 3]);
    assert_eq!(read_u32_array(&mut short, 1), Err(PrimError::UnexpectedEnd));
}

#[test]
fn reader_reads_single_values() {
    let mut reader = Reader::new(vec![0xAB, 0x01, 0x02, 0x04, 0x03, 0x02, 0x01]);
    assert_eq!(reader.read_u8(), Ok(0xAB));
    assert_eq!(reader.read_u16(), Ok(0x0201));
    assert_eq!(reader.read_u32(), Ok(0x01020304));
    assert_eq!(reader.read_u8(), Err(PrimError::UnexpectedEnd));
}

#[test]
fn write_into_is_little_endian() {
    let mut writer = Writer::new();
    write_u16_into(&mut writer, &[0x1234, 0xABCD]);
    write_u32_into(&mut writer, &[0x01020304]);
    writer.write_u8(0xEE);
    assert_eq!(writer.buf, vec![0x34, 0x12, 0xCD, 0xAB, 0x04, 0x03, 0x02, 0x01, 0xEE]);
    assert_eq!(writer.position(), 9);
}

#[test]
fn write_u128_writes_sixteen_bytes() {
    let mut writer = Writer::new();
    writer.write_u128(0);
    assert_eq!(writer.buf, vec![0; 16]);
    let mut other = Writer::new();
    other.write_u128(0x0102);
    assert_eq!(&other.buf[..3], &[2, 1, 0]);
    assert_eq!(other.buf.len(), 16);
}

#[test]
fn patch_u32_overwrites_four_bytes() {
    let mut writer = Writer::new();
    writer.write_u128(0);
    writer.patch_u32(0, 0x40);
    assert_eq!(&writer.buf[..4], &[0x40, 0, 0, 0]);
    assert_eq!(writer.buf.len(), 16);
    writer.patch_u32(12, 0x01020304);
    assert_eq!(&writer.buf[12..], &[4, 3, 2, 1]);
}

#[test]
fn low_u32_keeps_the_low_bits() {
    assert_eq!(low_u32(0x1234), 0x1234);
    assert_eq!(low_u32(usize::MAX), u32::MAX);
}

#[test]
fn aligning_twice_is_aligning_once() {
    let mut once = Writer::new();
    write_u8_into(&mut once, &[1, 2, 3]);
    align(&mut once, 0x10);
    let first = once.buf.clone();
    align(&mut once, 0x10);
    assert_eq!(once.buf, first);
}

#[test]
fn align_pads_from_the_position_over_what_is_there() {
    let mut writer = Writer::new();
    write_u8_into(&mut writer, &[9, 9, 9, 9, 9]);
    writer.set_position(1);
    align(&mut writer, 4);
    assert_eq!(writer.buf, vec![9, 0, 0, 0, 9]);
    assert_eq!(writer.position(), 4);
}

#[test]
fn writing_inside_the_buffer_overwrites_and_extends() {
    let mut writer = Writer::new();
    write_u8_into(&mut writer, &[9, 9, 9]);
    writer.set_position(2);
    write_u8_into(&mut writer, &[1, 2, 3]);
    assert_eq!(writer.buf, vec![9, 9, 1, 2, 3]);
    assert_eq!(writer.position(), 5);
    writer.set_position(0);
    write_u16_into(&mut writer, &[0x0807]);
    assert_eq!(writer.buf, vec![7, 8, 1, 2, 3]);
    assert_eq!(writer.position(), 2);
}

#[test]
fn writing_back_what_was_read_changes_nothing() {
    let mut writer = Writer::new();
    write_u8_into(&mut writer, &[1, 2, 3, 4, 5]);
    let mut reader = Reader::new(writer.buf.clone());
    reader.seek(1);
    let read = read_u8_array(&mut reader, 3).unwrap();
    writer.set_position(1);
    write_u8_into(&mut writer, &read);
    assert_eq!(writer.buf, vec![1, 2, 3, 4, 5]);
    assert_eq!(writer.position(), 4);
}

#[test]
fn two_writes_are_one_write_of_both() {
    let mut a = Writer::new();
    write_u8_into(&mut a, &[0; 6]);
    let mut b = Writer::new();
    write_u8_into(&mut b, &[0; 6]);
    a.set_position(1);
    b.set_position(1);
    write_u8_into(&mut a, &[1, 2]);
    write_u8_into(&mut a, &[3, 4, 5, 6, 7]);
    write_u8_into(&mut b, &[1, 2, 3, 4, 5, 6, 7]);
    assert_eq!(a.buf, b.buf);
    assert_eq!(a.position(), b.position());
}
