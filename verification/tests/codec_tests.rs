use nexora::endian::{
    read_bytes, read_u16_le, read_u64_le, read_u8, write_bytes, write_u16_le, write_u64_le,
    write_u8,
};

#[test]
fn u64_write_then_read_round_trips() {
    let mut buf: Vec<u8> = Vec::new();
    write_u64_le(0x0123_4567_89AB_CDEF, &mut buf);
    assert_eq!(buf, vec![0xEF, 0xCD, 0xAB, 0x89, 0x67, 0x45, 0x23, 0x01]);
    assert_eq!(read_u64_le(&buf, 0), Some(0x0123_4567_89AB_CDEF));
}

#[test]
fn u64_read_at_offset() {
    let mut buf: Vec<u8> = vec![0xAA, 0xBB];
    write_u64_le(42, &mut buf);
    assert_eq!(read_u64_le(&buf, 2), Some(42));
}

#[test]
fn u64_read_out_of_range_is_none() {
    let buf: Vec<u8> = vec![0u8; 8];
    assert_eq!(read_u64_le(&buf, 1), None);
    assert_eq!(read_u64_le(&buf, usize::MAX - 4), None);
}

#[test]
fn u16_write_then_read_round_trips() {
    let mut buf: Vec<u8> = Vec::new();
    write_u16_le(0xBEEF, &mut buf);
    assert_eq!(buf, vec![0xEF, 0xBE]);
    assert_eq!(read_u16_le(&buf, 0), Some(0xBEEF));
    assert_eq!(read_u16_le(&buf, 1), None);
}

#[test]
fn u8_write_then_read_round_trips() {
    let mut buf: Vec<u8> = Vec::new();
    write_u8(7, &mut buf);
    write_u8(9, &mut buf);
    assert_eq!(read_u8(&buf, 0), Some(7));
    assert_eq!(read_u8(&buf, 1), Some(9));
    assert_eq!(read_u8(&buf, 2), None);
}

#[test]
fn bytes_write_then_read_round_trips() {
    let mut buf: Vec<u8> = vec![1];
    write_bytes(&[2, 3, 4], &mut buf);
    assert_eq!(buf, vec![1, 2, 3, 4]);
    assert_eq!(read_bytes(&buf, 1, 3), Some(&[2u8, 3, 4][..]));
    assert_eq!(read_bytes(&buf, 2, 3), None);
    assert_eq!(read_bytes(&buf, 4, 0), Some(&[][..]));
}
