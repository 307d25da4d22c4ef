use autodirector_fix::bytes::{push_le_u32, push_le_u64, read_u16, read_u32};

#[test]
fn numbers_are_read_with_the_low_byte_first() {
    let data = [0x01, 0x02, 0x03, 0x04, 0xff];
    assert_eq!(read_u16(&data, 0), Some(0x0201));
    assert_eq!(read_u16(&data, 3), Some(0xff04));
    assert_eq!(read_u32(&data, 0), Some(0x0403_0201));
    assert_eq!(read_u32(&data, 1), Some(0xff04_0302));
}

#[test]
fn numbers_beyond_the_end_are_not_read() {
    let data = [0x01, 0x02, 0x03, 0x04];
    assert_eq!(read_u16(&data, 3), None);
    assert_eq!(read_u32(&data, 1), None);
    assert_eq!(read_u16(&data, usize::MAX), None);
    assert_eq!(read_u32(&data, usize::MAX - 1), None);
    assert_eq!(read_u16(&[], 0), None);
}

#[test]
fn written_numbers_are_read_back() {
    for value in [0u32, 1, 0xff, 0x100, 0x1234_5678, u32::MAX] {
        let mut out = vec![0xcc];
        push_le_u32(&mut out, value);
        assert_eq!(out.len(), 5);
        assert_eq!(read_u32(&out, 1), Some(value));
        assert_eq!(&out[1..], &value.to_le_bytes());
    }
    for value in [0u64, 1, 0x1122_3344_5566_7788, u64::MAX] {
        let mut out = Vec::new();
        push_le_u64(&mut out, value);
        assert_eq!(out, value.to_le_bytes());
    }
}
