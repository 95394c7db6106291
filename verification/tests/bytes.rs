use longboy::bytes::{read_u32, read_u64, write_u32, write_u64};

#[test]
fn reads_lowest_byte_first() {
    let buffer = [0xff, 0x01, 0x02, 0x03, 0x04, 0x05, 0x06, 0x07, 0x08, 0xff];
    assert_eq!(read_u64(&buffer, 1), 0x0807_0605_0403_0201);
    assert_eq!(read_u32(&buffer, 1), 0x0403_0201);
    assert_eq!(read_u32(&buffer, 6), 0xff08_0706);
}

#[test]
fn reads_agree_with_the_standard_library() {
    let buffer = [0xde, 0xad, 0xbe, 0xef, 0x80, 0x00, 0x7f, 0xff];
    assert_eq!(read_u64(&buffer, 0), u64::from_le_bytes(buffer));
    assert_eq!(read_u64(&[0xff; 8], 0), u64::MAX);
    assert_eq!(read_u64(&[0; 8], 0), 0);
    assert_eq!(read_u32(&[0xff; 4], 0), u32::MAX);
}

#[test]
fn writes_touch_only_their_own_bytes() {
    let mut buffer = [0xaa; 12];
    write_u64(&mut buffer, 2, 0x0807_0605_0403_0201);
    assert_eq!(buffer, [0xaa, 0xaa, 1, 2, 3, 4, 5, 6, 7, 8, 0xaa, 0xaa]);
    let mut buffer = [0xaa; 6];
    write_u32(&mut buffer, 1, 0x0403_0201);
    assert_eq!(buffer, [0xaa, 1, 2, 3, 4, 0xaa]);
}

#[test]
fn integers_read_back() {
    for value in [0, 1, 255, 256, 0xdead_beef, u64::MAX - 1, u64::MAX] {
        let mut buffer = [0; 8];
        write_u64(&mut buffer, 0, value);
        assert_eq!(buffer, value.to_le_bytes());
        assert_eq!(read_u64(&buffer, 0), value);
    }
    for value in [0, 1, 0x1234_5678, u32::MAX] {
        let mut buffer = [0; 4];
        write_u32(&mut buffer, 0, value);
        assert_eq!(buffer, value.to_le_bytes());
        assert_eq!(read_u32(&buffer, 0), value);
    }
}
