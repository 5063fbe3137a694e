use tanix::bytes::{read_be32, read_le16, read_le32, read_le64, same_bytes, starts_with};

#[test]
fn integers_are_read_in_their_byte_order() {
    let b = [0x01u8, 0x02, 0x03, 0x04, 0x05, 0x06, 0x07, 0x08, 0x09];
    assert_eq!(read_be32(&b, 0), 0x0102_0304);
    assert_eq!(read_be32(&b, 5), 0x0607_0809);
    assert_eq!(read_le16(&b, 1), 0x0302);
    assert_eq!(read_le32(&b, 1), 0x0504_0302);
    assert_eq!(read_le64(&b, 1), 0x0908_0706_0504_0302);
}

#[test]
fn bytes_are_compared_one_by_one() {
    assert!(same_bytes(b"memory", b"memory"));
    assert!(!same_bytes(b"memory", b"memorx"));
    assert!(!same_bytes(b"memory", b"memory@"));
    assert!(starts_with(b"memory@40000000", b"memory@"));
    assert!(!starts_with(b"memo", b"memory"));
    assert!(starts_with(b"x", b""));
}
