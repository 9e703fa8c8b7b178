use ext4::checksum::crc32c;

#[test]
fn crc32c_of_the_check_string() {
    assert_eq!(crc32c(0xFFFF_FFFF, b"123456789"), 0x1CF9_6D7C);
}
