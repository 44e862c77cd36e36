use kernelx_fs::crc::{crc32c_update, crc16_update};
use kernelx_fs::ext4::htree_hash::{htree_normalize_hash, htree_char_value, rotl};

#[test]
fn crc32c_of_check_string_before_inversion() {
    // The standard CRC-32C check value of "123456789" is 0xE3069283 after the final inversion.
    let raw = crc32c_update(0xFFFF_FFFF, b"123456789");
    assert_eq!(raw, !0xE306_9283u32);
}

#[test]
fn crc32c_of_nothing_is_the_seed() {
    assert_eq!(crc32c_update(0x1234_5678, b""), 0x1234_5678);
}

#[test]
fn crc32c_is_incremental() {
    let whole = crc32c_update(0xFFFF_FFFF, b"hello world");
    let part = crc32c_update(0xFFFF_FFFF, b"hello ");
    assert_eq!(crc32c_update(part, b"world"), whole);
}

#[test]
fn crc16_of_check_string() {
    // CRC-16/ARC of "123456789" is 0xBB3D (initial value 0, reflected 0xA001).
    assert_eq!(crc16_update(0, b"123456789"), 0xBB3D);
}

#[test]
fn htree_normalize_clears_low_bit() {
    assert_eq!(htree_normalize_hash(0x1234_5679), 0x1234_5678);
}

#[test]
fn htree_char_value_signedness() {
    assert_eq!(htree_char_value(0x41, false), 0x41);
    assert_eq!(htree_char_value(0x80, true), 0x80);
    assert_eq!(htree_char_value(0x80, false), 0xFFFF_FF80);
}

#[test]
fn rotl_rotates() {
    assert_eq!(rotl(0x8000_0001, 1), 0x0000_0003);
    assert_eq!(rotl(0x1234_5678, 8), 0x3456_7812);
}
