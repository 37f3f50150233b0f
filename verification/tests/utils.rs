use mips_emu::utils::{checked_offset_addr, i2u, offset_addr, u2i};

#[test]
fn unsigned_to_signed() {
    assert_eq!(u2i(0), 0);
    assert_eq!(u2i(1), 1);
    assert_eq!(u2i(0x7FFF_FFFF), i32::MAX);
    assert_eq!(u2i(0x8000_0000), i32::MIN);
    assert_eq!(u2i(0xFFFF_FFFF), -1);
}

#[test]
fn signed_to_unsigned() {
    assert_eq!(i2u(0), 0);
    assert_eq!(i2u(-1), 0xFFFF_FFFF);
    assert_eq!(i2u(i32::MIN), 0x8000_0000);
    assert_eq!(i2u(i32::MAX), 0x7FFF_FFFF);
    assert_eq!(i2u(-256), 0xFFFF_FF00);
}

#[test]
fn conversions_are_inverse() {
    for x in [0u32, 1, 0x7FFF_FFFF, 0x8000_0000, 0x8000_0001, 0xFFFF_FFFF, 0x1234_5678] {
        assert_eq!(i2u(u2i(x)), x);
    }
    for v in [0i32, 1, -1, i32::MIN, i32::MAX, -123_456] {
        assert_eq!(u2i(i2u(v)), v);
    }
}

#[test]
fn offset_address() {
    assert_eq!(offset_addr(0x1000, 4), 0x1004);
    assert_eq!(offset_addr(0x1000, -4), 0x0FFC);
    assert_eq!(offset_addr(0, 0), 0);
    assert_eq!(offset_addr(0xFFFF_FFFF, 0), 0xFFFF_FFFF);
    assert_eq!(offset_addr(0xFFFF_FFFF, i32::MIN), 0x7FFF_FFFF);
    assert_eq!(offset_addr(0, i32::MAX), 0x7FFF_FFFF);
}

#[test]
fn checked_offset_address() {
    assert_eq!(checked_offset_addr(0x1000, 4), Some(0x1004));
    assert_eq!(checked_offset_addr(0x1000, -0x1000), Some(0));
    assert_eq!(checked_offset_addr(0x1000, -0x1001), None);
    assert_eq!(checked_offset_addr(0, -1), None);
    assert_eq!(checked_offset_addr(0xFFFF_FFFF, 1), None);
    assert_eq!(checked_offset_addr(0xFFFF_FFFE, 1), Some(0xFFFF_FFFF));
    assert_eq!(checked_offset_addr(0x8000_0000, i32::MAX), Some(0xFFFF_FFFF));
}
