use sfz::check_i16;
use sfz::check_i16_between;
use sfz::check_i8;
use sfz::check_i8_between;
use sfz::check_u16;
use sfz::check_u16_between;
use sfz::check_u32;
use sfz::check_u32_between;
use sfz::check_u8;
use sfz::check_u8_between;

#[test]
fn u8_plain() {
    assert_eq!(check_u8("64"), 64);
    assert_eq!(check_u8("0"), 0);
    assert_eq!(check_u8("255"), 255);
    assert_eq!(check_u8("+5"), 5);
}

#[test]
fn u8_between_in_range_is_exact() {
    assert_eq!(check_u8_between("64", 0, 127), Some(64));
    assert_eq!(check_u8_between("0", 0, 127), Some(0));
    assert_eq!(check_u8_between("127", 0, 127), Some(127));
}

#[test]
fn u8_between_out_of_range_is_absent() {
    assert_eq!(check_u8_between("128", 0, 127), None);
    assert_eq!(check_u8_between("200", 0, 127), None);
    assert_eq!(check_u8_between("3", 4, 10), None);
}

#[test]
fn i8_plain() {
    assert_eq!(check_i8("-5"), -5);
    assert_eq!(check_i8("-128"), -128);
    assert_eq!(check_i8("127"), 127);
    assert_eq!(check_i8("+7"), 7);
}

#[test]
fn i8_between() {
    assert_eq!(check_i8_between("-100", -127, 127), Some(-100));
    assert_eq!(check_i8_between("-128", -127, 127), None);
    assert_eq!(check_i8_between("127", -127, 127), Some(127));
}

#[test]
fn i16_plain_and_between() {
    assert_eq!(check_i16("32767"), 32767);
    assert_eq!(check_i16("-32768"), -32768);
    assert_eq!(check_i16_between("-100", -100, 100), Some(-100));
    assert_eq!(check_i16_between("101", -100, 100), None);
    assert_eq!(check_i16_between("-101", -100, 100), None);
}

#[test]
fn u16_plain_and_between() {
    assert_eq!(check_u16("65535"), 65535);
    assert_eq!(check_u16_between("1000", 0, 999), None);
    assert_eq!(check_u16_between("999", 0, 999), Some(999));
}

#[test]
fn u32_plain_and_between() {
    assert_eq!(check_u32("4294967295"), 4294967295);
    assert_eq!(check_u32("0"), 0);
    assert_eq!(check_u32_between("5", 1, 10), Some(5));
    assert_eq!(check_u32_between("11", 1, 10), None);
}
