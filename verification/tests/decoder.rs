use skproto::helpers::decode_mapped;
use skproto::helpers::determine_key_pressed;
use skproto::helpers::hiword;
use skproto::helpers::loword;
use skproto::helpers::mul_div_round;
use skproto::helpers::KeyPress;
use skproto::keys::ScanCode;

const REPEAT_BIT: isize = 1 << 30;
const EXTENDED_BIT: isize = 1 << 24;

#[test]
fn autorepeat_is_ignored_regardless_of_other_fields() {
    assert_eq!(determine_key_pressed(0x41, REPEAT_BIT), KeyPress::Ignored);
    assert_eq!(
        determine_key_pressed(0x41, REPEAT_BIT | (0x1E << 16)),
        KeyPress::Ignored
    );
    assert_eq!(
        determine_key_pressed(0x41, REPEAT_BIT | EXTENDED_BIT | (0x1E << 16)),
        KeyPress::Ignored
    );
    assert_eq!(
        determine_key_pressed(0xAD, REPEAT_BIT | 0xFFFF),
        KeyPress::Ignored
    );
}

#[test]
fn plain_scan_codes_decode_to_themselves() {
    for s in 1..=0xFEisize {
        assert_eq!(
            determine_key_pressed(0x41, s << 16),
            KeyPress::Pressed(ScanCode(s as i32))
        );
    }
}

#[test]
fn extended_scan_codes_get_the_extension_bit() {
    for s in 1..=0xFEisize {
        assert_eq!(
            determine_key_pressed(0x41, (s << 16) | EXTENDED_BIT),
            KeyPress::Pressed(ScanCode((s as i32) | 0x100))
        );
    }
}

#[test]
fn zero_scan_code_defers_to_the_platform_mapping() {
    assert_eq!(
        determine_key_pressed(0xAD, 0),
        KeyPress::NeedsMapping(0xAD)
    );
    assert_eq!(
        determine_key_pressed(0xAD, EXTENDED_BIT),
        KeyPress::NeedsMapping(0xAD)
    );
    assert_eq!(decode_mapped(0), None);
    assert_eq!(decode_mapped(0x5B), Some(ScanCode(0x5B)));
    assert_eq!(decode_mapped(0x132), Some(ScanCode(0x132)));
}

#[test]
fn the_largest_plain_code_with_extension_stays_in_range() {
    assert_eq!(
        determine_key_pressed(0x41, (0xFF << 16) | EXTENDED_BIT),
        KeyPress::Pressed(ScanCode(0x1FF))
    );
}

#[test]
fn words_are_extracted_from_packed_parameters() {
    assert_eq!(loword(0x0019_0064), 0x64);
    assert_eq!(hiword(0x0019_0064), 0x19);
    assert_eq!(loword(-1), 0xFFFF);
    assert_eq!(hiword(-1), 0xFFFF);
    assert_eq!(loword(0), 0);
    assert_eq!(hiword(0), 0);
}

#[test]
fn scaling_rounds_by_adding_half_the_divisor() {
    assert_eq!(mul_div_round(12, 96, 72), 16);
    assert_eq!(mul_div_round(12, 100, 72), 17);
    assert_eq!(mul_div_round(1, 1, 3), 0);
    assert_eq!(mul_div_round(-12, 96, 72), -15);
    assert_eq!(mul_div_round(0, 5, 7), 0);
    // An out-of-range quotient wraps, as the machine's narrowing cast does.
    assert_eq!(mul_div_round(i32::MAX, 2, 1), -2);
}
