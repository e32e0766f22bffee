//! Decoding of raw key-down messages into canonical scan codes, plus the
//! small word-extraction and scaling helpers the overlay uses.

use vstd::prelude::*;

use crate::keys::ScanCode;

verus! {

/// The repeat bit of a key-down message: set when the key was already down,
/// so the message is an autorepeat.
pub open spec fn is_autorepeat(flags: i64) -> bool {
    (flags >> 30) & 1 == 1
}

/// The 8-bit hardware scan code field of a key-down message.
pub open spec fn raw_scan_code(flags: i64) -> i64 {
    (flags >> 16) & 0xFF
}

/// The extended-key bit of a key-down message: set for right-hand and
/// numeric-keypad variants that share a scan code with another key.
pub open spec fn is_extended(flags: i64) -> bool {
    (flags >> 24) & 1 == 1
}

/// Outcome of decoding one key-down message.
#[derive(Clone, Copy, Debug, PartialEq, Eq, Structural)]
pub enum KeyPress {
    /// An autorepeat of a key that is already down; it must not touch the
    /// keychain.
    Ignored,
    /// A decodable physical key, as a canonical scan code.
    Pressed(ScanCode),
    /// The driver reported no scan code (media keys do this); the held key
    /// code must be put to the platform's key-mapping query, and its answer
    /// handed to `decode_mapped`.
    NeedsMapping(u32),
}

/// Decodes the two packed parameters of a key-down message: `key_code` is
/// the virtual-key parameter, `flags` the bitfield with the repeat, scan
/// code and extended-key fields. Autorepeats are ignored; a present scan
/// code is extended with `0x100` when the extended-key bit is set; a zero
/// scan code defers to the platform mapping of the key code.
pub fn determine_key_pressed(key_code: usize, flags: isize) -> (r: KeyPress)
    ensures
        is_autorepeat(flags as i64) <==> r is Ignored,
        !is_autorepeat(flags as i64) && raw_scan_code(flags as i64) == 0 ==> r
            == KeyPress::NeedsMapping(key_code as u32),
        !is_autorepeat(flags as i64) && raw_scan_code(flags as i64) != 0 && is_extended(
            flags as i64,
        ) ==> r == KeyPress::Pressed(ScanCode((raw_scan_code(flags as i64) | 0x100) as i32)),
        !is_autorepeat(flags as i64) && raw_scan_code(flags as i64) != 0 && !is_extended(
            flags as i64,
        ) ==> r == KeyPress::Pressed(ScanCode(raw_scan_code(flags as i64) as i32)),
        r matches KeyPress::Pressed(sc) ==> 1 <= sc.0 <= 0x1FF,
{
    let bits: i64 = flags as i64;
    proof {
        assert(((bits >> 30) & 1 != 0) <==> ((bits >> 30) & 1 == 1)) by (bit_vector);
        assert(((bits >> 24) & 1 != 0) <==> ((bits >> 24) & 1 == 1)) by (bit_vector);
    }
    if (bits >> 30) & 1 != 0 {
        return KeyPress::Ignored;
    }
    let raw: i64 = (bits >> 16) & 0xFF;
    if raw == 0 {
        #[verifier::truncate]
        let vk = key_code as u32;
        return KeyPress::NeedsMapping(vk);
    }
    proof {
        assert(0 < ((bits >> 16) & 0xFF) < 0x100 ==> 0x100 <= (((bits >> 16) & 0xFF) | 0x100)
            < 0x200) by (bit_vector);
        assert(0 <= ((bits >> 16) & 0xFF) < 0x100) by (bit_vector);
    }
    if (bits >> 24) & 1 != 0 {
        KeyPress::Pressed(ScanCode((raw | 0x100) as i32))
    } else {
        KeyPress::Pressed(ScanCode(raw as i32))
    }
}

/// Finishes decoding a key that carried no scan code, from the answer of
/// the platform's key-mapping query: zero means the key has no decodable
/// physical identity, anything else is the scan code itself.
pub fn decode_mapped(mapped: u32) -> (r: Option<ScanCode>)
    ensures
        mapped == 0 <==> r is None,
        mapped != 0 ==> r == Some(ScanCode(mapped as i32)),
{
    #[verifier::truncate]
    let m = mapped as i32;
    proof {
        assert(mapped as i32 == 0 <==> mapped == 0) by (bit_vector);
    }
    if m == 0 {
        None
    } else {
        Some(ScanCode(m))
    }
}

/// Division rounding toward zero, as the machine's signed division does.
pub open spec fn trunc_div(n: int, d: int) -> int {
    if n >= 0 {
        n / d
    } else {
        -((-n) / d)
    }
}

/// Scales `a` by the ratio `b / c`, rounded by adding half the divisor
/// before dividing; used to turn point sizes into pixel sizes.
pub fn mul_div_round(a: i32, b: i32, c: i32) -> (r: i32)
    requires
        c != 0,
    ensures
        r == trunc_div(a * b + trunc_div(c as int, 2), c as int) as i32,
        i32::MIN <= trunc_div(a * b + trunc_div(c as int, 2), c as int) <= i32::MAX ==> r
            == trunc_div(a * b + trunc_div(c as int, 2), c as int),
{
    proof {
        assert((a as i64) * (b as i64) == (a as int) * (b as int) && -0x4000_0000_0000_0000 <= (
        a as i64) * (b as i64) <= 0x4000_0000_0000_0000) by (nonlinear_arith)
            requires
                -0x8000_0000 <= a <= 0x7FFF_FFFF,
                -0x8000_0000 <= b <= 0x7FFF_FFFF,
        ;
        if c >= 0 {
            lemma_div_magnitude(c as int, 2);
        } else {
            lemma_div_magnitude(-(c as int), 2);
        }
    }
    let half: i64 = (c as i64) / 2;
    let n: i64 = a as i64 * b as i64 + half;
    proof {
        assert(half == trunc_div(c as int, 2));
        if n >= 0 {
            lemma_div_magnitude(n as int, c as int);
        } else {
            lemma_div_magnitude(-(n as int), c as int);
        }
    }
    let q: i64 = n / (c as i64);
    proof {
        assert(q == trunc_div(n as int, c as int));
    }
    #[verifier::truncate]
    let r = q as i32;
    r
}

/// Euclidean division never grows the magnitude of a non-negative dividend.
proof fn lemma_div_magnitude(n: int, d: int)
    requires
        n >= 0,
        d != 0,
    ensures
        -n <= n / d <= n,
{
    assert(-n <= n / d <= n) by (nonlinear_arith)
        requires
            n >= 0,
            d != 0,
    ;
}

/// The low 16 bits of a packed message parameter, as a non-negative value.
pub fn loword(value: isize) -> (r: i32)
    ensures
        r == (value as i64) & 0xFFFF,
        0 <= r <= 0xFFFF,
{
    let bits: i64 = value as i64;
    proof {
        assert(0 <= bits & 0xFFFF <= 0xFFFF) by (bit_vector);
    }
    (bits & 0xFFFF) as i32
}

/// The next 16 bits of a packed message parameter, as a non-negative value.
pub fn hiword(value: isize) -> (r: i32)
    ensures
        r == (value as i64 >> 16) & 0xFFFF,
        0 <= r <= 0xFFFF,
{
    let bits: i64 = value as i64;
    proof {
        assert(0 <= (bits >> 16) & 0xFFFF <= 0xFFFF) by (bit_vector);
    }
    ((bits >> 16) & 0xFFFF) as i32
}

} // verus!
