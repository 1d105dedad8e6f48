//! The decimal digits of all scripts.

use vstd::prelude::*;

verus! {

/// The code point of the zero of each script, as of Unicode 15. The nine other digits follow.
pub const DIGIT_ZEROS: [u32; 68] = [
    0x30, 0x660, 0x6f0, 0x7c0, 0x966, 0x9e6, 0xa66, 0xae6, 0xb66, 0xbe6, 0xc66, 0xce6, 0xd66, 0xde6,
    0xe50, 0xed0, 0xf20, 0x1040, 0x1090, 0x17e0, 0x1810, 0x1946, 0x19d0, 0x1a80, 0x1a90, 0x1b50,
    0x1bb0, 0x1c40, 0x1c50, 0xa620, 0xa8d0, 0xa900, 0xa9d0, 0xa9f0, 0xaa50, 0xabf0, 0xff10, 0x104a0,
    0x10d30, 0x11066, 0x110f0, 0x11136, 0x111d0, 0x112f0, 0x11450, 0x114d0, 0x11650, 0x116c0,
    0x11730, 0x118e0, 0x11950, 0x11c50, 0x11d50, 0x11da0, 0x11f50, 0x16a60, 0x16ac0, 0x16b50,
    0x1d7ce, 0x1d7d8, 0x1d7e2, 0x1d7ec, 0x1d7f6, 0x1e140, 0x1e2f0, 0x1e4f0, 0x1e950, 0x1fbf0,
];

/// The value of a decimal digit, sought from the script number `k` on.
pub open spec fn digit_value_from(c: char, k: int) -> Option<int>
    decreases 68 - k,
{
    if k < 0 || k >= 68 {
        None
    } else if DIGIT_ZEROS@[k] <= (c as u32) && (c as u32) < DIGIT_ZEROS@[k] + 10 {
        Some(c as u32 - DIGIT_ZEROS@[k])
    } else {
        digit_value_from(c, k + 1)
    }
}

/// A digit of any script as the ASCII digit of its value; any other character as it is.
pub open spec fn ascii_digit(c: char) -> char {
    match digit_value_from(c, 0) {
        Some(d) => (48 + d) as u8 as char,
        None => c,
    }
}

/// Folds a Unicode digit onto its ASCII value; leaves anything else alone.
pub fn numeric_if_needed(c: char) -> (r: char)
    ensures
        r == ascii_digit(c),
{
    let v: u32 = c as u32;
    let mut k: usize = 0;
    while k < 68
        invariant
            k <= 68,
            v == c as u32,
            digit_value_from(c, 0) == digit_value_from(c, k as int),
        decreases 68 - k,
    {
        let zero: u32 = DIGIT_ZEROS[k];
        if zero <= v && v - zero < 10 {
            let d: u32 = v - zero;
            return (48 + d) as u8 as char;
        }
        k = k + 1;
    }
    c
}

/// Every ASCII character stays as it is, the digits among them.
pub proof fn ascii_stays(c: char)
    requires
        (c as u32) < 128,
    ensures
        ascii_digit(c) == c,
{
    if 0x30 <= (c as u32) && (c as u32) < 0x3a {
        assert(digit_value_from(c, 0) == Some(c as u32 - 0x30));
        assert((48 + (c as u32 - 0x30)) as u8 as char == c);
    } else {
        beyond_ascii(c, 0);
    }
}

proof fn beyond_ascii(c: char, k: int)
    requires
        (c as u32) < 128,
        !(0x30 <= (c as u32) && (c as u32) < 0x3a),
        0 <= k <= 68,
    ensures
        digit_value_from(c, k) is None,
    decreases 68 - k,
{
    if k < 68 {
        assert(k == 0 || DIGIT_ZEROS@[k] >= 0x660) by {
            if k > 0 {
                zeros_beyond_ascii(k);
            }
        }
        beyond_ascii(c, k + 1);
    }
}

proof fn zeros_beyond_ascii(k: int)
    requires
        1 <= k < 68,
    ensures
        DIGIT_ZEROS@[k] >= 0x660,
{
    assert(forall|j: int| 1 <= j < 68 ==> #[trigger] DIGIT_ZEROS@[j] >= 0x660);
}

} // verus!
