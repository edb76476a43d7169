use vstd::prelude::*;

verus! {

/// The decimal-point bit of a segment mask. Lighting it on every cell is the
/// display's overflow indicator.
pub const DECIMAL_POINT: u8 = 0x80;

/// The segment mask a character lights, one bit per segment, bit 7 being the
/// decimal point. The mapping is total: characters the seven-segment font
/// cannot draw map to a blank cell (mask 0).
pub open spec fn char_mask(c: char) -> u8 {
    if c == '0' {
        0x3f
    } else if c == '1' {
        0x06
    } else if c == '2' {
        0x5b
    } else if c == '3' {
        0x4f
    } else if c == '4' {
        0x66
    } else if c == '5' {
        0x6d
    } else if c == '6' {
        0x7d
    } else if c == '7' {
        0x07
    } else if c == '8' {
        0x7f
    } else if c == '9' {
        0x6f
    } else if c == 'A' {
        0x77
    } else if c == 'B' {
        0x7c
    } else if c == 'C' {
        0x39
    } else if c == 'D' {
        0x5e
    } else if c == 'E' {
        0x79
    } else if c == 'F' {
        0x71
    } else if c == 'G' {
        0x3d
    } else if c == 'H' {
        0x76
    } else if c == 'I' {
        0x06
    } else if c == 'J' {
        0x1e
    } else if c == 'L' {
        0x38
    } else if c == 'N' {
        0x54
    } else if c == 'O' {
        0x3f
    } else if c == 'P' {
        0x73
    } else if c == 'R' {
        0x50
    } else if c == 'S' {
        0x6d
    } else if c == 'T' {
        0x78
    } else if c == 'U' {
        0x3e
    } else if c == 'Y' {
        0x6e
    } else if c == '-' {
        0x40
    } else if c == '_' {
        0x08
    } else {
        0x00
    }
}

/// The segment mask of one decimal digit; values ten and above, which no
/// caller produces, map to a blank cell.
pub open spec fn digit_mask(d: nat) -> u8 {
    if d == 0 {
        0x3f
    } else if d == 1 {
        0x06
    } else if d == 2 {
        0x5b
    } else if d == 3 {
        0x4f
    } else if d == 4 {
        0x66
    } else if d == 5 {
        0x6d
    } else if d == 6 {
        0x7d
    } else if d == 7 {
        0x07
    } else if d == 8 {
        0x7f
    } else if d == 9 {
        0x6f
    } else {
        0x00
    }
}

/// Looks a character up in the seven-segment font.
pub fn mask_for_char(c: char) -> (r: u8)
    ensures
        r == char_mask(c),
{
    match c {
        '0' => 0x3f,
        '1' => 0x06,
        '2' => 0x5b,
        '3' => 0x4f,
        '4' => 0x66,
        '5' => 0x6d,
        '6' => 0x7d,
        '7' => 0x07,
        '8' => 0x7f,
        '9' => 0x6f,
        'A' => 0x77,
        'B' => 0x7c,
        'C' => 0x39,
        'D' => 0x5e,
        'E' => 0x79,
        'F' => 0x71,
        'G' => 0x3d,
        'H' => 0x76,
        'I' => 0x06,
        'J' => 0x1e,
        'L' => 0x38,
        'N' => 0x54,
        'O' => 0x3f,
        'P' => 0x73,
        'R' => 0x50,
        'S' => 0x6d,
        'T' => 0x78,
        'U' => 0x3e,
        'Y' => 0x6e,
        '-' => 0x40,
        '_' => 0x08,
        _ => 0x00,
    }
}

/// Looks a decimal digit up in the seven-segment font.
pub fn mask_for_digit(d: u16) -> (r: u8)
    requires
        d < 10,
    ensures
        r == digit_mask(d as nat),
{
    match d {
        0 => 0x3f,
        1 => 0x06,
        2 => 0x5b,
        3 => 0x4f,
        4 => 0x66,
        5 => 0x6d,
        6 => 0x7d,
        7 => 0x07,
        8 => 0x7f,
        _ => 0x6f,
    }
}

/// Every digit's segment mask is nonzero, so a rendered digit is never a
/// blank cell.
pub proof fn lemma_digit_mask_nonzero(d: nat)
    requires
        d < 10,
    ensures
        digit_mask(d) != 0,
{
}

/// Distinct digits light distinct segment patterns, so the digits shown on a
/// display can be read back unambiguously.
pub proof fn lemma_digit_mask_injective(d1: nat, d2: nat)
    requires
        d1 < 10,
        d2 < 10,
        digit_mask(d1) == digit_mask(d2),
    ensures
        d1 == d2,
{
}

} // verus!
