//! Character classes and case transforms used by the cipher formats.

use vstd::prelude::*;

verus! {

/// ASCII lowercase letter.
pub open spec fn is_low(c: char) -> bool {
    97 <= c as u32 <= 122
}

/// ASCII uppercase letter.
pub open spec fn is_up(c: char) -> bool {
    65 <= c as u32 <= 90
}

/// ASCII letter.
pub open spec fn is_alpha(c: char) -> bool {
    is_low(c) || is_up(c)
}

/// The Unicode `White_Space` code points, as `char::is_whitespace`
/// recognises them.
pub open spec fn is_space(c: char) -> bool {
    ||| c as u32 == 0x20
    ||| 0x09 <= c as u32 <= 0x0D
    ||| c as u32 == 0x85
    ||| c as u32 == 0xA0
    ||| c as u32 == 0x1680
    ||| 0x2000 <= c as u32 <= 0x200A
    ||| c as u32 == 0x2028
    ||| c as u32 == 0x2029
    ||| c as u32 == 0x202F
    ||| c as u32 == 0x205F
    ||| c as u32 == 0x3000
}

/// The CJK ranges that count as Chinese: the unified ideographs, extension A
/// and the compatibility ideographs.
pub open spec fn is_chinese_char(c: char) -> bool {
    ||| 0x4E00 <= c as u32 <= 0x9FFF
    ||| 0x3400 <= c as u32 <= 0x4DBF
    ||| 0xF900 <= c as u32 <= 0xFAFF
}

/// An ASCII lowercase letter mapped to its uppercase form; any other
/// character is left alone.
pub open spec fn spec_to_upper(c: char) -> char {
    if is_low(c) {
        (c as u32 - 32) as char
    } else {
        c
    }
}

/// An ASCII uppercase letter mapped to its lowercase form; any other
/// character is left alone.
pub open spec fn spec_to_lower(c: char) -> char {
    if is_up(c) {
        (c as u32 + 32) as char
    } else {
        c
    }
}

pub fn char_is_low(c: char) -> (b: bool)
    ensures
        b == is_low(c),
{
    let u = c as u32;
    97 <= u && u <= 122
}

pub fn char_is_up(c: char) -> (b: bool)
    ensures
        b == is_up(c),
{
    let u = c as u32;
    65 <= u && u <= 90
}

pub fn char_is_alpha(c: char) -> (b: bool)
    ensures
        b == is_alpha(c),
{
    let u = c as u32;
    (97 <= u && u <= 122) || (65 <= u && u <= 90)
}

pub fn char_is_space(c: char) -> (b: bool)
    ensures
        b == is_space(c),
{
    let u = c as u32;
    u == 0x20 || (0x09 <= u && u <= 0x0D) || u == 0x85 || u == 0xA0 || u == 0x1680 || (0x2000
        <= u && u <= 0x200A) || u == 0x2028 || u == 0x2029 || u == 0x202F || u == 0x205F || u
        == 0x3000
}

/// Whether a character is a Chinese (Han) character.
pub fn is_chinese(c: char) -> (b: bool)
    ensures
        b == is_chinese_char(c),
{
    let u = c as u32;
    (0x4E00 <= u && u <= 0x9FFF) || (0x3400 <= u && u <= 0x4DBF) || (0xF900 <= u && u <= 0xFAFF)
}

pub fn to_upper_char(c: char) -> (r: char)
    ensures
        r == spec_to_upper(c),
{
    match c {
        'a' => 'A',
        'b' => 'B',
        'c' => 'C',
        'd' => 'D',
        'e' => 'E',
        'f' => 'F',
        'g' => 'G',
        'h' => 'H',
        'i' => 'I',
        'j' => 'J',
        'k' => 'K',
        'l' => 'L',
        'm' => 'M',
        'n' => 'N',
        'o' => 'O',
        'p' => 'P',
        'q' => 'Q',
        'r' => 'R',
        's' => 'S',
        't' => 'T',
        'u' => 'U',
        'v' => 'V',
        'w' => 'W',
        'x' => 'X',
        'y' => 'Y',
        'z' => 'Z',
        _ => c,
    }
}

pub fn to_lower_char(c: char) -> (r: char)
    ensures
        r == spec_to_lower(c),
{
    match c {
        'A' => 'a',
        'B' => 'b',
        'C' => 'c',
        'D' => 'd',
        'E' => 'e',
        'F' => 'f',
        'G' => 'g',
        'H' => 'h',
        'I' => 'i',
        'J' => 'j',
        'K' => 'k',
        'L' => 'l',
        'M' => 'm',
        'N' => 'n',
        'O' => 'o',
        'P' => 'p',
        'Q' => 'q',
        'R' => 'r',
        'S' => 's',
        'T' => 't',
        'U' => 'u',
        'V' => 'v',
        'W' => 'w',
        'X' => 'x',
        'Y' => 'y',
        'Z' => 'z',
        _ => c,
    }
}

/// Relies on `String::push`: appends the given character to the end of the
/// string.
#[verifier::external_body]
pub fn push_char(s: &mut String, c: char)
    ensures
        final(s)@ == old(s)@.push(c),
{
    s.push(c);
}

} // verus!
