//! Character classes used throughout the engine: Unicode whitespace,
//! hexadecimal digits, and the lowercase folding of hexadecimal digits.

use vstd::prelude::*;

verus! {

/// The characters with the Unicode `White_Space` property, as `char::is_whitespace`
/// classifies them.
pub open spec fn is_space_char(c: char) -> bool {
    let u = c as u32;
    (0x9 <= u && u <= 0xd) || u == 0x20 || u == 0x85 || u == 0xa0 || u == 0x1680 || (0x2000 <= u
        && u <= 0x200a) || u == 0x2028 || u == 0x2029 || u == 0x202f || u == 0x205f || u == 0x3000
}

/// A hexadecimal digit in either case.
pub open spec fn is_hex_char(c: char) -> bool {
    let u = c as u32;
    (0x30 <= u && u <= 0x39) || (0x61 <= u && u <= 0x66) || (0x41 <= u && u <= 0x46)
}

/// A hexadecimal digit in its normalized form: `0`-`9` or lowercase `a`-`f`.
pub open spec fn is_lower_hex_char(c: char) -> bool {
    let u = c as u32;
    (0x30 <= u && u <= 0x39) || (0x61 <= u && u <= 0x66)
}

/// Folds an uppercase hexadecimal digit to lowercase; other characters are
/// left alone.
pub open spec fn lower_hex_char(c: char) -> char {
    let u = c as u32;
    if 0x41 <= u && u <= 0x46 {
        (u + 0x20) as char
    } else {
        c
    }
}

/// Every character of `s` is a hexadecimal digit.
pub open spec fn all_hex(s: Seq<char>) -> bool {
    forall|i: int| 0 <= i < s.len() ==> is_hex_char(#[trigger] s[i])
}

/// Every character of `s` is a normalized (lowercase) hexadecimal digit.
pub open spec fn all_lower_hex(s: Seq<char>) -> bool {
    forall|i: int| 0 <= i < s.len() ==> is_lower_hex_char(#[trigger] s[i])
}

/// `s` folded hexadecimal-digit-wise to lowercase.
pub open spec fn lower_hex(s: Seq<char>) -> Seq<char> {
    s.map_values(|c: char| lower_hex_char(c))
}

pub fn is_space(c: char) -> (b: bool)
    ensures
        b == is_space_char(c),
{
    let u = c as u32;
    (0x9 <= u && u <= 0xd) || u == 0x20 || u == 0x85 || u == 0xa0 || u == 0x1680 || (0x2000 <= u
        && u <= 0x200a) || u == 0x2028 || u == 0x2029 || u == 0x202f || u == 0x205f || u == 0x3000
}

pub fn is_hex(c: char) -> (b: bool)
    ensures
        b == is_hex_char(c),
{
    let u = c as u32;
    (0x30 <= u && u <= 0x39) || (0x61 <= u && u <= 0x66) || (0x41 <= u && u <= 0x46)
}

/// Decides whether every character of a string is a hexadecimal digit.
pub fn str_all_hex(s: &str) -> (b: bool)
    ensures
        b == all_hex(s@),
{
    let n = s.unicode_len();
    let mut i: usize = 0;
    while i < n
        invariant
            0 <= i <= n,
            n == s@.len(),
            forall|j: int| 0 <= j < i ==> is_hex_char(#[trigger] s@[j]),
        decreases n - i,
    {
        if !is_hex(s.get_char(i)) {
            return false;
        }
        i += 1;
    }
    true
}

/// Decides whether every character of a string is a normalized (lowercase)
/// hexadecimal digit.
pub fn str_all_lower_hex(s: &str) -> (b: bool)
    ensures
        b == all_lower_hex(s@),
{
    let n = s.unicode_len();
    let mut i: usize = 0;
    while i < n
        invariant
            0 <= i <= n,
            n == s@.len(),
            forall|j: int| 0 <= j < i ==> is_lower_hex_char(#[trigger] s@[j]),
        decreases n - i,
    {
        if !is_lower_hex(s.get_char(i)) {
            return false;
        }
        i += 1;
    }
    true
}

pub fn is_lower_hex(c: char) -> (b: bool)
    ensures
        b == is_lower_hex_char(c),
{
    let u = c as u32;
    (0x30 <= u && u <= 0x39) || (0x61 <= u && u <= 0x66)
}

} // verus!
