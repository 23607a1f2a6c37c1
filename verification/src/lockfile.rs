//! Reading a lockfile checksum as a decoration: its first six hexadecimal
//! digits name a colour and the next two pairs give two small coordinates.
//!
//! A checksum is accepted exactly when every character is a hexadecimal
//! digit and at least ten characters are present; anything else is
//! rejected, and the contract says so both ways.

use vstd::prelude::*;
use vstd::string::StrSliceExecFns;

verus! {

/// Whether `c` is a hexadecimal digit (either case).
pub open spec fn is_hex_digit(c: char) -> bool {
    ||| '0' as u32 <= c as u32 && c as u32 <= '9' as u32
    ||| 'a' as u32 <= c as u32 && c as u32 <= 'f' as u32
    ||| 'A' as u32 <= c as u32 && c as u32 <= 'F' as u32
}

/// The numeric value of a hexadecimal digit.
pub open spec fn hex_digit_val(c: char) -> int {
    if '0' as u32 <= c as u32 && c as u32 <= '9' as u32 {
        c as u32 - '0' as u32
    } else if 'a' as u32 <= c as u32 && c as u32 <= 'f' as u32 {
        c as u32 - 'a' as u32 + 10
    } else {
        c as u32 - 'A' as u32 + 10
    }
}

/// Every character of `s` is a hexadecimal digit.
pub open spec fn all_hex(s: Seq<char>) -> bool {
    forall|i: int| 0 <= i < s.len() ==> is_hex_digit(#[trigger] s[i])
}

/// The value of the two hexadecimal digits of `s` at `i` and `i + 1`.
pub open spec fn hex_pair_val(s: Seq<char>, i: int) -> int {
    16 * hex_digit_val(s[i]) + hex_digit_val(s[i + 1])
}

/// A colour in hexadecimal notation, split into its three channels.
pub struct ColorHex<'a> {
    pub red: &'a str,
    pub green: &'a str,
    pub blue: &'a str,
}

/// What a checksum decodes to: a colour and a pair of pixel coordinates.
pub struct LockfileDigest<'a> {
    pub colour: ColorHex<'a>,
    pub top: u32,
    pub left: u32,
}

impl<'a> LockfileDigest<'a> {
    /// Decodes a checksum: the first six hexadecimal digits are the colour
    /// channels, the next two pairs the `top` and `left` coordinates.  A
    /// checksum with a non-hexadecimal character, or with fewer than ten
    /// characters, is rejected.
    pub fn from_checksum(checksum: &'a str) -> (r: Option<LockfileDigest<'a>>)
        ensures
            match r {
                Some(d) => {
                    &&& all_hex(checksum@)
                    &&& checksum@.len() >= 10
                    &&& d.colour.red@ == checksum@.subrange(0, 2)
                    &&& d.colour.green@ == checksum@.subrange(2, 4)
                    &&& d.colour.blue@ == checksum@.subrange(4, 6)
                    &&& d.top == hex_pair_val(checksum@, 6)
                    &&& d.left == hex_pair_val(checksum@, 8)
                },
                None => !all_hex(checksum@) || checksum@.len() < 10,
            },
    {
        let len = checksum.unicode_len();
        let mut i: usize = 0;
        while i < len
            invariant
                i <= len,
                len == checksum@.len(),
                forall|j: int| 0 <= j < i ==> is_hex_digit(#[trigger] checksum@[j]),
            decreases len - i,
        {
            let c = checksum.get_char(i);
            if !is_hex_digit_exec(c) {
                return None;
            }
            i += 1;
        }
        if len < 10 {
            return None;
        }
        let red = checksum.substring_char(0, 2);
        let green = checksum.substring_char(2, 4);
        let blue = checksum.substring_char(4, 6);
        let top = 16 * hex_digit_value(checksum.get_char(6)) + hex_digit_value(
            checksum.get_char(7),
        );
        let left = 16 * hex_digit_value(checksum.get_char(8)) + hex_digit_value(
            checksum.get_char(9),
        );
        Some(LockfileDigest { colour: ColorHex { red, green, blue }, top, left })
    }
}

/// Whether `c` is a hexadecimal digit.
fn is_hex_digit_exec(c: char) -> (b: bool)
    ensures
        b == is_hex_digit(c),
{
    let u = c as u32;
    (48 <= u && u <= 57) || (97 <= u && u <= 102) || (65 <= u && u <= 70)
}

/// The numeric value of a hexadecimal digit.
fn hex_digit_value(c: char) -> (v: u32)
    requires
        is_hex_digit(c),
    ensures
        v == hex_digit_val(c),
        v < 16,
{
    let u = c as u32;
    if 48 <= u && u <= 57 {
        u - 48
    } else if 97 <= u && u <= 102 {
        u - 97 + 10
    } else {
        u - 65 + 10
    }
}

} // verus!
