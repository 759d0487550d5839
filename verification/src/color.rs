//! Color tokens.
//!
//! A color token is either `#RRGGBB` (six hexadecimal digits), a base-10
//! fixed index 0-255, or one of sixteen color names (eight base hues and
//! their `bright-` variants, the latter mapped to fixed indices 8-15).

use vstd::prelude::*;

use crate::text::lower;
use crate::text::str_chars;
use crate::text::to_lower;
use crate::text::chars_eq_str;

verus! {

/// The eight base terminal hues that can be written by name.
#[derive(Clone, Copy, Debug, PartialEq, Eq, Structural)]
pub enum NamedColor {
    Black,
    Red,
    Green,
    Yellow,
    Blue,
    Purple,
    Cyan,
    White,
}

/// A resolved color: a named base hue, an 8-bit fixed palette index, or a
/// 24-bit RGB triple.
#[derive(Clone, Copy, Debug, PartialEq, Eq, Structural)]
pub enum ColorValue {
    Named(NamedColor),
    Fixed(u8),
    Rgb(u8, u8, u8),
}

/// A hexadecimal digit, either case.
pub open spec fn is_hex_digit(c: char) -> bool {
    (48 <= c as u32 && c as u32 <= 57) || (97 <= c as u32 && c as u32 <= 102) || (65 <= c as u32
        && c as u32 <= 70)
}

/// The value of a hexadecimal digit (0 outside the digit ranges).
pub open spec fn hex_val(c: char) -> nat {
    if 48 <= c as u32 && c as u32 <= 57 {
        (c as u32 - 48) as nat
    } else if 97 <= c as u32 && c as u32 <= 102 {
        (c as u32 - 87) as nat
    } else if 65 <= c as u32 && c as u32 <= 70 {
        (c as u32 - 55) as nat
    } else {
        0
    }
}

/// A base-10 digit.
pub open spec fn is_digit(c: char) -> bool {
    48 <= c as u32 && c as u32 <= 57
}

/// The value of a base-10 digit (0 outside the digit range).
pub open spec fn digit_val(c: char) -> nat {
    if is_digit(c) {
        (c as u32 - 48) as nat
    } else {
        0
    }
}

/// The base-10 value of a digit string, most significant digit first.
pub open spec fn dec_val(ds: Seq<char>) -> nat
    decreases ds.len(),
{
    if ds.len() == 0 {
        0
    } else {
        dec_val(ds.drop_last()) * 10 + digit_val(ds.last())
    }
}

/// The digits of an unsigned integer literal: an optional leading `+` sign
/// is not part of them.
pub open spec fn unsigned_body(t: Seq<char>) -> Seq<char> {
    if t.len() > 0 && t[0] == '+' {
        t.drop_first()
    } else {
        t
    }
}

/// A non-empty, all-digit string.
pub open spec fn all_digits(ds: Seq<char>) -> bool {
    ds.len() > 0 && (forall|i: int| 0 <= i < ds.len() ==> is_digit(ds[i]))
}

/// Whether `t` is a base-10 unsigned integer in 0-255 (an optional leading
/// `+` sign is accepted, as is any number of leading zeros).
pub open spec fn is_dec_u8(t: Seq<char>) -> bool {
    all_digits(unsigned_body(t)) && dec_val(unsigned_body(t)) <= 255
}

/// The color denoted by an already lower-cased name, if any.  The eight
/// `bright-` names have no named variant of their own and map to the fixed
/// palette indices 8-15, in the same order as the base hues.
pub open spec fn named_lookup(l: Seq<char>) -> Option<ColorValue> {
    if l == "black"@ {
        Some(ColorValue::Named(NamedColor::Black))
    } else if l == "red"@ {
        Some(ColorValue::Named(NamedColor::Red))
    } else if l == "green"@ {
        Some(ColorValue::Named(NamedColor::Green))
    } else if l == "yellow"@ {
        Some(ColorValue::Named(NamedColor::Yellow))
    } else if l == "blue"@ {
        Some(ColorValue::Named(NamedColor::Blue))
    } else if l == "purple"@ {
        Some(ColorValue::Named(NamedColor::Purple))
    } else if l == "cyan"@ {
        Some(ColorValue::Named(NamedColor::Cyan))
    } else if l == "white"@ {
        Some(ColorValue::Named(NamedColor::White))
    } else if l == "bright-black"@ {
        Some(ColorValue::Fixed(8))
    } else if l == "bright-red"@ {
        Some(ColorValue::Fixed(9))
    } else if l == "bright-green"@ {
        Some(ColorValue::Fixed(10))
    } else if l == "bright-yellow"@ {
        Some(ColorValue::Fixed(11))
    } else if l == "bright-blue"@ {
        Some(ColorValue::Fixed(12))
    } else if l == "bright-purple"@ {
        Some(ColorValue::Fixed(13))
    } else if l == "bright-cyan"@ {
        Some(ColorValue::Fixed(14))
    } else if l == "bright-white"@ {
        Some(ColorValue::Fixed(15))
    } else {
        None
    }
}

/// The color denoted by one token, tried in this order: a `#` starts a hex
/// triple and commits to it (exactly six hex digits must follow); otherwise
/// a 0-255 integer is a fixed index; otherwise the token is matched
/// case-insensitively against the sixteen names.
pub open spec fn spec_resolve(t: Seq<char>) -> Option<ColorValue> {
    if t.len() > 0 && t[0] == '#' {
        if t.len() == 7 && is_hex_digit(t[1]) && is_hex_digit(t[2]) && is_hex_digit(t[3])
            && is_hex_digit(t[4]) && is_hex_digit(t[5]) && is_hex_digit(t[6]) {
            Some(
                ColorValue::Rgb(
                    (hex_val(t[1]) * 16 + hex_val(t[2])) as u8,
                    (hex_val(t[3]) * 16 + hex_val(t[4])) as u8,
                    (hex_val(t[5]) * 16 + hex_val(t[6])) as u8,
                ),
            )
        } else {
            None
        }
    } else if is_dec_u8(t) {
        Some(ColorValue::Fixed(dec_val(unsigned_body(t)) as u8))
    } else {
        named_lookup(lower(t))
    }
}

/// The value of one hexadecimal digit, or `None` for any other character.
fn hex_digit(c: char) -> (r: Option<u8>)
    ensures
        r == (if is_hex_digit(c) {
            Some(hex_val(c) as u8)
        } else {
            None::<u8>
        }),
        r matches Some(v) ==> v <= 15,
{
    let u = c as u32;
    if 48 <= u && u <= 57 {
        Some((u - 48) as u8)
    } else if 97 <= u && u <= 102 {
        Some((u - 87) as u8)
    } else if 65 <= u && u <= 70 {
        Some((u - 55) as u8)
    } else {
        None
    }
}

/// Parses `t` as a base-10 unsigned integer in 0-255.
fn parse_dec_u8(t: &Vec<char>) -> (r: Option<u8>)
    ensures
        r == (if is_dec_u8(t@) {
            Some(dec_val(unsigned_body(t@)) as u8)
        } else {
            None::<u8>
        }),
{
    let start: usize = if t.len() > 0 && t[0] == '+' {
        1
    } else {
        0
    };
    if t.len() == start {
        return None;
    }
    // 256 stands for "already larger than any 8-bit value": once the prefix
    // exceeds 255 no further digit can bring it back into range.
    let mut val: u32 = 0;
    let mut i: usize = start;
    while i < t.len()
        invariant
            start <= i <= t@.len(),
            start == (if t@.len() > 0 && t@[0] == '+' {
                1int
            } else {
                0int
            }),
            forall|j: int| start <= j < i ==> is_digit(t@[j]),
            val == (if dec_val(t@.subrange(start as int, i as int)) <= 255 {
                dec_val(t@.subrange(start as int, i as int))
            } else {
                256nat
            }),
        decreases t@.len() - i,
    {
        let c = t[i];
        let u = c as u32;
        if !(48 <= u && u <= 57) {
            proof {
                assert(!is_digit(t@[i as int]));
                let body = unsigned_body(t@);
                assert(body[i - start] == t@[i as int]);
                assert(!all_digits(body));
            }
            return None;
        }
        let d = u - 48;
        let next: u32 = if val > 255 {
            256
        } else if val * 10 + d > 255 {
            256
        } else {
            val * 10 + d
        };
        proof {
            let pre = t@.subrange(start as int, i as int);
            let ext = t@.subrange(start as int, i + 1);
            assert(ext.drop_last() =~= pre);
            assert(ext.last() == t@[i as int]);
        }
        val = next;
        i = i + 1;
    }
    proof {
        assert(t@.subrange(start as int, t@.len() as int) =~= unsigned_body(t@));
    }
    if val <= 255 {
        Some(val as u8)
    } else {
        None
    }
}

/// Matches an already lower-cased token against the sixteen color names.
fn named_color(l: &Vec<char>) -> (r: Option<ColorValue>)
    ensures
        r == named_lookup(l@),
{
    if chars_eq_str(l, "black") {
        Some(ColorValue::Named(NamedColor::Black))
    } else if chars_eq_str(l, "red") {
        Some(ColorValue::Named(NamedColor::Red))
    } else if chars_eq_str(l, "green") {
        Some(ColorValue::Named(NamedColor::Green))
    } else if chars_eq_str(l, "yellow") {
        Some(ColorValue::Named(NamedColor::Yellow))
    } else if chars_eq_str(l, "blue") {
        Some(ColorValue::Named(NamedColor::Blue))
    } else if chars_eq_str(l, "purple") {
        Some(ColorValue::Named(NamedColor::Purple))
    } else if chars_eq_str(l, "cyan") {
        Some(ColorValue::Named(NamedColor::Cyan))
    } else if chars_eq_str(l, "white") {
        Some(ColorValue::Named(NamedColor::White))
    } else if chars_eq_str(l, "bright-black") {
        Some(ColorValue::Fixed(8))
    } else if chars_eq_str(l, "bright-red") {
        Some(ColorValue::Fixed(9))
    } else if chars_eq_str(l, "bright-green") {
        Some(ColorValue::Fixed(10))
    } else if chars_eq_str(l, "bright-yellow") {
        Some(ColorValue::Fixed(11))
    } else if chars_eq_str(l, "bright-blue") {
        Some(ColorValue::Fixed(12))
    } else if chars_eq_str(l, "bright-purple") {
        Some(ColorValue::Fixed(13))
    } else if chars_eq_str(l, "bright-cyan") {
        Some(ColorValue::Fixed(14))
    } else if chars_eq_str(l, "bright-white") {
        Some(ColorValue::Fixed(15))
    } else {
        None
    }
}

/// Resolves one token, given as its character sequence.
pub fn resolve_chars(t: &Vec<char>) -> (r: Option<ColorValue>)
    ensures
        r == spec_resolve(t@),
{
    if t.len() > 0 && t[0] == '#' {
        if t.len() != 7 {
            return None;
        }
        let h1 = hex_digit(t[1]);
        let h2 = hex_digit(t[2]);
        let h3 = hex_digit(t[3]);
        let h4 = hex_digit(t[4]);
        let h5 = hex_digit(t[5]);
        let h6 = hex_digit(t[6]);
        match (h1, h2, h3, h4, h5, h6) {
            (Some(a), Some(b), Some(c), Some(d), Some(e), Some(f)) => Some(
                ColorValue::Rgb(a * 16 + b, c * 16 + d, e * 16 + f),
            ),
            _ => None,
        }
    } else {
        match parse_dec_u8(t) {
            Some(n) => Some(ColorValue::Fixed(n)),
            None => {
                let l = to_lower(t);
                named_color(&l)
            },
        }
    }
}

/// Parses a single token into a color value: `#RRGGBB` hex, a fixed 0-255
/// palette index, or one of the sixteen color names, tried in that order.
/// An unmatched token yields `None`, never a default color.
pub fn resolve(token: &str) -> (r: Option<ColorValue>)
    ensures
        r == spec_resolve(token@),
{
    let chars = str_chars(token);
    resolve_chars(&chars)
}

} // verus!
