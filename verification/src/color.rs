//! Colours, and their `#RRGGBB` notation.

use crate::error::ThumbnailError;
use vstd::prelude::*;
use vstd::string::is_ascii_spec_bytes;

verus! {

/// Three 8-bit channel intensities, without alpha.
#[derive(Clone, Copy, Debug, PartialEq, Eq, Structural)]
pub struct Color {
    pub r: u8,
    pub g: u8,
    pub b: u8,
}

/// Whether `c` is one of `0-9`, `a-f`, `A-F`.
pub open spec fn is_hex_digit(c: char) -> bool {
    ('0' <= c <= '9') || ('a' <= c <= 'f') || ('A' <= c <= 'F')
}

/// The value, 0 to 15, of a hexadecimal digit.
pub open spec fn hex_digit_value(c: char) -> int {
    if '0' <= c <= '9' {
        c as int - '0' as int
    } else if 'a' <= c <= 'f' {
        c as int - 'a' as int + 10
    } else {
        c as int - 'A' as int + 10
    }
}

/// Whether `s` is a colour in `#RRGGBB` notation: a `#` and exactly six
/// hexadecimal digits.
pub open spec fn is_hex_color(s: Seq<char>) -> bool {
    &&& s.len() == 7
    &&& s[0] == '#'
    &&& forall|i: int| 1 <= i < 7 ==> is_hex_digit(#[trigger] s[i])
}

/// The channel that two hexadecimal digits spell, high digit first.
pub open spec fn hex_pair_value(high: char, low: char) -> int {
    16 * hex_digit_value(high) + hex_digit_value(low)
}

/// The colour that a string in `#RRGGBB` notation denotes.
pub open spec fn hex_color_value(s: Seq<char>) -> Color {
    Color {
        r: hex_pair_value(s[1], s[2]) as u8,
        g: hex_pair_value(s[3], s[4]) as u8,
        b: hex_pair_value(s[5], s[6]) as u8,
    }
}

/// The value of one ASCII byte read as a hexadecimal digit, if it is one.
fn hex_digit(byte: u8) -> (r: Option<u8>)
    requires
        byte < 128,
    ensures
        r is Some <==> is_hex_digit(byte as char),
        r matches Some(v) ==> v == hex_digit_value(byte as char) && v < 16,
{
    if 0x30 <= byte && byte <= 0x39 {
        Some(byte - 0x30)
    } else if 0x61 <= byte && byte <= 0x66 {
        Some(byte - 0x61 + 10)
    } else if 0x41 <= byte && byte <= 0x46 {
        Some(byte - 0x41 + 10)
    } else {
        None
    }
}

/// The channel spelled by the two ASCII bytes `high` and `low`, if both are
/// hexadecimal digits.
fn hex_pair(high: u8, low: u8) -> (r: Option<u8>)
    requires
        high < 128,
        low < 128,
    ensures
        r is Some <==> is_hex_digit(high as char) && is_hex_digit(low as char),
        r matches Some(v) ==> v == hex_pair_value(high as char, low as char),
{
    match (hex_digit(high), hex_digit(low)) {
        (Some(h), Some(l)) => Some(16 * h + l),
        _ => None,
    }
}

/// Reads a colour in `#RRGGBB` notation. Both cases of the digits `a` to `f`
/// are read; anything else (another length, a missing `#`, a character that
/// is no hexadecimal digit) is refused.
pub fn parse_hex_color(hex_color: &str) -> (r: Result<Color, ThumbnailError>)
    ensures
        is_hex_color(hex_color@) ==> r == Ok::<Color, ThumbnailError>(hex_color_value(hex_color@)),
        !is_hex_color(hex_color@) ==> r == Err::<Color, ThumbnailError>(
            ThumbnailError::InvalidConfig,
        ),
{
    if !hex_color.is_ascii() {
        assert(!is_hex_color(hex_color@)) by {
            if is_hex_color(hex_color@) {
                assert forall|i: int| 0 <= i < hex_color@.len() implies '\0' <= #[trigger] hex_color@[i]
                    <= '\u{7f}' by {
                    if i >= 1 {
                        assert(is_hex_digit(hex_color@[i]));
                    }
                }
            }
        }
        return Err(ThumbnailError::InvalidConfig);
    }
    let bytes = hex_color.as_bytes();
    proof {
        is_ascii_spec_bytes(hex_color);
    }
    if bytes.len() != 7 {
        return Err(ThumbnailError::InvalidConfig);
    }
    assert(forall|i: int| 0 <= i < 7 ==> bytes@[i] == hex_color@[i] as u8 && bytes@[i] < 128);
    assert(forall|i: int| 0 <= i < 7 ==> bytes@[i] as char == #[trigger] hex_color@[i]);
    if bytes[0] != 0x23 {
        return Err(ThumbnailError::InvalidConfig);
    }
    let red = hex_pair(bytes[1], bytes[2]);
    let green = hex_pair(bytes[3], bytes[4]);
    let blue = hex_pair(bytes[5], bytes[6]);
    match (red, green, blue) {
        (Some(r), Some(g), Some(b)) => {
            assert(is_hex_color(hex_color@));
            Ok(Color { r, g, b })
        },
        _ => {
            assert(!is_hex_color(hex_color@)) by {
                if is_hex_color(hex_color@) {
                    assert(is_hex_digit(hex_color@[1]) && is_hex_digit(hex_color@[2]));
                    assert(is_hex_digit(hex_color@[3]) && is_hex_digit(hex_color@[4]));
                    assert(is_hex_digit(hex_color@[5]) && is_hex_digit(hex_color@[6]));
                }
            }
            Err(ThumbnailError::InvalidConfig)
        },
    }
}

} // verus!
