//! The SVG values that are read out of attribute texts: colors, view
//! boxes and path data.
//!
//! The texts are parsed by the `svgtypes` crate. What it makes of a text
//! is named here and not spelled out, with one exception: the notation
//! `#rrggbb`, whose meaning is stated, so that it can be proved that the
//! case of its letters makes no difference.

use crate::text::{ascii_lower, ascii_lowered};
use core::str::FromStr;
use vstd::prelude::*;

verus! {

/// A color as its red, green and blue parts. Opacity is not kept: two
/// colors are the same color when these three parts agree.
#[derive(Debug, Clone, Copy, PartialEq, Eq, Structural)]
pub struct Color {
    pub red: u8,
    pub green: u8,
    pub blue: u8,
}

/// The `viewBox` of an SVG: the corner, width and height of the user
/// coordinate system. Each number is held as the 64 bits of its IEEE 754
/// binary representation.
#[derive(Debug, Clone, Copy, PartialEq, Eq, Structural)]
pub struct ViewBox {
    pub x: u64,
    pub y: u64,
    pub w: u64,
    pub h: u64,
}

/// The red, green and blue parts of the color that `token` spells, as
/// `svgtypes::Color::from_str` reads it: a color name, `#rgb`, `#rrggbb`,
/// `rgb(..)` and the other CSS forms; `None` where it reads no color.
/// Of the notation `#rrggbb` alone the value is stated, see `hex_color`.
pub uninterp spec fn color_of(token: Seq<char>) -> Option<(u8, u8, u8)>;

/// The four numbers that `text` spells as a view box, as
/// `svgtypes::ViewBox::from_str` reads them, each as the bits of its
/// IEEE 754 binary representation; `None` where it reads no view box.
pub uninterp spec fn view_box_of(text: Seq<char>) -> Option<(u64, u64, u64, u64)>;

/// For each segment that `svgtypes::PathParser` yields on the path data
/// `data`, whether it is a command that was parsed (`true`) or the error
/// at which parsing stopped.
pub uninterp spec fn segment_outcomes(data: Seq<char>) -> Seq<bool>;

/// The characters `0` to `9`, `a` to `f` and `A` to `F`.
pub open spec fn is_hex_digit(c: char) -> bool {
    '0' <= c <= '9' || 'a' <= c <= 'f' || 'A' <= c <= 'F'
}

/// The number that a hex digit stands for, in small or capital letters.
pub open spec fn hex_value(c: char) -> int {
    if '0' <= c <= '9' {
        c as u32 - 48
    } else if 'a' <= c <= 'f' {
        c as u32 - 87
    } else if 'A' <= c <= 'F' {
        c as u32 - 55
    } else {
        0
    }
}

/// The byte that two hex digits spell, the high one first.
pub open spec fn hex_byte(high: char, low: char) -> u8 {
    (16 * hex_value(high) + hex_value(low)) as u8
}

/// A color in the notation `#rrggbb`: `#` and six hex digits.
pub open spec fn is_hex_color(token: Seq<char>) -> bool {
    &&& token.len() == 7
    &&& token[0] == '#'
    &&& forall|i: int| 1 <= i < 7 ==> is_hex_digit(#[trigger] token[i])
}

/// The color that the notation `#rrggbb` stands for.
pub open spec fn hex_color(token: Seq<char>) -> Color {
    Color {
        red: hex_byte(token[1], token[2]),
        green: hex_byte(token[3], token[4]),
        blue: hex_byte(token[5], token[6]),
    }
}

/// The color that a token spells: for `#` and six hex digits the color
/// with those three bytes, and for every other token what
/// `svgtypes::Color::from_str` reads.
pub open spec fn spelled_color(token: Seq<char>) -> Option<Color> {
    if is_hex_color(token) {
        Some(hex_color(token))
    } else {
        match color_of(token) {
            Some((red, green, blue)) => Some(Color { red, green, blue }),
            None => None,
        }
    }
}

/// The view box that a text spells.
pub open spec fn spelled_view_box(text: Seq<char>) -> Option<ViewBox> {
    match view_box_of(text) {
        Some((x, y, w, h)) => Some(ViewBox { x, y, w, h }),
        None => None,
    }
}

/// Calls `svgtypes::Color::from_str` and keeps the red, green and blue
/// parts of the color it read; `None` for its error. The contract gives
/// the answer its name, and claims one thing more of it: a token made of
/// `#` and six hex digits is read as the color whose red, green and blue
/// bytes the three pairs of digits spell, whatever the case of the
/// letters.
#[verifier::external_body]
pub(crate) fn read_color(token: &str) -> (out: Option<Color>)
    ensures
        color_of(token@) == match out {
            Some(color) => Some((color.red, color.green, color.blue)),
            None => None,
        },
        is_hex_color(token@) ==> out == Some(hex_color(token@)),
{
    match svgtypes::Color::from_str(token) {
        Ok(color) => Some(Color { red: color.red, green: color.green, blue: color.blue }),
        Err(_) => None,
    }
}

/// Calls `svgtypes::ViewBox::from_str` and keeps the bits of the four
/// numbers it read; `None` for its error. The contract gives the answer
/// its name and claims nothing else of it.
#[verifier::external_body]
pub(crate) fn read_view_box(text: &str) -> (out: Option<ViewBox>)
    ensures
        view_box_of(text@) == match out {
            Some(found) => Some((found.x, found.y, found.w, found.h)),
            None => None,
        },
{
    match svgtypes::ViewBox::from_str(text) {
        Ok(found) => Some(
            ViewBox {
                x: found.x.to_bits(),
                y: found.y.to_bits(),
                w: found.w.to_bits(),
                h: found.h.to_bits(),
            },
        ),
        Err(_) => None,
    }
}

/// Runs `svgtypes::PathParser` over the path data and notes for each
/// segment it yields whether it is a command or an error. The contract
/// gives the answer its name and claims nothing else of it.
#[verifier::external_body]
pub(crate) fn read_segments(data: &str) -> (out: Vec<bool>)
    ensures
        out@ == segment_outcomes(data@),
{
    svgtypes::PathParser::from(data).map(|segment| segment.is_ok()).collect()
}

/// A hex digit stands for the same number in small and in capital
/// letters.
pub proof fn lemma_hex_value_ignores_case(first: char, second: char)
    requires
        is_hex_digit(first),
        ascii_lower(first) == ascii_lower(second),
    ensures
        is_hex_digit(second),
        hex_value(second) == hex_value(first),
{
}

/// The notation `#rrggbb` stands for the same color whatever the case of
/// its letters: a token that differs from a hex color only in the case of
/// letters is a hex color too, and spells the same color.
pub proof fn lemma_hex_color_ignores_case(first: Seq<char>, second: Seq<char>)
    requires
        is_hex_color(first),
        ascii_lowered(first) == ascii_lowered(second),
    ensures
        is_hex_color(second),
        hex_color(second) == hex_color(first),
        spelled_color(second) == spelled_color(first),
        spelled_color(first) == Some(hex_color(first)),
{
    assert(second.len() == ascii_lowered(second).len());
    assert(first.len() == ascii_lowered(first).len());
    assert forall|i: int| 0 <= i < 7 implies ascii_lower(first[i]) == ascii_lower(
        #[trigger] second[i],
    ) by {
        assert(ascii_lowered(first)[i] == ascii_lower(first[i]));
        assert(ascii_lowered(second)[i] == ascii_lower(second[i]));
    }
    assert(ascii_lower(first[0]) == ascii_lower(second[0]));
    assert(second[0] == '#');
    assert forall|i: int| 1 <= i < 7 implies is_hex_digit(#[trigger] second[i]) && hex_value(
        second[i],
    ) == hex_value(first[i]) by {
        assert(is_hex_digit(first[i]));
        assert(ascii_lower(first[i]) == ascii_lower(second[i]));
        lemma_hex_value_ignores_case(first[i], second[i]);
    }
    assert(is_hex_digit(second[1]) && hex_value(second[1]) == hex_value(first[1]));
    assert(is_hex_digit(second[2]) && hex_value(second[2]) == hex_value(first[2]));
    assert(is_hex_digit(second[3]) && hex_value(second[3]) == hex_value(first[3]));
    assert(is_hex_digit(second[4]) && hex_value(second[4]) == hex_value(first[4]));
    assert(is_hex_digit(second[5]) && hex_value(second[5]) == hex_value(first[5]));
    assert(is_hex_digit(second[6]) && hex_value(second[6]) == hex_value(first[6]));
}

} // verus!
