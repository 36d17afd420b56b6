//! The six-color code set of the panel and its codec.
//!
//! Each color is bound to a fixed 4-bit wire code. The codes are
//! intentionally non-contiguous: code 4 is reserved by the panel and is
//! never produced nor accepted. Each color also maps to one fixed RGB
//! triplet of the panel's palette.

use vstd::prelude::*;
use crate::display::{AsRgbColor, Color, RgbColor};
use crate::nibbles::{Nibble, NibbleCode};

verus! {

/// The six colors the panel can show.
#[derive(Clone, Copy, PartialEq, Eq, Structural, Debug)]
pub enum E6Color {
    Black,
    White,
    Yellow,
    Red,
    Blue,
    Green,
}

impl NibbleCode for E6Color {
    /// The 4-bit wire code of this color.
    open spec fn code_spec(self) -> Nibble {
        match self {
            E6Color::Black => 0,
            E6Color::White => 1,
            E6Color::Yellow => 2,
            E6Color::Red => 3,
            E6Color::Blue => 5,
            E6Color::Green => 6,
        }
    }

    /// Whether `code` is one of the six legal wire codes.
    open spec fn valid_code(code: Nibble) -> bool {
        code == 0 || code == 1 || code == 2 || code == 3 || code == 5 || code == 6
    }

    /// The color a legal wire code unpacks to.
    open spec fn from_code_spec(code: Nibble) -> Self {
        match code {
            0 => E6Color::Black,
            1 => E6Color::White,
            2 => E6Color::Yellow,
            3 => E6Color::Red,
            5 => E6Color::Blue,
            _ => E6Color::Green,
        }
    }

    proof fn lemma_code_valid(self) {
    }

    proof fn lemma_pack_unpack(self) {
    }

    fn to_code(self) -> (r: Nibble) {
        self.code()
    }

    fn from_code(code: Nibble) -> (r: Self) {
        match code {
            0 => E6Color::Black,
            1 => E6Color::White,
            2 => E6Color::Yellow,
            3 => E6Color::Red,
            5 => E6Color::Blue,
            _ => E6Color::Green,
        }
    }
}

impl E6Color {
    /// The color a 4-bit wire code decodes to, if any. The reserved code 4
    /// and every code above 6 decode to nothing.
    pub open spec fn decode_spec(code: u8) -> Option<E6Color> {
        if code == 0 {
            Some(E6Color::Black)
        } else if code == 1 {
            Some(E6Color::White)
        } else if code == 2 {
            Some(E6Color::Yellow)
        } else if code == 3 {
            Some(E6Color::Red)
        } else if code == 5 {
            Some(E6Color::Blue)
        } else if code == 6 {
            Some(E6Color::Green)
        } else {
            None
        }
    }

    /// Encodes this color to its 4-bit wire code.
    pub fn code(self) -> (r: u8)
        ensures
            r == self.code_spec(),
            r < 16,
    {
        match self {
            E6Color::Black => 0,
            E6Color::White => 1,
            E6Color::Yellow => 2,
            E6Color::Red => 3,
            E6Color::Blue => 5,
            E6Color::Green => 6,
        }
    }

    /// Decodes a 4-bit wire code, rejecting the reserved code 4 and every
    /// other value outside the six legal codes.
    pub fn try_from_code(code: u8) -> (r: Option<E6Color>)
        ensures
            r == Self::decode_spec(code),
            r is Some <==> Self::valid_code(code),
    {
        match code {
            0 => Some(E6Color::Black),
            1 => Some(E6Color::White),
            2 => Some(E6Color::Yellow),
            3 => Some(E6Color::Red),
            5 => Some(E6Color::Blue),
            6 => Some(E6Color::Green),
            _ => None,
        }
    }

    /// The palette entry of this color.
    pub open spec fn palette_spec(self) -> RgbColor {
        match self {
            E6Color::Black => (0, 0, 0),
            E6Color::White => (255, 255, 255),
            E6Color::Yellow => (255, 255, 0),
            E6Color::Red => (255, 0, 0),
            E6Color::Blue => (0, 0, 255),
            E6Color::Green => (0, 255, 0),
        }
    }

    /// The color whose palette entry is exactly `rgb`, if any. There is no
    /// nearest-color approximation: a triplet off the six-entry palette maps
    /// to nothing.
    pub open spec fn from_rgb_spec(rgb: RgbColor) -> Option<E6Color> {
        if rgb == (0u8, 0u8, 0u8) {
            Some(E6Color::Black)
        } else if rgb == (255u8, 255u8, 255u8) {
            Some(E6Color::White)
        } else if rgb == (255u8, 255u8, 0u8) {
            Some(E6Color::Yellow)
        } else if rgb == (255u8, 0u8, 0u8) {
            Some(E6Color::Red)
        } else if rgb == (0u8, 0u8, 255u8) {
            Some(E6Color::Blue)
        } else if rgb == (0u8, 255u8, 0u8) {
            Some(E6Color::Green)
        } else {
            None
        }
    }

    /// Looks a triplet known to be on the palette up in it.
    pub fn from_rgb(rgb: RgbColor) -> (r: E6Color)
        requires
            Self::from_rgb_spec(rgb) is Some,
        ensures
            Some(r) == Self::from_rgb_spec(rgb),
            r.palette_spec() == rgb,
    {
        let (red, green, blue) = rgb;
        if red == 0 && green == 0 && blue == 0 {
            E6Color::Black
        } else if red == 255 && green == 255 && blue == 255 {
            E6Color::White
        } else if red == 255 && green == 255 && blue == 0 {
            E6Color::Yellow
        } else if red == 255 && green == 0 && blue == 0 {
            E6Color::Red
        } else if red == 0 && green == 0 && blue == 255 {
            E6Color::Blue
        } else {
            E6Color::Green
        }
    }

    /// Looks `rgb` up in the fixed palette, by exact match only.
    pub fn try_from_rgb(rgb: RgbColor) -> (r: Option<E6Color>)
        ensures
            r == Self::from_rgb_spec(rgb),
            r matches Some(c) ==> c.palette_spec() == rgb,
    {
        let (red, green, blue) = rgb;
        if red == 0 && green == 0 && blue == 0 {
            Some(E6Color::Black)
        } else if red == 255 && green == 255 && blue == 255 {
            Some(E6Color::White)
        } else if red == 255 && green == 255 && blue == 0 {
            Some(E6Color::Yellow)
        } else if red == 255 && green == 0 && blue == 0 {
            Some(E6Color::Red)
        } else if red == 0 && green == 0 && blue == 255 {
            Some(E6Color::Blue)
        } else if red == 0 && green == 255 && blue == 0 {
            Some(E6Color::Green)
        } else {
            None
        }
    }
}

/// Encode and decode form a bijection between the six colors and the wire
/// codes 0, 1, 2, 3, 5, 6: decoding an encoded color gives the color back
/// (through the fallible decoder and through the nibble unpacking alike),
/// encoding a decoded code gives the code back, and a code outside the six
/// (4 among them) decodes to nothing.
pub proof fn lemma_codec_bijection()
    ensures
        forall|c: E6Color| E6Color::decode_spec(c.code_spec()) == Some(c),
        forall|c: E6Color| #[trigger] E6Color::from_code_spec(c.code_spec()) == c,
        forall|code: u8|
            #[trigger] E6Color::decode_spec(code) matches Some(c) ==> c.code_spec() == code,
        forall|code: u8| E6Color::valid_code(code) <==> E6Color::decode_spec(code) is Some,
{
}

impl AsRgbColor for E6Color {
    open spec fn rgb_spec(&self) -> RgbColor {
        self.palette_spec()
    }

    fn rgb_color(&self) -> (r: RgbColor)
    {
        match self {
            E6Color::Black => (0, 0, 0),
            E6Color::White => (255, 255, 255),
            E6Color::Yellow => (255, 255, 0),
            E6Color::Red => (255, 0, 0),
            E6Color::Blue => (0, 0, 255),
            E6Color::Green => (0, 255, 0),
        }
    }
}

impl Color for E6Color {}

} // verus!
