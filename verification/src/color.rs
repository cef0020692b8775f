//! Colours, their hexadecimal rendering and the ways of mixing two of them.

use vstd::prelude::*;
use vstd::string::StringExecFns;
use crate::number::{number_of, parsed_number};
use crate::text::{chars_of, string_of, trim, trimmed};

verus! {

/// One whole, in the 24-bit fixed point in which fractions are given: an
/// amount `a` stands for the fraction `a / UNIT`.
pub const UNIT: u32 = 16_777_216;

/// How two colours are mixed.
#[derive(Clone, Copy, Debug, PartialEq, Eq, Structural)]
pub enum Interpolation {
    /// Each channel is taken from one of the two colours by the toss of a coin.
    Random,
    /// The first colour below one half, the second from one half on.
    Nearest,
    /// Each channel moves in a straight line from the first colour to the second.
    Linear,
    /// Reserved; mixing with it is refused.
    Cubic,
}

/// Why a colour could not be computed.
#[derive(Clone, Copy, Debug, PartialEq, Eq, Structural)]
pub enum ColorError {
    /// The interpolation asked for is not available.
    UnsupportedInterpolation,
}

/// A colour of three 8-bit channels.
#[derive(Clone, Copy, Debug, PartialEq, Eq, Structural)]
pub struct Color {
    pub r: u8,
    pub g: u8,
    pub b: u8,
}

/// For each channel, whether a random mix takes it from the second colour.
#[derive(Clone, Copy, Debug, PartialEq, Eq, Structural)]
pub struct Pick {
    pub r: bool,
    pub g: bool,
    pub b: bool,
}

/// The channel that a coin selects.
pub open spec fn picked(lhs: u8, rhs: u8, second: bool) -> u8 {
    if second {
        rhs
    } else {
        lhs
    }
}

/// The nearer end in the parameter: `lhs` below one half, else `rhs`.
pub open spec fn nearest(lhs: u8, rhs: u8, amount: u32) -> u8 {
    if 2 * amount < UNIT {
        lhs
    } else {
        rhs
    }
}

/// The point `amount / UNIT` of the way from `lhs` to `rhs`, rounded to the
/// nearest integer (halves upwards) and kept within a channel's range.
pub open spec fn linear(lhs: u8, rhs: u8, amount: u32) -> u8 {
    let rounded = (lhs * UNIT + (rhs - lhs) * amount + UNIT / 2) / (UNIT as int);
    if rounded < 0 {
        0
    } else if rounded > 255 {
        255
    } else {
        rounded as u8
    }
}

/// The sixteen hexadecimal digits, in lower case.
pub open spec fn hex_digits() -> Seq<char> {
    seq!['0', '1', '2', '3', '4', '5', '6', '7', '8', '9', 'a', 'b', 'c', 'd', 'e', 'f']
}

/// The two hexadecimal digits of a channel.
pub open spec fn hex_pair(channel: u8) -> Seq<char> {
    seq![hex_digits()[channel as int / 16], hex_digits()[channel as int % 16]]
}

/// What a colour channel token means: the decimal number in it, white space at
/// both ends aside, if there is one and it is at most 255.
pub open spec fn parsed_channel(token: Seq<char>) -> Option<u8> {
    match parsed_number(trimmed(token), 255) {
        Ok(n) => Some(n as u8),
        Err(_) => None,
    }
}

/// The message for a channel token that is no number.
pub open spec fn channel_error(token: Seq<char>) -> Seq<char> {
    "error parsing "@ + token
}

/// What three channel tokens mean: the colour, or the message for the first
/// token that is no channel.
pub open spec fn parsed_color(r: Seq<char>, g: Seq<char>, b: Seq<char>) -> Result<
    Color,
    Seq<char>,
> {
    match (parsed_channel(r), parsed_channel(g), parsed_channel(b)) {
        (Some(red), Some(green), Some(blue)) => Ok(Color { r: red, g: green, b: blue }),
        (None, _, _) => Err(channel_error(r)),
        (_, None, _) => Err(channel_error(g)),
        _ => Err(channel_error(b)),
    }
}

/// `rand::random`, asked for a `u32`: 32 bits drawn from the generator of the
/// calling thread. Nothing is claimed of the value.
#[verifier::external_body]
pub(crate) fn random_word() -> (word: u32) {
    rand::random::<u32>()
}

/// Tosses a coin for each channel: draws a word for red, green and blue in
/// turn and takes the pick that they stand for. Every pick can come out.
pub fn draw_pick() -> (pick: Pick) {
    let r: u32 = random_word();
    let g: u32 = random_word();
    let b: u32 = random_word();
    pick_from_words(r, g, b)
}

/// The pick that three drawn words stand for: a channel is taken from the
/// second colour when its word is in the upper half of the range.
pub open spec fn pick_of(r: u32, g: u32, b: u32) -> Pick {
    Pick { r: r >= 0x8000_0000, g: g >= 0x8000_0000, b: b >= 0x8000_0000 }
}

/// The pick that three drawn words stand for.
pub fn pick_from_words(r: u32, g: u32, b: u32) -> (pick: Pick)
    ensures
        pick == pick_of(r, g, b),
{
    Pick { r: r >= 0x8000_0000, g: g >= 0x8000_0000, b: b >= 0x8000_0000 }
}

/// The digit for a value below sixteen.
fn hex_digit(nibble: u8) -> (digit: char)
    requires
        nibble < 16,
    ensures
        digit == hex_digits()[nibble as int],
{
    match nibble {
        0 => '0',
        1 => '1',
        2 => '2',
        3 => '3',
        4 => '4',
        5 => '5',
        6 => '6',
        7 => '7',
        8 => '8',
        9 => '9',
        10 => 'a',
        11 => 'b',
        12 => 'c',
        13 => 'd',
        14 => 'e',
        _ => 'f',
    }
}

/// Mixes one channel in a straight line.
fn blend(lhs: u8, rhs: u8, amount: u32) -> (channel: u8)
    ensures
        channel == linear(lhs, rhs, amount),
{
    let step: i64 = rhs as i64 - lhs as i64;
    assert(-255 * 0x1_0000_0000 <= step * amount <= 255 * 0x1_0000_0000) by (nonlinear_arith)
        requires
            -255 <= step <= 255,
            0 <= amount < 0x1_0000_0000,
    ;
    let travelled: i64 = step * amount as i64;
    let scaled: i64 = lhs as i64 * 16_777_216 + travelled + (UNIT / 2) as i64;
    if scaled < 0 {
        0
    } else {
        let rounded: i64 = scaled / UNIT as i64;
        if rounded > 255 {
            255
        } else {
            rounded as u8
        }
    }
}

/// Reads one channel token.
fn parse_channel(token: &str) -> (channel: Option<u8>)
    ensures
        channel == parsed_channel(token@),
{
    let chars = chars_of(token);
    let core = trim(&chars);
    match number_of(&core, 255) {
        Ok(n) => Some(n as u8),
        Err(_) => None,
    }
}

/// Writes the message for a token that is no channel.
fn channel_failure(token: &str) -> (message: String)
    ensures
        message@ == channel_error(token@),
{
    let mut message = "error parsing ".to_owned();
    message.append(token);
    message
}

impl Color {
    /// The mix of `self` and `other` at `amount`, with `pick` deciding the
    /// channels of a random mix.
    pub open spec fn mixed(
        self,
        other: Color,
        amount: u32,
        interpolation: Interpolation,
        pick: Pick,
    ) -> Result<Color, ColorError> {
        match interpolation {
            Interpolation::Random => Ok(
                Color {
                    r: picked(self.r, other.r, pick.r),
                    g: picked(self.g, other.g, pick.g),
                    b: picked(self.b, other.b, pick.b),
                },
            ),
            Interpolation::Nearest => Ok(
                Color {
                    r: nearest(self.r, other.r, amount),
                    g: nearest(self.g, other.g, amount),
                    b: nearest(self.b, other.b, amount),
                },
            ),
            Interpolation::Linear => Ok(
                Color {
                    r: linear(self.r, other.r, amount),
                    g: linear(self.g, other.g, amount),
                    b: linear(self.b, other.b, amount),
                },
            ),
            Interpolation::Cubic => Err(ColorError::UnsupportedInterpolation),
        }
    }

    /// The colour as six hexadecimal digits, two for each channel.
    pub open spec fn hex(self) -> Seq<char> {
        hex_pair(self.r) + hex_pair(self.g) + hex_pair(self.b)
    }

    /// A colour from its three channels.
    pub fn new(r: u8, g: u8, b: u8) -> (color: Self)
        ensures
            color == (Color { r, g, b }),
    {
        Color { r, g, b }
    }

    /// Mixes `self` with `other` at `amount / UNIT` of the way. A random mix
    /// takes its channels as `pick` says and ignores the amount.
    pub fn interpolate_with(
        &self,
        other: &Color,
        amount: u32,
        interpolation: &Interpolation,
        pick: Pick,
    ) -> (color: Result<Color, ColorError>)
        ensures
            color == self.mixed(*other, amount, *interpolation, pick),
    {
        match interpolation {
            Interpolation::Random => Ok(
                Color {
                    r: if pick.r { other.r } else { self.r },
                    g: if pick.g { other.g } else { self.g },
                    b: if pick.b { other.b } else { self.b },
                },
            ),
            Interpolation::Nearest => {
                let first: bool = amount < UNIT / 2;
                let near = |lhs: u8, rhs: u8| -> (channel: u8)
                    ensures
                        channel == nearest(lhs, rhs, amount),
                    {
                        if first {
                            lhs
                        } else {
                            rhs
                        }
                    };
                Ok(self.interpolate_inner(other, near))
            },
            Interpolation::Linear => {
                let line = |lhs: u8, rhs: u8| -> (channel: u8)
                    ensures
                        channel == linear(lhs, rhs, amount),
                    {
                        blend(lhs, rhs, amount)
                    };
                Ok(self.interpolate_inner(other, line))
            },
            Interpolation::Cubic => Err(ColorError::UnsupportedInterpolation),
        }
    }

    /// Mixes `self` with `other` at `amount / UNIT` of the way. A random mix
    /// tosses a coin for each channel.
    pub fn interpolate(&self, other: &Color, amount: u32, interpolation: &Interpolation) -> (color:
        Result<Color, ColorError>)
        ensures
            exists|pick: Pick| color == self.mixed(*other, amount, *interpolation, pick),
    {
        let pick = match interpolation {
            Interpolation::Random => draw_pick(),
            _ => Pick { r: false, g: false, b: false },
        };
        self.interpolate_with(other, amount, interpolation, pick)
    }

    /// Combines the two colours channel by channel.
    pub fn interpolate_inner<F: Fn(u8, u8) -> u8>(&self, other: &Color, interp: F) -> (color: Color)
        requires
            call_requires(interp, (self.r, other.r)),
            call_requires(interp, (self.g, other.g)),
            call_requires(interp, (self.b, other.b)),
        ensures
            call_ensures(interp, (self.r, other.r), color.r),
            call_ensures(interp, (self.g, other.g), color.g),
            call_ensures(interp, (self.b, other.b), color.b),
    {
        Color {
            r: interp(self.r, other.r),
            g: interp(self.g, other.g),
            b: interp(self.b, other.b),
        }
    }

    /// Reads a colour from three decimal tokens, one for each channel.
    pub fn try_from(item: [&str; 3]) -> (color: Result<Color, String>)
        ensures
            match color {
                Ok(c) => parsed_color(item[0]@, item[1]@, item[2]@) == Ok::<Color, Seq<char>>(c),
                Err(message) => parsed_color(item[0]@, item[1]@, item[2]@) == Err::<
                    Color,
                    Seq<char>,
                >(message@),
            },
    {
        let r: u8 = match parse_channel(item[0]) {
            Some(channel) => channel,
            None => { return Err(channel_failure(item[0])); },
        };
        let g: u8 = match parse_channel(item[1]) {
            Some(channel) => channel,
            None => { return Err(channel_failure(item[1])); },
        };
        let b: u8 = match parse_channel(item[2]) {
            Some(channel) => channel,
            None => { return Err(channel_failure(item[2])); },
        };
        Ok(Color { r, g, b })
    }

    /// Renders the colour as six lower-case hexadecimal digits.
    pub fn to_string(&self) -> (text: String)
        ensures
            text@ == self.hex(),
    {
        let digits: Vec<char> = vec![
            hex_digit(self.r / 16),
            hex_digit(self.r % 16),
            hex_digit(self.g / 16),
            hex_digit(self.g % 16),
            hex_digit(self.b / 16),
            hex_digit(self.b % 16),
        ];
        assert(digits@ =~= self.hex());
        string_of(&digits)
    }
}

/// A straight-line mix at amount zero is the first colour, and at one whole
/// the second.
pub proof fn lemma_linear_ends(first: Color, second: Color, pick: Pick)
    ensures
        first.mixed(second, 0, Interpolation::Linear, pick) == Ok::<Color, ColorError>(first),
        first.mixed(second, UNIT, Interpolation::Linear, pick) == Ok::<Color, ColorError>(second),
{
}

/// A nearest mix is the first colour for every amount below one half and the
/// second for every other amount, in all three channels.
pub proof fn lemma_nearest_halves(first: Color, second: Color, amount: u32, pick: Pick)
    ensures
        2 * amount < UNIT ==> first.mixed(second, amount, Interpolation::Nearest, pick) == Ok::<
            Color,
            ColorError,
        >(first),
        2 * amount >= UNIT ==> first.mixed(second, amount, Interpolation::Nearest, pick) == Ok::<
            Color,
            ColorError,
        >(second),
{
}

} // verus!
