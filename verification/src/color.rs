//! Colours in the HSLA model, held in fixed point.
//!
//! A channel is a whole number of units between 0 and `CHANNEL_MAX`, which
//! stands for the real number `units / CHANNEL_MAX` in `[0, 1]`.

use vstd::prelude::*;
use vstd::string::{StrSliceExecFns, StringExecFns};
use crate::error::ParseError;

verus! {

/// Full scale of a channel: the number of units that stands for 1.0.
///
/// It is the least common multiple of 255, 360 and 100, so that every byte of
/// a hex literal, every degree of hue and every percent is a whole number of
/// units.
pub const CHANNEL_MAX: u32 = 30600;

/// The channels of a colour as mathematical integers, in units.
pub struct Channels {
    pub h: int,
    pub s: int,
    pub l: int,
    pub a: int,
}

/// A colour: hue, saturation, lightness and alpha, each within `[0, CHANNEL_MAX]`.
#[derive(Clone, Copy, Debug, PartialEq, Eq, Structural)]
pub struct Hsla {
    h: u32,
    s: u32,
    l: u32,
    a: u32,
}

/// The channel value nearest to `x`.
pub open spec fn clamp_channel(x: int) -> int {
    if x < 0 {
        0
    } else if x > CHANNEL_MAX {
        CHANNEL_MAX as int
    } else {
        x
    }
}

impl Channels {
    /// Every channel lies within `[0, CHANNEL_MAX]`.
    pub open spec fn in_range(self) -> bool {
        &&& 0 <= self.h <= CHANNEL_MAX
        &&& 0 <= self.s <= CHANNEL_MAX
        &&& 0 <= self.l <= CHANNEL_MAX
        &&& 0 <= self.a <= CHANNEL_MAX
    }

    /// The channels nearest to the four given numbers.
    pub open spec fn clamped(h: int, s: int, l: int, a: int) -> Channels {
        Channels { h: clamp_channel(h), s: clamp_channel(s), l: clamp_channel(l), a: clamp_channel(a) }
    }
}

impl View for Hsla {
    type V = Channels;

    closed spec fn view(&self) -> Channels {
        Channels { h: self.h as int, s: self.s as int, l: self.l as int, a: self.a as int }
    }
}

impl Default for Hsla {
    /// Transparent black: every channel is 0.
    fn default() -> (color: Hsla)
        ensures
            color@ == (Channels { h: 0, s: 0, l: 0, a: 0 }),
    {
        Hsla { h: 0, s: 0, l: 0, a: 0 }
    }
}

impl Hsla {
    #[verifier::type_invariant]
    pub closed spec fn well_formed(self) -> bool {
        &&& self.h <= CHANNEL_MAX
        &&& self.s <= CHANNEL_MAX
        &&& self.l <= CHANNEL_MAX
        &&& self.a <= CHANNEL_MAX
    }

    /// A well-formed colour has its channels in range.
    pub proof fn well_formed_in_range(self)
        requires
            self.well_formed(),
        ensures
            self@.in_range(),
    {
    }

    /// Two colours with the same channels are the same colour.
    pub proof fn view_injective(self, other: Hsla)
        requires
            self@ == other@,
        ensures
            self == other,
    {
    }

    /// The hue, in units.
    pub fn h(&self) -> (units: u32)
        ensures
            units == self@.h,
            units <= CHANNEL_MAX,
    {
        proof {
            use_type_invariant(self);
        }
        self.h
    }

    /// The saturation, in units.
    pub fn s(&self) -> (units: u32)
        ensures
            units == self@.s,
            units <= CHANNEL_MAX,
    {
        proof {
            use_type_invariant(self);
        }
        self.s
    }

    /// The lightness, in units.
    pub fn l(&self) -> (units: u32)
        ensures
            units == self@.l,
            units <= CHANNEL_MAX,
    {
        proof {
            use_type_invariant(self);
        }
        self.l
    }

    /// The alpha, in units.
    pub fn a(&self) -> (units: u32)
        ensures
            units == self@.a,
            units <= CHANNEL_MAX,
    {
        proof {
            use_type_invariant(self);
        }
        self.a
    }
}

fn clamp(x: i64) -> (units: u32)
    ensures
        units == clamp_channel(x as int),
{
    if x < 0 {
        0
    } else if x > CHANNEL_MAX as i64 {
        CHANNEL_MAX
    } else {
        x as u32
    }
}

/// The colour whose channels are the four numbers, each brought into
/// `[0, CHANNEL_MAX]`. Never fails.
pub fn hsla(h: i64, s: i64, l: i64, a: i64) -> (color: Hsla)
    ensures
        color@ == Channels::clamped(h as int, s as int, l as int, a as int),
        color@.in_range(),
{
    Hsla { h: clamp(h), s: clamp(s), l: clamp(l), a: clamp(a) }
}

/// Opaque black.
pub fn black() -> (color: Hsla)
    ensures
        color@ == (Channels { h: 0, s: 0, l: 0, a: CHANNEL_MAX as int }),
{
    Hsla { h: 0, s: 0, l: 0, a: CHANNEL_MAX }
}

/// Opaque white.
pub fn white() -> (color: Hsla)
    ensures
        color@ == (Channels { h: 0, s: 0, l: CHANNEL_MAX as int, a: CHANNEL_MAX as int }),
{
    Hsla { h: 0, s: 0, l: CHANNEL_MAX, a: CHANNEL_MAX }
}

/// Opaque red: hue 0, full saturation, half lightness.
pub fn red() -> (color: Hsla)
    ensures
        color@ == (Channels { h: 0, s: CHANNEL_MAX as int, l: CHANNEL_MAX as int / 2, a: CHANNEL_MAX as int }),
{
    Hsla { h: 0, s: CHANNEL_MAX, l: CHANNEL_MAX / 2, a: CHANNEL_MAX }
}

/// The value of a hex digit of either case; `None` for any other character.
pub open spec fn hex_digit_value(c: char) -> Option<int> {
    let code = c as int;
    if '0' as int <= code <= '9' as int {
        Some(code - '0' as int)
    } else if 'A' as int <= code <= 'F' as int {
        Some(code - 'A' as int + 10)
    } else if 'a' as int <= code <= 'f' as int {
        Some(code - 'a' as int + 10)
    } else {
        None
    }
}

/// The upper-case hex digit of a value below 16.
pub open spec fn hex_digit(value: int) -> char {
    if value < 10 {
        ('0' as int + value) as char
    } else {
        ('A' as int + value - 10) as char
    }
}

/// The byte that the two hex digits at `at` and `at + 1` of `text` write.
pub open spec fn hex_pair_value(text: Seq<char>, at: int) -> int {
    16 * hex_digit_value(text[at]).unwrap() + hex_digit_value(text[at + 1]).unwrap()
}

/// The two upper-case hex digits that write a byte.
pub open spec fn hex_pair(byte: int) -> Seq<char> {
    seq![hex_digit(byte / 16), hex_digit(byte % 16)]
}

/// The channel that a byte of a hex literal denotes: the byte divided by 255.
pub open spec fn channel_of_byte(byte: int) -> int {
    byte * CHANNEL_MAX / 255
}

/// The byte that a hex literal writes for a channel: the channel times 255,
/// cut off below the point.
pub open spec fn byte_of_channel(units: int) -> int {
    units * 255 / (CHANNEL_MAX as int)
}

/// The hex literal of four bytes: `#` and eight digits in upper case.
pub open spec fn hex_literal(first: int, second: int, third: int, alpha: int) -> Seq<char> {
    seq!['#'] + hex_pair(first) + hex_pair(second) + hex_pair(third) + hex_pair(alpha)
}

/// What a hex literal denotes.
///
/// A literal is `#`, then three or four pairs of hex digits of either case.
/// Each pair writes a byte, and the byte divided by 255 is one channel: the
/// pairs fill the channels in their order, and without a fourth pair the
/// colour is opaque.
pub open spec fn decode_hex(text: Seq<char>) -> Result<Channels, ParseError> {
    if text.len() != 7 && text.len() != 9 {
        Err(ParseError::HexLength)
    } else if text[0] != '#' {
        Err(ParseError::HexPrefix)
    } else if exists|i: int| 1 <= i < text.len() && hex_digit_value(#[trigger] text[i]) is None {
        Err(ParseError::HexDigit)
    } else {
        Ok(
            Channels {
                h: channel_of_byte(hex_pair_value(text, 1)),
                s: channel_of_byte(hex_pair_value(text, 3)),
                l: channel_of_byte(hex_pair_value(text, 5)),
                a: if text.len() == 9 {
                    channel_of_byte(hex_pair_value(text, 7))
                } else {
                    CHANNEL_MAX as int
                },
            },
        )
    }
}

/// The hex literal of a colour: always with the alpha pair, in upper case.
pub open spec fn encode_hex(color: Channels) -> Seq<char> {
    hex_literal(
        byte_of_channel(color.h),
        byte_of_channel(color.s),
        byte_of_channel(color.l),
        byte_of_channel(color.a),
    )
}

fn digit_value(c: char) -> (value: Option<u8>)
    ensures
        match value {
            Some(v) => hex_digit_value(c) == Some(v as int) && v < 16,
            None => hex_digit_value(c) is None,
        },
{
    let code: u32 = c as u32;
    if 48 <= code && code <= 57 {
        Some((code - 48) as u8)
    } else if 65 <= code && code <= 70 {
        Some((code - 55) as u8)
    } else if 97 <= code && code <= 102 {
        Some((code - 87) as u8)
    } else {
        None
    }
}

fn digit_text(value: u8) -> (text: &'static str)
    requires
        value < 16,
    ensures
        text@ == seq![hex_digit(value as int)],
{
    proof {
        reveal_strlit("0");
        reveal_strlit("1");
        reveal_strlit("2");
        reveal_strlit("3");
        reveal_strlit("4");
        reveal_strlit("5");
        reveal_strlit("6");
        reveal_strlit("7");
        reveal_strlit("8");
        reveal_strlit("9");
        reveal_strlit("A");
        reveal_strlit("B");
        reveal_strlit("C");
        reveal_strlit("D");
        reveal_strlit("E");
        reveal_strlit("F");
    }
    let text = match value {
        0 => "0",
        1 => "1",
        2 => "2",
        3 => "3",
        4 => "4",
        5 => "5",
        6 => "6",
        7 => "7",
        8 => "8",
        9 => "9",
        10 => "A",
        11 => "B",
        12 => "C",
        13 => "D",
        14 => "E",
        _ => "F",
    };
    assert(text@ =~= seq![hex_digit(value as int)]);
    text
}

fn push_pair(text: &mut String, units: u32)
    requires
        units <= CHANNEL_MAX,
    ensures
        final(text)@ == old(text)@ + hex_pair(byte_of_channel(units as int)),
{
    let byte: u32 = units * 255 / CHANNEL_MAX;
    let high: u8 = (byte / 16) as u8;
    let low: u8 = (byte % 16) as u8;
    text.append(digit_text(high));
    text.append(digit_text(low));
    assert(text@ =~= old(text)@ + hex_pair(byte_of_channel(units as int)));
}

fn read_pair(hex: &str, at: usize) -> (byte: Option<u8>)
    requires
        at <= 7,
        at + 1 < hex@.len(),
    ensures
        match byte {
            Some(b) => {
                &&& hex_digit_value(hex@[at as int]) is Some
                &&& hex_digit_value(hex@[at + 1]) is Some
                &&& b == hex_pair_value(hex@, at as int)
            },
            None => hex_digit_value(hex@[at as int]) is None || hex_digit_value(hex@[at + 1]) is None,
        },
{
    let high = digit_value(hex.get_char(at));
    let low = digit_value(hex.get_char(at + 1));
    match (high, low) {
        (Some(h), Some(l)) => Some(16 * h + l),
        _ => None,
    }
}

impl Hsla {
    /// Reads a hex literal: `#` and six or eight hex digits of either case.
    /// Fails on any other length, without the leading `#`, and on a
    /// character that is no hex digit.
    pub fn from_hex(hex: &str) -> (made: Result<Hsla, ParseError>)
        ensures
            match made {
                Ok(color) => decode_hex(hex@) == Ok::<Channels, ParseError>(color@),
                Err(error) => decode_hex(hex@) == Err::<Channels, ParseError>(error),
            },
    {
        let n = hex.unicode_len();
        if n != 7 && n != 9 {
            return Err(ParseError::HexLength);
        }
        if hex.get_char(0) != '#' {
            return Err(ParseError::HexPrefix);
        }
        let first = match read_pair(hex, 1) {
            Some(byte) => byte,
            None => {
                return Err(ParseError::HexDigit);
            },
        };
        let second = match read_pair(hex, 3) {
            Some(byte) => byte,
            None => {
                return Err(ParseError::HexDigit);
            },
        };
        let third = match read_pair(hex, 5) {
            Some(byte) => byte,
            None => {
                return Err(ParseError::HexDigit);
            },
        };
        let alpha: u8 = if n == 9 {
            match read_pair(hex, 7) {
                Some(byte) => byte,
                None => {
                    return Err(ParseError::HexDigit);
                },
            }
        } else {
            255
        };
        Ok(
            Hsla {
                h: first as u32 * CHANNEL_MAX / 255,
                s: second as u32 * CHANNEL_MAX / 255,
                l: third as u32 * CHANNEL_MAX / 255,
                a: alpha as u32 * CHANNEL_MAX / 255,
            },
        )
    }

    /// Writes the colour as a hex literal of eight digits in upper case.
    /// Each channel is multiplied by 255 and cut off, not rounded, to a byte.
    pub fn to_hex(&self) -> (text: String)
        ensures
            text@ == encode_hex(self@),
    {
        proof {
            use_type_invariant(self);
            reveal_strlit("#");
        }
        let mut text = String::from_str("#");
        assert(text@ =~= seq!['#']);
        push_pair(&mut text, self.h);
        push_pair(&mut text, self.s);
        push_pair(&mut text, self.l);
        push_pair(&mut text, self.a);
        text
    }
}

/// A byte survives the way into a channel and back.
pub proof fn byte_round_trip(byte: int)
    requires
        0 <= byte <= 255,
    ensures
        0 <= channel_of_byte(byte) <= CHANNEL_MAX,
        byte_of_channel(channel_of_byte(byte)) == byte,
{
}

/// A value below 16 survives the way into a hex digit and back.
pub proof fn hex_digit_round_trip(value: int)
    requires
        0 <= value < 16,
    ensures
        hex_digit_value(hex_digit(value)) == Some(value),
{
}

/// Reading the literal of four bytes gives the channels of those bytes, and
/// writing that colour gives the literal again.
pub proof fn hex_round_trip(first: u8, second: u8, third: u8, alpha: u8)
    ensures
        decode_hex(hex_literal(first as int, second as int, third as int, alpha as int)) == Ok::<
            Channels,
            ParseError,
        >(
            Channels {
                h: channel_of_byte(first as int),
                s: channel_of_byte(second as int),
                l: channel_of_byte(third as int),
                a: channel_of_byte(alpha as int),
            },
        ),
        encode_hex(
            decode_hex(hex_literal(first as int, second as int, third as int, alpha as int)).unwrap(),
        ) == hex_literal(first as int, second as int, third as int, alpha as int),
{
    let text = hex_literal(first as int, second as int, third as int, alpha as int);
    assert(text.len() == 9);
    assert(text[0] == '#');
    hex_digit_round_trip(first as int / 16);
    hex_digit_round_trip(first as int % 16);
    hex_digit_round_trip(second as int / 16);
    hex_digit_round_trip(second as int % 16);
    hex_digit_round_trip(third as int / 16);
    hex_digit_round_trip(third as int % 16);
    hex_digit_round_trip(alpha as int / 16);
    hex_digit_round_trip(alpha as int % 16);
    assert(text[1] == hex_digit(first as int / 16));
    assert(text[2] == hex_digit(first as int % 16));
    assert(text[3] == hex_digit(second as int / 16));
    assert(text[4] == hex_digit(second as int % 16));
    assert(text[5] == hex_digit(third as int / 16));
    assert(text[6] == hex_digit(third as int % 16));
    assert(text[7] == hex_digit(alpha as int / 16));
    assert(text[8] == hex_digit(alpha as int % 16));
    assert forall|i: int| 1 <= i < text.len() implies hex_digit_value(#[trigger] text[i]) is Some by {
        assert(i == 1 || i == 2 || i == 3 || i == 4 || i == 5 || i == 6 || i == 7 || i == 8);
    }
    byte_round_trip(first as int);
    byte_round_trip(second as int);
    byte_round_trip(third as int);
    byte_round_trip(alpha as int);
}

} // verus!
