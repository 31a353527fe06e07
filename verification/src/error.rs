//! The failures that the theme model reports to its callers.

use vstd::prelude::*;
use vstd::string::StringExecFns;

verus! {

/// One of the four channels of a colour.
#[derive(Clone, Copy, Debug, PartialEq, Eq, Structural)]
pub enum Channel {
    Hue,
    Saturation,
    Lightness,
    Alpha,
}

/// A malformed hex literal or a malformed theme document.
#[derive(Clone, Copy, Debug, PartialEq, Eq, Structural)]
pub enum ParseError {
    /// A hex literal that has neither seven nor nine characters.
    HexLength,
    /// A hex literal that does not begin with `#`.
    HexPrefix,
    /// A hex literal with a character other than a hex digit after the `#`.
    HexDigit,
    /// An appearance other than `light` and `dark`.
    Appearance,
    /// A colour of a document that is neither four whole numbers nor four
    /// fractions.
    Color,
    /// A colour in text with fewer than four fields.
    Fields,
    /// A field of a colour in text that is no whole number.
    Number,
}

/// A channel in standard units that lies outside its domain.
#[derive(Clone, Copy, Debug, PartialEq, Eq, Structural)]
pub struct BoundsError {
    pub channel: Channel,
    pub value: i64,
}

/// A name or an index that denotes nothing.
#[derive(Clone, Copy, Debug, PartialEq, Eq, Structural)]
pub enum NotFoundError {
    /// No colour type has this name.
    ColorType,
    /// Neither the variant nor the defaults bind this token.
    Token,
    /// The family holds no scale set of this name.
    ScaleSet,
    /// The family holds no variant at this index.
    Variant,
}

/// Why a document describes no theme variant.
#[derive(Clone, Copy, Debug, PartialEq, Eq, Structural)]
pub enum ThemeError {
    Parse(ParseError),
    Bounds(BoundsError),
}

impl Channel {
    /// The text that names the channel in a message.
    pub open spec fn letter(self) -> Seq<char> {
        match self {
            Channel::Hue => "H"@,
            Channel::Saturation => "S"@,
            Channel::Lightness => "L"@,
            Channel::Alpha => "A"@,
        }
    }
}

impl BoundsError {
    /// What `message` returns: the channel's letter, then ` is out of bounds`.
    pub open spec fn message_text(self) -> Seq<char> {
        self.channel.letter() + " is out of bounds"@
    }

    /// A line for the user that names the offending channel.
    pub fn message(&self) -> (text: String)
        ensures
            text@ == self.message_text(),
    {
        let letter = match self.channel {
            Channel::Hue => "H",
            Channel::Saturation => "S",
            Channel::Lightness => "L",
            Channel::Alpha => "A",
        };
        String::from_str(letter).concat(" is out of bounds")
    }
}

} // verus!
