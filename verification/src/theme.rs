//! Themes and the colours that a theme binds.

use vstd::prelude::*;
use vstd::string::StringExecFns;
use crate::color::{Channels, Hsla, decode_hex};
use crate::error::{NotFoundError, ParseError};
use crate::names::{name_order, NameOrder};

verus! {

/// The part of the interface that a theme colour paints.
#[derive(Debug, Clone, Copy, Eq, PartialEq, Structural)]
pub enum ColorType {
    Fg,
    Bg,
    Border,
}

impl ColorType {
    /// The name of the colour type: `fg`, `bg` or `border`.
    pub open spec fn name_text(self) -> Seq<char> {
        match self {
            ColorType::Fg => "fg"@,
            ColorType::Bg => "bg"@,
            ColorType::Border => "border"@,
        }
    }

    /// The colour type that a name denotes, if any.
    pub open spec fn named(name: Seq<char>) -> Option<ColorType> {
        if name == "fg"@ {
            Some(ColorType::Fg)
        } else if name == "bg"@ {
            Some(ColorType::Bg)
        } else if name == "border"@ {
            Some(ColorType::Border)
        } else {
            None
        }
    }

    /// Each colour type is the one that its own name denotes.
    pub proof fn name_round_trip(self)
        ensures
            ColorType::named(self.name_text()) == Some(self),
    {
        reveal_strlit("fg");
        reveal_strlit("bg");
        reveal_strlit("border");
        assert("fg"@[0] != "bg"@[0]);
        assert("fg"@.len() != "border"@.len());
    }

    /// The name of the colour type.
    pub fn name(&self) -> (name: String)
        ensures
            name@ == self.name_text(),
    {
        match self {
            ColorType::Fg => String::from_str("fg"),
            ColorType::Bg => String::from_str("bg"),
            ColorType::Border => String::from_str("border"),
        }
    }

    /// The colour type of the given name. Only `fg`, `bg` and `border` name
    /// one; any other name is reported as not found.
    pub fn from_name(name: &str) -> (found: Result<ColorType, NotFoundError>)
        ensures
            found == match ColorType::named(name@) {
                Some(color) => Ok::<ColorType, NotFoundError>(color),
                None => Err::<ColorType, NotFoundError>(NotFoundError::ColorType),
            },
    {
        if name_order(name, "fg") == NameOrder::Same {
            Ok(ColorType::Fg)
        } else if name_order(name, "bg") == NameOrder::Same {
            Ok(ColorType::Bg)
        } else if name_order(name, "border") == NameOrder::Same {
            Ok(ColorType::Border)
        } else {
            Err(NotFoundError::ColorType)
        }
    }
}

/// What a theme colour holds.
pub struct ThemeColorView {
    pub color_type: ColorType,
    pub value: Hsla,
    pub documentation: Option<String>,
}

/// A colour of a theme: its type, its value and a note for the reader.
#[derive(Debug)]
pub struct ThemeColor {
    value: Hsla,
    name: String,
    documentation: Option<String>,
}

impl View for ThemeColor {
    type V = ThemeColorView;

    closed spec fn view(&self) -> ThemeColorView {
        ThemeColorView {
            color_type: ColorType::named(self.name@).unwrap(),
            value: self.value,
            documentation: self.documentation,
        }
    }
}

impl Clone for ThemeColor {
    fn clone(&self) -> (copy: ThemeColor)
        ensures
            copy@ == self@,
    {
        proof {
            use_type_invariant(self);
        }
        let documentation = match &self.documentation {
            Some(text) => Some(text.clone()),
            None => None,
        };
        ThemeColor { value: self.value, name: self.name.clone(), documentation }
    }
}

impl ThemeColor {
    #[verifier::type_invariant]
    pub closed spec fn well_formed(self) -> bool {
        ColorType::named(self.name@) is Some
    }

    /// A colour of the given type and value.
    pub fn new(color: ColorType, hsla: Hsla, documentation: Option<String>) -> (made: ThemeColor)
        ensures
            made@ == (ThemeColorView { color_type: color, value: hsla, documentation }),
    {
        proof {
            color.name_round_trip();
        }
        ThemeColor { value: hsla, name: color.name(), documentation }
    }

    /// A colour of the given type whose value is read from a hex literal.
    /// Fails exactly when the literal is malformed.
    pub fn from_hex(color: ColorType, hex: String, documentation: Option<String>) -> (made: Result<
        ThemeColor,
        ParseError,
    >)
        ensures
            match made {
                Ok(theme_color) => {
                    &&& decode_hex(hex@) == Ok::<Channels, ParseError>(theme_color@.value@)
                    &&& theme_color@.color_type == color
                    &&& theme_color@.documentation == documentation
                },
                Err(error) => decode_hex(hex@) == Err::<Channels, ParseError>(error),
            },
    {
        match Hsla::from_hex(hex.as_str()) {
            Ok(hsla) => Ok(ThemeColor::new(color, hsla, documentation)),
            Err(error) => Err(error),
        }
    }

    /// The type of the colour.
    pub fn color_type(&self) -> (color: ColorType)
        ensures
            color == self@.color_type,
    {
        proof {
            use_type_invariant(self);
        }
        match ColorType::from_name(self.name.as_str()) {
            Ok(color) => color,
            Err(_) => vstd::pervasive::unreached(),
        }
    }

    /// The name of the colour, which is the name of its type.
    pub fn name(&self) -> (name: &String)
        ensures
            name@ == self@.color_type.name_text(),
    {
        proof {
            use_type_invariant(self);
        }
        &self.name
    }

    /// The value of the colour.
    pub fn value(&self) -> (value: Hsla)
        ensures
            value == self@.value,
    {
        self.value
    }

    /// The note for the reader, if there is one.
    pub fn documentation(&self) -> (documentation: &Option<String>)
        ensures
            *documentation == self@.documentation,
    {
        &self.documentation
    }
}

/// Whether a theme is meant for light or for dark surroundings.
#[derive(Debug, Clone, Copy, Eq, PartialEq, Structural)]
pub enum Appearance {
    Light,
    Dark,
}

impl Appearance {
    /// The name of the appearance: `Light` or `Dark`.
    pub open spec fn name_text(self) -> Seq<char> {
        match self {
            Appearance::Light => "Light"@,
            Appearance::Dark => "Dark"@,
        }
    }

    /// The name of the appearance.
    pub fn name(&self) -> (name: String)
        ensures
            name@ == self.name_text(),
    {
        match self {
            Appearance::Light => String::from_str("Light"),
            Appearance::Dark => String::from_str("Dark"),
        }
    }

    /// The word that a document writes for the appearance: `light` or `dark`.
    pub open spec fn key_text(self) -> Seq<char> {
        match self {
            Appearance::Light => "light"@,
            Appearance::Dark => "dark"@,
        }
    }

    /// The appearance that a word of a document denotes, if any.
    pub open spec fn keyed(key: Seq<char>) -> Option<Appearance> {
        if key == "light"@ {
            Some(Appearance::Light)
        } else if key == "dark"@ {
            Some(Appearance::Dark)
        } else {
            None
        }
    }

    /// Each appearance is the one that its own word denotes.
    pub proof fn key_round_trip(self)
        ensures
            Appearance::keyed(self.key_text()) == Some(self),
    {
        reveal_strlit("light");
        reveal_strlit("dark");
        assert("light"@.len() != "dark"@.len());
    }

    /// The word that a document writes for the appearance.
    pub fn key(&self) -> (key: String)
        ensures
            key@ == self.key_text(),
    {
        match self {
            Appearance::Light => String::from_str("light"),
            Appearance::Dark => String::from_str("dark"),
        }
    }

    /// The appearance that a word of a document denotes. Only `light` and
    /// `dark` denote one.
    pub fn from_key(key: &str) -> (found: Result<Appearance, ParseError>)
        ensures
            found == match Appearance::keyed(key@) {
                Some(appearance) => Ok::<Appearance, ParseError>(appearance),
                None => Err::<Appearance, ParseError>(ParseError::Appearance),
            },
    {
        if name_order(key, "light") == NameOrder::Same {
            Ok(Appearance::Light)
        } else if name_order(key, "dark") == NameOrder::Same {
            Ok(Appearance::Dark)
        } else {
            Err(ParseError::Appearance)
        }
    }
}

/// A theme: a named set of colours for one appearance.
#[derive(Debug)]
pub struct Theme {
    pub name: String,
    pub appearance: Appearance,
    pub colors: Vec<ThemeColor>,
}

impl Theme {
    /// A theme of the given name, appearance and colours.
    pub fn new(name: String, appearance: Appearance, colors: Vec<ThemeColor>) -> (theme: Theme)
        ensures
            theme.name == name,
            theme.appearance == appearance,
            theme.colors == colors,
    {
        Theme { name, appearance, colors }
    }
}

} // verus!
