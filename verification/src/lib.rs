//! A model of visual themes: colours, colour scales, named UI colours,
//! theme variants with their overrides, and the registry of theme families.

pub mod color;
pub mod color_scale;
pub mod encoding;
pub mod error;
pub mod name_map;
pub mod names;
pub mod registry;
pub mod theme;
pub mod ui_color;
pub mod variant;

pub use color::{black, hsla, red, white, Channels, Hsla, CHANNEL_MAX};
pub use color_scale::{ColorScale, ColorScaleName, ColorScaleSet, ColorScales};
pub use encoding::{hsla_to_zed_hsla, Encoded, NumberDocument, StandardHsla, ZedHsla};
pub use error::{BoundsError, Channel, NotFoundError, ParseError, ThemeError};
pub use name_map::NameMap;
pub use names::{name_order, NameOrder};
pub use registry::{ThemeFamily, ThemeRegistry};
pub use theme::{Appearance, ColorType, Theme, ThemeColor, ThemeColorView};
pub use ui_color::{SystemColors, UIColor, UIColors};
pub use variant::{ColorOverrides, OverrideDocument, ThemeDocument, ThemeId, ThemeVariant};
