//! The binding's side of the display list's plain values.
//!
//! A foreign-function binding hands the list across as records of its own,
//! mirroring the list's types one for one, so that the wire format is
//! versioned by the binding rather than by the list. These are the mirrors
//! of the plain enums and of the colour, each converted from its counterpart
//! variant for variant; and the error a document refuses to parse with.

use vstd::prelude::*;
use vstd::std_specs::convert::{FromSpec, FromSpecImpl};

use crate::style;

verus! {

/// Why a document could not be had from the bytes given.
#[derive(Debug)]
pub enum SvgError {
    /// The parser could not read the document; `message` is its reason.
    Parse { message: String },
}

impl SvgError {
    /// The error as text: the parser's reason.
    pub fn to_string(&self) -> (text: String)
        ensures
            match self {
                SvgError::Parse { message } => text@ == message@,
            },
    {
        match self {
            SvgError::Parse { message } => message.clone(),
        }
    }
}

/// The encoding of an image's bytes.
#[derive(Clone, Copy, Debug, PartialEq, Eq, Structural)]
pub enum ImageFormat {
    Png,
    Jpeg,
    Gif,
    Webp,
}

/// An opaque sRGB colour. Opacity travels separately.
#[derive(Clone, Copy, Debug, PartialEq, Eq, Structural)]
pub struct Color {
    pub red: u8,
    pub green: u8,
    pub blue: u8,
}

/// How a path's interior is decided.
#[derive(Clone, Copy, Debug, PartialEq, Eq, Structural)]
pub enum FillRule {
    NonZero,
    EvenOdd,
}

/// `stroke-linecap`.
#[derive(Clone, Copy, Debug, PartialEq, Eq, Structural)]
pub enum LineCap {
    Butt,
    Round,
    Square,
}

/// `stroke-linejoin`. A backend without `MiterClip` falls back to `Miter`.
#[derive(Clone, Copy, Debug, PartialEq, Eq, Structural)]
pub enum LineJoin {
    Miter,
    MiterClip,
    Round,
    Bevel,
}

/// `mix-blend-mode`, the sixteen CSS compositing modes.
#[derive(Clone, Copy, Debug, PartialEq, Eq, Structural)]
pub enum BlendMode {
    Normal,
    Multiply,
    Screen,
    Overlay,
    Darken,
    Lighten,
    ColorDodge,
    ColorBurn,
    HardLight,
    SoftLight,
    Difference,
    Exclusion,
    Hue,
    Saturation,
    Color,
    Luminosity,
}

impl From<style::ImageFormat> for ImageFormat {
    fn from(value: style::ImageFormat) -> (wire: Self) {
        match value {
            style::ImageFormat::Png => ImageFormat::Png,
            style::ImageFormat::Jpeg => ImageFormat::Jpeg,
            style::ImageFormat::Gif => ImageFormat::Gif,
            style::ImageFormat::Webp => ImageFormat::Webp,
        }
    }
}

impl FromSpecImpl<style::ImageFormat> for ImageFormat {
    open spec fn obeys_from_spec() -> bool {
        true
    }

    open spec fn from_spec(value: style::ImageFormat) -> Self {
        match value {
            style::ImageFormat::Png => ImageFormat::Png,
            style::ImageFormat::Jpeg => ImageFormat::Jpeg,
            style::ImageFormat::Gif => ImageFormat::Gif,
            style::ImageFormat::Webp => ImageFormat::Webp,
        }
    }
}

impl From<style::Color> for Color {
    fn from(value: style::Color) -> (wire: Self) {
        Color { red: value.red, green: value.green, blue: value.blue }
    }
}

impl FromSpecImpl<style::Color> for Color {
    open spec fn obeys_from_spec() -> bool {
        true
    }

    open spec fn from_spec(value: style::Color) -> Self {
        Color { red: value.red, green: value.green, blue: value.blue }
    }
}

impl From<style::FillRule> for FillRule {
    fn from(value: style::FillRule) -> (wire: Self) {
        match value {
            style::FillRule::NonZero => FillRule::NonZero,
            style::FillRule::EvenOdd => FillRule::EvenOdd,
        }
    }
}

impl FromSpecImpl<style::FillRule> for FillRule {
    open spec fn obeys_from_spec() -> bool {
        true
    }

    open spec fn from_spec(value: style::FillRule) -> Self {
        match value {
            style::FillRule::NonZero => FillRule::NonZero,
            style::FillRule::EvenOdd => FillRule::EvenOdd,
        }
    }
}

impl From<style::LineCap> for LineCap {
    fn from(value: style::LineCap) -> (wire: Self) {
        match value {
            style::LineCap::Butt => LineCap::Butt,
            style::LineCap::Round => LineCap::Round,
            style::LineCap::Square => LineCap::Square,
        }
    }
}

impl FromSpecImpl<style::LineCap> for LineCap {
    open spec fn obeys_from_spec() -> bool {
        true
    }

    open spec fn from_spec(value: style::LineCap) -> Self {
        match value {
            style::LineCap::Butt => LineCap::Butt,
            style::LineCap::Round => LineCap::Round,
            style::LineCap::Square => LineCap::Square,
        }
    }
}

impl From<style::LineJoin> for LineJoin {
    fn from(value: style::LineJoin) -> (wire: Self) {
        match value {
            style::LineJoin::Miter => LineJoin::Miter,
            style::LineJoin::MiterClip => LineJoin::MiterClip,
            style::LineJoin::Round => LineJoin::Round,
            style::LineJoin::Bevel => LineJoin::Bevel,
        }
    }
}

impl FromSpecImpl<style::LineJoin> for LineJoin {
    open spec fn obeys_from_spec() -> bool {
        true
    }

    open spec fn from_spec(value: style::LineJoin) -> Self {
        match value {
            style::LineJoin::Miter => LineJoin::Miter,
            style::LineJoin::MiterClip => LineJoin::MiterClip,
            style::LineJoin::Round => LineJoin::Round,
            style::LineJoin::Bevel => LineJoin::Bevel,
        }
    }
}

impl From<style::BlendMode> for BlendMode {
    fn from(value: style::BlendMode) -> (wire: Self) {
        match value {
            style::BlendMode::Normal => BlendMode::Normal,
            style::BlendMode::Multiply => BlendMode::Multiply,
            style::BlendMode::Screen => BlendMode::Screen,
            style::BlendMode::Overlay => BlendMode::Overlay,
            style::BlendMode::Darken => BlendMode::Darken,
            style::BlendMode::Lighten => BlendMode::Lighten,
            style::BlendMode::ColorDodge => BlendMode::ColorDodge,
            style::BlendMode::ColorBurn => BlendMode::ColorBurn,
            style::BlendMode::HardLight => BlendMode::HardLight,
            style::BlendMode::SoftLight => BlendMode::SoftLight,
            style::BlendMode::Difference => BlendMode::Difference,
            style::BlendMode::Exclusion => BlendMode::Exclusion,
            style::BlendMode::Hue => BlendMode::Hue,
            style::BlendMode::Saturation => BlendMode::Saturation,
            style::BlendMode::Color => BlendMode::Color,
            style::BlendMode::Luminosity => BlendMode::Luminosity,
        }
    }
}

impl FromSpecImpl<style::BlendMode> for BlendMode {
    open spec fn obeys_from_spec() -> bool {
        true
    }

    open spec fn from_spec(value: style::BlendMode) -> Self {
        match value {
            style::BlendMode::Normal => BlendMode::Normal,
            style::BlendMode::Multiply => BlendMode::Multiply,
            style::BlendMode::Screen => BlendMode::Screen,
            style::BlendMode::Overlay => BlendMode::Overlay,
            style::BlendMode::Darken => BlendMode::Darken,
            style::BlendMode::Lighten => BlendMode::Lighten,
            style::BlendMode::ColorDodge => BlendMode::ColorDodge,
            style::BlendMode::ColorBurn => BlendMode::ColorBurn,
            style::BlendMode::HardLight => BlendMode::HardLight,
            style::BlendMode::SoftLight => BlendMode::SoftLight,
            style::BlendMode::Difference => BlendMode::Difference,
            style::BlendMode::Exclusion => BlendMode::Exclusion,
            style::BlendMode::Hue => BlendMode::Hue,
            style::BlendMode::Saturation => BlendMode::Saturation,
            style::BlendMode::Color => BlendMode::Color,
            style::BlendMode::Luminosity => BlendMode::Luminosity,
        }
    }
}


/// The mirrors are faithful: two values of the list that cross the wire as
/// the same value were the same value.
pub proof fn lemma_wire_faithful()
    ensures
        forall|a: style::ImageFormat, b: style::ImageFormat|
            #[trigger] <ImageFormat as FromSpec<style::ImageFormat>>::from_spec(a) == #[trigger] <ImageFormat as FromSpec<style::ImageFormat>>::from_spec(b) ==> a == b,
        forall|a: style::Color, b: style::Color|
            #[trigger] <Color as FromSpec<style::Color>>::from_spec(a) == #[trigger] <Color as FromSpec<style::Color>>::from_spec(b) ==> a == b,
        forall|a: style::FillRule, b: style::FillRule|
            #[trigger] <FillRule as FromSpec<style::FillRule>>::from_spec(a) == #[trigger] <FillRule as FromSpec<style::FillRule>>::from_spec(b) ==> a == b,
        forall|a: style::LineCap, b: style::LineCap|
            #[trigger] <LineCap as FromSpec<style::LineCap>>::from_spec(a) == #[trigger] <LineCap as FromSpec<style::LineCap>>::from_spec(b) ==> a == b,
        forall|a: style::LineJoin, b: style::LineJoin|
            #[trigger] <LineJoin as FromSpec<style::LineJoin>>::from_spec(a) == #[trigger] <LineJoin as FromSpec<style::LineJoin>>::from_spec(b) ==> a == b,
        forall|a: style::BlendMode, b: style::BlendMode|
            #[trigger] <BlendMode as FromSpec<style::BlendMode>>::from_spec(a) == #[trigger] <BlendMode as FromSpec<style::BlendMode>>::from_spec(b) ==> a == b,
{
}

} // verus!
