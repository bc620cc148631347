//! The binding's mirrors of the plain values.

use usvg_flatten::wire;
use usvg_flatten::{BlendMode, Color, FillRule, ImageFormat, LineCap, LineJoin};

#[test]
fn plain_values_cross_the_wire_unchanged() {
    let c = wire::Color::from(Color { red: 1, green: 2, blue: 250 });
    assert_eq!((c.red, c.green, c.blue), (1, 2, 250));
    assert_eq!(wire::FillRule::from(FillRule::EvenOdd), wire::FillRule::EvenOdd);
    assert_eq!(wire::FillRule::from(FillRule::NonZero), wire::FillRule::NonZero);
    assert_eq!(wire::LineCap::from(LineCap::Square), wire::LineCap::Square);
    assert_eq!(wire::LineJoin::from(LineJoin::MiterClip), wire::LineJoin::MiterClip);
    assert_eq!(wire::ImageFormat::from(ImageFormat::Webp), wire::ImageFormat::Webp);
    assert_eq!(wire::BlendMode::from(BlendMode::Luminosity), wire::BlendMode::Luminosity);
    assert_eq!(wire::BlendMode::from(BlendMode::ColorDodge), wire::BlendMode::ColorDodge);
}

#[test]
fn every_blend_mode_has_its_own_mirror() {
    let modes = [
        BlendMode::Normal,
        BlendMode::Multiply,
        BlendMode::Screen,
        BlendMode::Overlay,
        BlendMode::Darken,
        BlendMode::Lighten,
        BlendMode::ColorDodge,
        BlendMode::ColorBurn,
        BlendMode::HardLight,
        BlendMode::SoftLight,
        BlendMode::Difference,
        BlendMode::Exclusion,
        BlendMode::Hue,
        BlendMode::Saturation,
        BlendMode::Color,
        BlendMode::Luminosity,
    ];
    let mirrored: Vec<wire::BlendMode> = modes.iter().map(|m| wire::BlendMode::from(*m)).collect();
    for i in 0..mirrored.len() {
        for j in 0..mirrored.len() {
            assert_eq!(mirrored[i] == mirrored[j], i == j);
        }
    }
    assert_eq!(format!("{:?}", mirrored[8]), "HardLight");
}

#[test]
fn a_parse_error_reads_as_its_reason() {
    let err = wire::SvgError::Parse { message: "not svg".to_string() };
    assert_eq!(err.to_string(), "not svg");
}
