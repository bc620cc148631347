//! A usvg tree as a flat display list, with its decisions proved.
//!
//! The walk that turns a parsed SVG into drawing operations is stated here over
//! a float-free model of the tree ([`scene`]): which node becomes a layer, which
//! falls back to pixels, in what order a path's fill and stroke come, how clip
//! paths chain and how transforms accumulate. The result ([`plan`]) names the
//! geometry it draws by node identifiers; a host fills that geometry in.
//! [`laws`] holds what every such result satisfies, [`layers`] the layer
//! discipline a replayer follows, and [`wire`] the binding's mirror of the
//! plain values in [`style`].

pub mod laws;
pub mod layers;
pub mod plan;
pub mod scene;
pub mod style;
pub mod wire;

pub use style::{BlendMode, Color, FillRule, ImageFormat, LineCap, LineJoin};
