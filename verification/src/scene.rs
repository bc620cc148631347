//! The tree the walk reads: what usvg resolved, reduced to the values the
//! walk decides on.
//!
//! Every node carries an identifier by which a host finds its geometry again
//! (outline, opacity, gradient coordinates, image bytes); every transform is
//! an identifier too, a *factor*, which the walk composes into chains and a
//! host multiplies out. Nothing here is measured in units: the walk never
//! needs a coordinate to decide what a node becomes.

use vstd::prelude::*;

use crate::style::{BlendMode, Color, FillRule, ImageFormat, LineCap, LineJoin};

verus! {

/// How a gradient continues past its end stops.
#[derive(Clone, Copy, Debug, PartialEq, Eq, Structural)]
pub enum SpreadMethod {
    Pad,
    Reflect,
    Repeat,
}

/// Whether a path's fill or its stroke is painted first (`paint-order`).
#[derive(Clone, Copy, Debug, PartialEq, Eq, Structural)]
pub enum PaintOrder {
    FillAndStroke,
    StrokeAndFill,
}

/// `image-rendering`.
#[derive(Clone, Copy, Debug, PartialEq, Eq, Structural)]
pub enum ImageRendering {
    OptimizeQuality,
    OptimizeSpeed,
    Smooth,
    HighQuality,
    CrispEdges,
    Pixelated,
}

/// A paint server as usvg resolved it.
#[derive(Clone, Copy, Debug, PartialEq, Eq, Structural)]
pub enum ScenePaint {
    /// One colour.
    Color(Color),
    /// A linear gradient, found again by `gradient`.
    LinearGradient { gradient: u64, spread: SpreadMethod },
    /// A radial gradient, found again by `gradient`.
    RadialGradient { gradient: u64, spread: SpreadMethod },
    /// A pattern.
    Pattern,
}

/// A path's `fill`.
#[derive(Clone, Copy, Debug, PartialEq, Eq, Structural)]
pub struct SceneFill {
    pub paint: ScenePaint,
    pub rule: FillRule,
}

/// A path's `stroke`.
#[derive(Clone, Copy, Debug, PartialEq, Eq, Structural)]
pub struct SceneStroke {
    pub paint: ScenePaint,
    pub cap: LineCap,
    pub join: LineJoin,
}

/// A path node.
#[derive(Clone, Copy, Debug, PartialEq, Eq, Structural)]
pub struct ScenePath {
    /// The node, for its outline and its opacities.
    pub id: u64,
    /// `visibility` lets it paint.
    pub visible: bool,
    pub fill: Option<SceneFill>,
    pub stroke: Option<SceneStroke>,
    pub paint_order: PaintOrder,
    /// `shape-rendering` asks for anti-aliased edges.
    pub antialias: bool,
    /// The outline's bounding box is neither zero wide nor zero high.
    pub has_area: bool,
}

/// What an `<image>` holds.
pub enum SceneImageKind {
    /// A nested SVG document: the children of its root.
    Svg(Vec<SceneNode>),
    /// Encoded pixels in the given format.
    Raster(ImageFormat),
}

/// An image node.
pub struct SceneImage {
    /// The node, for its bytes and size.
    pub id: u64,
    pub visible: bool,
    pub kind: SceneImageKind,
    pub rendering: ImageRendering,
}

/// A `clipPath`: the children of its root, under its own transform, and the
/// `clip-path` it carries itself, if any.
pub struct SceneClipPath {
    /// The factor of the clip's `transform`.
    pub transform: u64,
    pub children: Vec<SceneNode>,
    pub clip_path: Option<Box<SceneClipPath>>,
}

/// A group, or the glyph group a `<text>` was laid out into.
pub struct SceneGroup {
    /// The node, for its opacity and for a raster fallback.
    pub id: u64,
    /// The factor of the group's own `transform`.
    pub transform: u64,
    /// It has at least one filter.
    pub filtered: bool,
    /// It has a mask.
    pub masked: bool,
    /// usvg asks for it to be composited through a layer.
    pub isolate: bool,
    pub blend: BlendMode,
    pub clip_path: Option<SceneClipPath>,
    pub children: Vec<SceneNode>,
}

/// One node of the tree.
pub enum SceneNode {
    Group(SceneGroup),
    /// A `<text>`, as the group of glyph outlines usvg laid it out into.
    Text(SceneGroup),
    Path(ScenePath),
    Image(SceneImage),
}

} // verus!
