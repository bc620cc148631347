//! The walk over hand-built scenes: each is the tree usvg resolves the quoted
//! SVG into, reduced to what the walk reads.

use usvg_flatten::plan::{plan, smooth, vector_paint, PlannedOp, PlannedPaint};
use usvg_flatten::scene::{
    ImageRendering, PaintOrder, SceneClipPath, SceneFill, SceneGroup, SceneImage, SceneImageKind,
    SceneNode, ScenePaint, ScenePath, SceneStroke, SpreadMethod,
};
use usvg_flatten::{BlendMode, Color, FillRule, ImageFormat, LineCap, LineJoin};

fn rgb(red: u8, green: u8, blue: u8) -> ScenePaint {
    ScenePaint::Color(Color { red, green, blue })
}

fn fill(paint: ScenePaint) -> Option<SceneFill> {
    Some(SceneFill { paint, rule: FillRule::NonZero })
}

fn stroke(paint: ScenePaint) -> Option<SceneStroke> {
    Some(SceneStroke { paint, cap: LineCap::Butt, join: LineJoin::Miter })
}

fn path(id: u64, fill: Option<SceneFill>, stroke: Option<SceneStroke>) -> ScenePath {
    ScenePath {
        id,
        visible: true,
        fill,
        stroke,
        paint_order: PaintOrder::FillAndStroke,
        antialias: true,
        has_area: true,
    }
}

fn group(id: u64, transform: u64, children: Vec<SceneNode>) -> SceneGroup {
    SceneGroup {
        id,
        transform,
        filtered: false,
        masked: false,
        isolate: false,
        blend: BlendMode::Normal,
        clip_path: None,
        children,
    }
}

// <rect width="20" height="10" fill="#ff0000"/>
#[test]
fn a_rect_is_one_fill() {
    let root = vec![SceneNode::Path(path(1, fill(rgb(255, 0, 0)), None))];
    let ops = plan(&root);
    assert_eq!(ops.len(), 1);
    let PlannedOp::Fill(op) = &ops[0] else {
        panic!("expected a fill, got {:?}", ops[0]);
    };
    let PlannedPaint::Solid(color) = &op.paint else {
        panic!("expected solid paint");
    };
    assert_eq!((color.red, color.green, color.blue), (255, 0, 0));
}

// <rect x="5" y="5" width="30" height="20" fill="#3060c0" stroke="#c03060" stroke-width="3"/>
#[test]
fn solid_fill_and_stroke() {
    let root = vec![SceneNode::Path(path(1, fill(rgb(0x30, 0x60, 0xc0)), stroke(rgb(0xc0, 0x30, 0x60))))];
    let ops = plan(&root);
    assert!(matches!(&ops[..], [PlannedOp::Fill(_), PlannedOp::Stroke(_)]));
}

// The same rect with paint-order="stroke".
#[test]
fn paint_order_stroke_first() {
    let mut p = path(1, fill(rgb(0x30, 0x60, 0xc0)), stroke(rgb(0xc0, 0x30, 0x60)));
    p.paint_order = PaintOrder::StrokeAndFill;
    let ops = plan(&vec![SceneNode::Path(p)]);
    assert!(matches!(&ops[..], [PlannedOp::Stroke(_), PlannedOp::Fill(_)]));
}

// <g transform="translate(30 30) rotate(30)"><g transform="scale(1.5 0.8)">
//   <circle r="12" fill="#20a060"/><path ... fill="none" stroke="#000"/></g></g>
#[test]
fn nested_transforms_and_curves() {
    let inner = group(
        3,
        30,
        vec![
            SceneNode::Path(path(4, fill(rgb(0x20, 0xa0, 0x60)), None)),
            SceneNode::Path(path(5, None, stroke(rgb(0, 0, 0)))),
        ],
    );
    let outer = group(2, 20, vec![SceneNode::Group(inner)]);
    let ops = plan(&vec![SceneNode::Group(outer)]);
    assert_eq!(ops.len(), 2);
    let PlannedOp::Fill(circle) = &ops[0] else { panic!("expected the circle's fill") };
    let PlannedOp::Stroke(curve) = &ops[1] else { panic!("expected the curve's stroke") };
    assert_eq!((circle.path, curve.path), (4, 5));
    assert_eq!(circle.transform, vec![20, 30]);
    assert_eq!(curve.transform, vec![20, 30]);
}

// <polyline ... fill="none" stroke="#333" stroke-linecap="round" stroke-linejoin="round" stroke-dasharray="6 3"/>
#[test]
fn dashed_stroke_with_caps_and_joins() {
    let pen = Some(SceneStroke { paint: rgb(0x33, 0x33, 0x33), cap: LineCap::Round, join: LineJoin::Round });
    let ops = plan(&vec![SceneNode::Path(path(1, None, pen))]);
    let [PlannedOp::Stroke(op)] = &ops[..] else { panic!("expected one stroke") };
    assert_eq!((op.cap, op.join), (LineCap::Round, LineJoin::Round));
}

// <path d="M5 5 H35 V35 H5 Z M12 12 H28 V28 H12 Z" fill="#906030" fill-rule="evenodd"/>
#[test]
fn even_odd_fill() {
    let f = Some(SceneFill { paint: rgb(0x90, 0x60, 0x30), rule: FillRule::EvenOdd });
    let ops = plan(&vec![SceneNode::Path(path(1, f, None))]);
    let [PlannedOp::Fill(op)] = &ops[..] else { panic!("expected one fill") };
    assert_eq!(op.rule, FillRule::EvenOdd);
}

// <g opacity="0.5"><rect fill="#f00"/><rect fill="#00f"/></g>
#[test]
fn group_opacity_is_a_layer() {
    let mut g = group(
        2,
        20,
        vec![
            SceneNode::Path(path(3, fill(rgb(255, 0, 0)), None)),
            SceneNode::Path(path(4, fill(rgb(0, 0, 255)), None)),
        ],
    );
    g.isolate = true;
    let ops = plan(&vec![SceneNode::Group(g)]);
    assert!(matches!(
        &ops[..],
        [PlannedOp::PushLayer(layer), PlannedOp::Fill(_), PlannedOp::Fill(_), PlannedOp::PopLayer] if layer.group == 2
    ));
}

// <rect fill="#ff0"/><rect fill="#0ff" style="mix-blend-mode:multiply"/>
#[test]
fn blend_mode_multiply() {
    let mut g = group(3, 30, vec![SceneNode::Path(path(4, fill(rgb(0, 255, 255)), None))]);
    g.isolate = true;
    g.blend = BlendMode::Multiply;
    let root = vec![SceneNode::Path(path(1, fill(rgb(255, 255, 0)), None)), SceneNode::Group(g)];
    let ops = plan(&root);
    assert!(matches!(
        &ops[..],
        [PlannedOp::Fill(_), PlannedOp::PushLayer(layer), PlannedOp::Fill(_), PlannedOp::PopLayer]
            if layer.blend == BlendMode::Multiply && layer.clips.is_empty()
    ));
}

// <clipPath id="c" transform="rotate(10 20 20)"><circle .../><rect .../></clipPath>
// <rect width="40" height="40" fill="#408040" clip-path="url(#c)"/>
#[test]
fn clip_path_of_two_shapes() {
    let clip = SceneClipPath {
        transform: 90,
        children: vec![
            SceneNode::Path(path(10, fill(rgb(0, 0, 0)), None)),
            SceneNode::Path(path(11, fill(rgb(0, 0, 0)), None)),
        ],
        clip_path: None,
    };
    let mut g = group(2, 20, vec![SceneNode::Path(path(3, fill(rgb(0x40, 0x80, 0x40)), None))]);
    g.isolate = true;
    g.clip_path = Some(clip);
    let ops = plan(&vec![SceneNode::Group(g)]);
    let PlannedOp::PushLayer(layer) = &ops[0] else {
        panic!("clip should open a layer");
    };
    assert_eq!(layer.clips.len(), 1);
    assert_eq!(layer.clips[0].shapes.len(), 2);
    assert_eq!(layer.clips[0].shapes[1].transform, vec![20, 90]);
}

// <rect fill="url(#g)"/> with a pad-spread linearGradient.
#[test]
fn linear_gradient_stays_vector() {
    let paint = ScenePaint::LinearGradient { gradient: 7, spread: SpreadMethod::Pad };
    let ops = plan(&vec![SceneNode::Path(path(1, fill(paint), None))]);
    assert!(matches!(&ops[..], [PlannedOp::Fill(op)] if matches!(op.paint, PlannedPaint::Linear(7))));
}

// <circle fill="url(#g)"/> with a pad-spread radialGradient with a focal point.
#[test]
fn radial_gradient_with_focal_point() {
    let paint = ScenePaint::RadialGradient { gradient: 8, spread: SpreadMethod::Pad };
    let ops = plan(&vec![SceneNode::Path(path(1, fill(paint), None))]);
    assert!(matches!(&ops[..], [PlannedOp::Fill(op)] if matches!(op.paint, PlannedPaint::Radial(8))));
}

// <rect fill="url(#g)"/> with spreadMethod="repeat".
#[test]
fn repeating_gradient_falls_back_to_raster() {
    let paint = ScenePaint::LinearGradient { gradient: 7, spread: SpreadMethod::Repeat };
    let ops = plan(&vec![SceneNode::Path(path(1, fill(paint), None))]);
    assert!(matches!(&ops[..], [PlannedOp::Raster(r)] if r.node == 1 && r.parent.is_empty()));
}

// <rect fill="#f00"/><rect fill="#00f" filter="url(#b)"/>
#[test]
fn filter_falls_back_to_raster() {
    let mut g = group(3, 30, vec![SceneNode::Path(path(4, fill(rgb(0, 0, 255)), None))]);
    g.filtered = true;
    g.isolate = true;
    let root = vec![SceneNode::Path(path(1, fill(rgb(255, 0, 0)), None)), SceneNode::Group(g)];
    let ops = plan(&root);
    assert!(matches!(&ops[..], [PlannedOp::Fill(_), PlannedOp::Raster(r)] if r.node == 3));
}

// <rect fill="#800" mask="url(#m)"/>
#[test]
fn mask_falls_back_to_raster() {
    let mut g = group(3, 30, vec![SceneNode::Path(path(4, fill(rgb(0x88, 0, 0)), None))]);
    g.masked = true;
    g.isolate = true;
    let ops = plan(&vec![SceneNode::Group(g)]);
    assert!(matches!(&ops[..], [PlannedOp::Raster(_)]));
}

// <rect fill="url(#p)"/> with a pattern.
#[test]
fn pattern_falls_back_to_raster() {
    let ops = plan(&vec![SceneNode::Path(path(1, fill(ScenePaint::Pattern), None))]);
    assert!(matches!(&ops[..], [PlannedOp::Raster(_)]));
}

// <image x="10" y="10" width="20" height="20" href="data:image/svg+xml;base64,..."/>
// holding a 10×10 green square.
#[test]
fn nested_svg_image_is_inlined() {
    let image = SceneImage {
        id: 3,
        visible: true,
        kind: SceneImageKind::Svg(vec![SceneNode::Path(path(4, fill(rgb(0, 0xaa, 0)), None))]),
        rendering: ImageRendering::OptimizeQuality,
    };
    let placement = group(2, 20, vec![SceneNode::Image(image)]);
    let ops = plan(&vec![SceneNode::Group(placement)]);
    assert!(!ops.is_empty());
    assert!(ops.iter().all(|op| matches!(op, PlannedOp::Fill(_))));
}

// <text x="4" y="22" font-size="18" fill="#123">Ag</text>, laid out into glyphs.
#[test]
fn text_is_glyph_outlines() {
    let glyphs = group(
        2,
        20,
        vec![
            SceneNode::Path(path(3, fill(rgb(0x11, 0x22, 0x33)), None)),
            SceneNode::Path(path(4, fill(rgb(0x11, 0x22, 0x33)), None)),
        ],
    );
    let ops = plan(&vec![SceneNode::Text(glyphs)]);
    assert_eq!(ops.len(), 2);
    assert!(ops.iter().all(|op| !matches!(op, PlannedOp::Raster(_))));
}

#[test]
fn hidden_path_draws_nothing() {
    let mut p = path(1, fill(rgb(1, 2, 3)), stroke(rgb(4, 5, 6)));
    p.visible = false;
    assert!(plan(&vec![SceneNode::Path(p)]).is_empty());
}

#[test]
fn flat_path_keeps_its_stroke_but_not_its_fill() {
    let mut p = path(1, fill(rgb(1, 2, 3)), stroke(rgb(4, 5, 6)));
    p.has_area = false;
    let ops = plan(&vec![SceneNode::Path(p)]);
    assert!(matches!(&ops[..], [PlannedOp::Stroke(_)]));
}

#[test]
fn a_raster_stroke_takes_the_fill_with_it() {
    let p = path(1, fill(rgb(1, 2, 3)), stroke(ScenePaint::RadialGradient { gradient: 5, spread: SpreadMethod::Reflect }));
    let ops = plan(&vec![SceneNode::Path(p)]);
    assert!(matches!(&ops[..], [PlannedOp::Raster(r)] if r.node == 1));
}

#[test]
fn a_filtered_group_rasterizes_under_its_parent_transform() {
    let mut inner = group(3, 30, vec![SceneNode::Path(path(4, fill(rgb(1, 1, 1)), None))]);
    inner.filtered = true;
    let outer = group(2, 20, vec![SceneNode::Group(inner)]);
    let ops = plan(&vec![SceneNode::Group(outer)]);
    let [PlannedOp::Raster(r)] = &ops[..] else { panic!("expected one raster") };
    assert_eq!(r.node, 3);
    assert_eq!(r.parent, vec![20]);
}

#[test]
fn a_clip_chain_intersects_in_order() {
    let second = SceneClipPath {
        transform: 92,
        children: vec![SceneNode::Path(path(12, fill(rgb(0, 0, 0)), None))],
        clip_path: None,
    };
    let first = SceneClipPath {
        transform: 91,
        children: vec![
            SceneNode::Path(path(10, fill(rgb(0, 0, 0)), None)),
            // Ignored inside a clip: an image, a path without fill.
            SceneNode::Image(SceneImage {
                id: 13,
                visible: true,
                kind: SceneImageKind::Raster(ImageFormat::Png),
                rendering: ImageRendering::OptimizeQuality,
            }),
            SceneNode::Path(path(14, None, stroke(rgb(0, 0, 0)))),
        ],
        clip_path: Some(Box::new(second)),
    };
    let mut g = group(2, 20, vec![SceneNode::Path(path(3, fill(rgb(9, 9, 9)), None))]);
    g.isolate = true;
    g.clip_path = Some(first);
    let ops = plan(&vec![SceneNode::Group(g)]);
    let PlannedOp::PushLayer(layer) = &ops[0] else { panic!("expected a layer") };
    assert_eq!(layer.clips.len(), 2);
    assert_eq!(layer.clips[0].shapes.len(), 1);
    assert_eq!(layer.clips[0].shapes[0].path, 10);
    assert_eq!(layer.clips[0].shapes[0].transform, vec![20, 91]);
    assert_eq!(layer.clips[1].shapes[0].path, 12);
    assert_eq!(layer.clips[1].shapes[0].transform, vec![20, 92]);
}

#[test]
fn a_clip_holding_a_clipped_group_rasterizes_the_layer() {
    let mut clipped_inside = group(15, 95, vec![SceneNode::Path(path(16, fill(rgb(0, 0, 0)), None))]);
    clipped_inside.clip_path = Some(SceneClipPath { transform: 96, children: vec![], clip_path: None });
    let clip = SceneClipPath { transform: 91, children: vec![SceneNode::Group(clipped_inside)], clip_path: None };
    let mut g = group(2, 20, vec![SceneNode::Path(path(3, fill(rgb(9, 9, 9)), None))]);
    g.isolate = true;
    g.clip_path = Some(clip);
    let ops = plan(&vec![SceneNode::Group(g)]);
    assert!(matches!(&ops[..], [PlannedOp::Raster(r)] if r.node == 2 && r.parent.is_empty()));
}

#[test]
fn text_in_a_clip_keeps_the_clip_transform() {
    let glyphs = group(17, 97, vec![SceneNode::Path(path(18, fill(rgb(0, 0, 0)), None))]);
    let nested = group(19, 98, vec![SceneNode::Path(path(20, fill(rgb(0, 0, 0)), None))]);
    let clip = SceneClipPath {
        transform: 91,
        children: vec![SceneNode::Text(glyphs), SceneNode::Group(nested)],
        clip_path: None,
    };
    let mut g = group(2, 20, vec![]);
    g.isolate = true;
    g.clip_path = Some(clip);
    let ops = plan(&vec![SceneNode::Group(g)]);
    let PlannedOp::PushLayer(layer) = &ops[0] else { panic!("expected a layer") };
    assert_eq!(layer.clips[0].shapes[0].transform, vec![20, 91]);
    assert_eq!(layer.clips[0].shapes[1].transform, vec![20, 91, 98]);
    assert!(matches!(&ops[1..], [PlannedOp::PopLayer]));
}

#[test]
fn images_carry_format_and_smoothing() {
    let image = SceneImage {
        id: 3,
        visible: true,
        kind: SceneImageKind::Raster(ImageFormat::Jpeg),
        rendering: ImageRendering::Pixelated,
    };
    let ops = plan(&vec![SceneNode::Image(image)]);
    let [PlannedOp::Image(op)] = &ops[..] else { panic!("expected one image") };
    assert_eq!((op.image, op.format, op.smooth), (3, ImageFormat::Jpeg, false));
    let hidden = SceneImage { id: 4, visible: false, kind: SceneImageKind::Raster(ImageFormat::Png), rendering: ImageRendering::Smooth };
    assert!(plan(&vec![SceneNode::Image(hidden)]).is_empty());
}

#[test]
fn smoothing_follows_image_rendering() {
    assert!(smooth(ImageRendering::OptimizeQuality));
    assert!(smooth(ImageRendering::Smooth));
    assert!(smooth(ImageRendering::HighQuality));
    assert!(!smooth(ImageRendering::OptimizeSpeed));
    assert!(!smooth(ImageRendering::CrispEdges));
    assert!(!smooth(ImageRendering::Pixelated));
}

#[test]
fn only_pad_gradients_and_colours_are_vector_paint() {
    let red = Color { red: 255, green: 0, blue: 0 };
    assert_eq!(vector_paint(&ScenePaint::Color(red)), Some(PlannedPaint::Solid(red)));
    assert_eq!(
        vector_paint(&ScenePaint::LinearGradient { gradient: 1, spread: SpreadMethod::Pad }),
        Some(PlannedPaint::Linear(1))
    );
    assert_eq!(vector_paint(&ScenePaint::LinearGradient { gradient: 1, spread: SpreadMethod::Reflect }), None);
    assert_eq!(vector_paint(&ScenePaint::RadialGradient { gradient: 2, spread: SpreadMethod::Repeat }), None);
    assert_eq!(vector_paint(&ScenePaint::Pattern), None);
}

#[test]
fn layers_nest_in_a_deep_tree() {
    let mut inner = group(3, 30, vec![SceneNode::Path(path(4, fill(rgb(1, 1, 1)), None))]);
    inner.isolate = true;
    let mut outer = group(2, 20, vec![SceneNode::Group(inner), SceneNode::Path(path(5, None, stroke(rgb(2, 2, 2))))]);
    outer.isolate = true;
    let ops = plan(&vec![SceneNode::Group(outer)]);
    let mut depth: i64 = 0;
    for op in &ops {
        match op {
            PlannedOp::PushLayer(_) => depth += 1,
            PlannedOp::PopLayer => depth -= 1,
            _ => {}
        }
        assert!(depth >= 0);
    }
    assert_eq!(depth, 0);
    assert_eq!(ops.len(), 6);
}
