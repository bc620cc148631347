//! The walk: a scene in, the display list's operations out.
//!
//! It mirrors resvg's own renderer node for node: the same decision about when
//! a group becomes a layer, the same order of fill and stroke, the same
//! skipping of a fill with no area. Where resvg paints, this emits; where the
//! list has no vector form for a node, it asks for that node as pixels
//! ([`PlannedOp::Raster`]).
//!
//! Geometry is named, not carried: a path by its node, a transform by the
//! chain of factors that compose into it, outermost first.

use vstd::prelude::*;

use crate::scene::{
    ImageRendering, PaintOrder, SceneClipPath, SceneGroup, SceneImageKind, SceneNode, ScenePaint,
    ScenePath, SpreadMethod,
};
use crate::style::{BlendMode, Color, FillRule, ImageFormat, LineCap, LineJoin};

verus! {

/// What a fill or stroke is painted with.
#[derive(Clone, Copy, Debug, PartialEq, Eq, Structural)]
pub enum PlannedPaint {
    /// One colour.
    Solid(Color),
    /// A pad-spread linear gradient, by its identifier.
    Linear(u64),
    /// A pad-spread radial gradient, by its identifier.
    Radial(u64),
}

/// One shape of a clip.
#[derive(Debug)]
pub struct PlannedClipShape {
    /// The path node whose outline it is.
    pub path: u64,
    /// Local to canvas.
    pub transform: Vec<u64>,
    pub rule: FillRule,
}

/// One `clipPath`: the union of its shapes.
#[derive(Debug)]
pub struct PlannedClip {
    pub shapes: Vec<PlannedClipShape>,
}

/// A compositing layer.
#[derive(Debug)]
pub struct PlannedLayer {
    /// The group whose opacity the layer has.
    pub group: u64,
    pub blend: BlendMode,
    /// Clips to apply, intersected in order.
    pub clips: Vec<PlannedClip>,
}

/// Fill a path.
#[derive(Debug)]
pub struct PlannedFill {
    pub path: u64,
    pub transform: Vec<u64>,
    pub paint: PlannedPaint,
    pub rule: FillRule,
    pub antialias: bool,
}

/// Stroke a path.
#[derive(Debug)]
pub struct PlannedStroke {
    pub path: u64,
    pub transform: Vec<u64>,
    pub paint: PlannedPaint,
    pub cap: LineCap,
    pub join: LineJoin,
    pub antialias: bool,
}

/// Draw an encoded image.
#[derive(Debug)]
pub struct PlannedImage {
    pub image: u64,
    pub format: ImageFormat,
    pub transform: Vec<u64>,
    /// Interpolate when scaling, rather than pick nearest pixels.
    pub smooth: bool,
}

/// Draw `node` as resvg paints it, under the transform in force where it
/// sits.
#[derive(Debug)]
pub struct PlannedRaster {
    pub node: u64,
    pub parent: Vec<u64>,
}

/// One operation of the display list.
#[derive(Debug)]
pub enum PlannedOp {
    PushLayer(PlannedLayer),
    PopLayer,
    Fill(PlannedFill),
    Stroke(PlannedStroke),
    Image(PlannedImage),
    Raster(PlannedRaster),
}

// ---------------------------------------------------------------------------
// The operations as values.
// ---------------------------------------------------------------------------

/// A clip shape as a value.
pub struct ShapeView {
    pub path: u64,
    pub transform: Seq<u64>,
    pub rule: FillRule,
}

/// An operation as a value.
pub enum OpView {
    PushLayer { group: u64, blend: BlendMode, clips: Seq<Seq<ShapeView>> },
    PopLayer,
    Fill { path: u64, transform: Seq<u64>, paint: PlannedPaint, rule: FillRule, antialias: bool },
    Stroke {
        path: u64,
        transform: Seq<u64>,
        paint: PlannedPaint,
        cap: LineCap,
        join: LineJoin,
        antialias: bool,
    },
    Image { image: u64, format: ImageFormat, transform: Seq<u64>, smooth: bool },
    Raster { node: u64, parent: Seq<u64> },
}

impl DeepView for PlannedClipShape {
    type V = ShapeView;

    open spec fn deep_view(&self) -> ShapeView {
        ShapeView { path: self.path, transform: self.transform@, rule: self.rule }
    }
}

impl DeepView for PlannedClip {
    type V = Seq<ShapeView>;

    open spec fn deep_view(&self) -> Seq<ShapeView> {
        self.shapes.deep_view()
    }
}

impl DeepView for PlannedOp {
    type V = OpView;

    open spec fn deep_view(&self) -> OpView {
        match self {
            PlannedOp::PushLayer(l) => OpView::PushLayer {
                group: l.group,
                blend: l.blend,
                clips: l.clips.deep_view(),
            },
            PlannedOp::PopLayer => OpView::PopLayer,
            PlannedOp::Fill(f) => OpView::Fill {
                path: f.path,
                transform: f.transform@,
                paint: f.paint,
                rule: f.rule,
                antialias: f.antialias,
            },
            PlannedOp::Stroke(s) => OpView::Stroke {
                path: s.path,
                transform: s.transform@,
                paint: s.paint,
                cap: s.cap,
                join: s.join,
                antialias: s.antialias,
            },
            PlannedOp::Image(i) => OpView::Image {
                image: i.image,
                format: i.format,
                transform: i.transform@,
                smooth: i.smooth,
            },
            PlannedOp::Raster(r) => OpView::Raster { node: r.node, parent: r.parent@ },
        }
    }
}

// ---------------------------------------------------------------------------
// What the walk emits.
// ---------------------------------------------------------------------------

/// The paint a fill or stroke carries, or `None` for one the list has no
/// vector form for: a pattern, or a gradient that repeats or reflects.
pub open spec fn spec_vector_paint(paint: ScenePaint) -> Option<PlannedPaint> {
    match paint {
        ScenePaint::Color(c) => Some(PlannedPaint::Solid(c)),
        ScenePaint::LinearGradient { gradient, spread } => if spread == SpreadMethod::Pad {
            Some(PlannedPaint::Linear(gradient))
        } else {
            None
        },
        ScenePaint::RadialGradient { gradient, spread } => if spread == SpreadMethod::Pad {
            Some(PlannedPaint::Radial(gradient))
        } else {
            None
        },
        ScenePaint::Pattern => None,
    }
}

/// Whether an image is interpolated when scaled: unless `image-rendering`
/// asks for speed or for hard pixel edges.
pub open spec fn spec_smooth(rendering: ImageRendering) -> bool {
    !(rendering == ImageRendering::OptimizeSpeed || rendering == ImageRendering::CrispEdges
        || rendering == ImageRendering::Pixelated)
}

/// A path cannot be drawn as vectors when its fill or its stroke has a paint
/// the list cannot carry.
pub open spec fn path_needs_raster(p: ScenePath) -> bool {
    ||| (p.fill matches Some(f) && spec_vector_paint(f.paint) is None)
    ||| (p.stroke matches Some(s) && spec_vector_paint(s.paint) is None)
}

/// A path's operations: nothing if it is hidden, one raster if either paint
/// has no vector form, else its fill (when it has one with area) and its
/// stroke (when it has one) in its paint order.
pub open spec fn path_ops(p: ScenePath, ts: Seq<u64>) -> Seq<OpView> {
    if !p.visible {
        Seq::empty()
    } else if path_needs_raster(p) {
        seq![OpView::Raster { node: p.id, parent: ts }]
    } else {
        let fill = match p.fill {
            Some(f) => if p.has_area {
                seq![
                    OpView::Fill {
                        path: p.id,
                        transform: ts,
                        paint: spec_vector_paint(f.paint)->0,
                        rule: f.rule,
                        antialias: p.antialias,
                    },
                ]
            } else {
                Seq::empty()
            },
            None => Seq::empty(),
        };
        let stroke = match p.stroke {
            Some(s) => seq![
                OpView::Stroke {
                    path: p.id,
                    transform: ts,
                    paint: spec_vector_paint(s.paint)->0,
                    cap: s.cap,
                    join: s.join,
                    antialias: p.antialias,
                },
            ],
            None => Seq::empty(),
        };
        match p.paint_order {
            PaintOrder::FillAndStroke => fill + stroke,
            PaintOrder::StrokeAndFill => stroke + fill,
        }
    }
}

/// The shapes a node contributes to a clip under `ts`, or `None` if it holds
/// something that is not a plain shape: a group with a `clip-path` of its
/// own. Paths count by their fill, when they are visible, filled and have
/// area; text by its glyphs under `ts` itself; groups by their transform
/// alone; images not at all.
pub open spec fn node_clip_shapes(node: SceneNode, ts: Seq<u64>) -> Option<Seq<ShapeView>>
    decreases node,
{
    match node {
        SceneNode::Path(p) => if p.visible && p.fill is Some && p.has_area {
            Some(seq![ShapeView { path: p.id, transform: ts, rule: p.fill->0.rule }])
        } else {
            Some(Seq::empty())
        },
        SceneNode::Text(g) => clip_shapes(g.children@, ts),
        SceneNode::Group(g) => if g.clip_path is Some {
            None
        } else {
            clip_shapes(g.children@, ts.push(g.transform))
        },
        SceneNode::Image(_) => Some(Seq::empty()),
    }
}

/// The shapes of `nodes`, in order, or `None` if any of them declines.
pub open spec fn clip_shapes(nodes: Seq<SceneNode>, ts: Seq<u64>) -> Option<Seq<ShapeView>>
    decreases nodes,
{
    if nodes.len() == 0 {
        Some(Seq::empty())
    } else {
        match (clip_shapes(nodes.drop_last(), ts), node_clip_shapes(nodes.last(), ts)) {
            (Some(a), Some(b)) => Some(a + b),
            _ => None,
        }
    }
}

/// A `clipPath` and the chain of `clip-path`s it carries, as clips to
/// intersect, each under `ts` followed by its own transform; `None` if any
/// link holds more than plain shapes.
pub open spec fn clip_chain(clip: SceneClipPath, ts: Seq<u64>) -> Option<Seq<Seq<ShapeView>>>
    decreases clip,
{
    match clip_shapes(clip.children@, ts.push(clip.transform)) {
        None => None,
        Some(shapes) => match clip.clip_path {
            None => Some(seq![shapes]),
            Some(next) => match clip_chain(*next, ts) {
                None => None,
                Some(rest) => Some(seq![shapes] + rest),
            },
        },
    }
}

/// A group's operations, `parent` being the transform in force where it
/// sits: one raster if it has a filter or a mask; its children inline if it
/// needs no isolation; else its children bracketed by a layer carrying its
/// clip chain, or one raster if that chain is not plain shapes.
pub open spec fn group_ops(g: SceneGroup, parent: Seq<u64>) -> Seq<OpView>
    decreases g, 0nat,
{
    let ts = parent.push(g.transform);
    let raster = seq![OpView::Raster { node: g.id, parent: parent }];
    if g.filtered || g.masked {
        raster
    } else if !g.isolate {
        walk(g.children@, ts)
    } else {
        let clips = match g.clip_path {
            None => Some(Seq::empty()),
            Some(c) => clip_chain(c, ts),
        };
        match clips {
            None => raster,
            Some(clips) => seq![OpView::PushLayer { group: g.id, blend: g.blend, clips: clips }]
                + walk(g.children@, ts) + seq![OpView::PopLayer],
        }
    }
}

/// One node's operations under `ts`.
pub open spec fn node_ops(node: SceneNode, ts: Seq<u64>) -> Seq<OpView>
    decreases node, 1nat,
{
    match node {
        SceneNode::Group(g) => group_ops(g, ts),
        SceneNode::Text(g) => group_ops(g, ts),
        SceneNode::Path(p) => path_ops(p, ts),
        SceneNode::Image(i) => if !i.visible {
            Seq::empty()
        } else {
            match i.kind {
                SceneImageKind::Svg(children) => walk(children@, ts),
                SceneImageKind::Raster(format) => seq![
                    OpView::Image {
                        image: i.id,
                        format: format,
                        transform: ts,
                        smooth: spec_smooth(i.rendering),
                    },
                ],
            }
        },
    }
}

/// The operations of `nodes`, in order, each under `ts`.
pub open spec fn walk(nodes: Seq<SceneNode>, ts: Seq<u64>) -> Seq<OpView>
    decreases nodes, 2nat,
{
    if nodes.len() == 0 {
        Seq::empty()
    } else {
        walk(nodes.drop_last(), ts) + node_ops(nodes.last(), ts)
    }
}


// ---------------------------------------------------------------------------
// Building blocks.
// ---------------------------------------------------------------------------

proof fn lemma_push_deep_view<T: DeepView>(before: Seq<T>, after: Seq<T>, x: T)
    requires
        after == before.push(x),
    ensures
        Seq::new(after.len(), |i: int| after[i].deep_view()) =~= Seq::new(
            before.len(),
            |i: int| before[i].deep_view(),
        ).push(x.deep_view()),
{
}

fn push_op(out: &mut Vec<PlannedOp>, op: PlannedOp)
    ensures
        final(out).deep_view() == old(out).deep_view().push(op.deep_view()),
{
    let ghost before = out@;
    out.push(op);
    proof {
        lemma_push_deep_view(before, out@, op);
    }
}

fn push_shape(out: &mut Vec<PlannedClipShape>, shape: PlannedClipShape)
    ensures
        final(out).deep_view() == old(out).deep_view().push(shape.deep_view()),
{
    let ghost before = out@;
    out.push(shape);
    proof {
        lemma_push_deep_view(before, out@, shape);
    }
}

/// A copy of a transform chain.
fn copy_chain(ts: &Vec<u64>) -> (copy: Vec<u64>)
    ensures
        copy@ == ts@,
{
    let mut copy: Vec<u64> = Vec::new();
    let mut i: usize = 0;
    while i < ts.len()
        invariant
            i <= ts.len(),
            copy@ == ts@.take(i as int),
        decreases ts.len() - i,
    {
        copy.push(ts[i]);
        i += 1;
        assert(copy@ =~= ts@.take(i as int));
    }
    assert(ts@.take(ts.len() as int) =~= ts@);
    copy
}

/// `ts` followed by one more factor.
fn extend_chain(ts: &Vec<u64>, factor: u64) -> (chain: Vec<u64>)
    ensures
        chain@ == ts@.push(factor),
{
    let mut chain = copy_chain(ts);
    chain.push(factor);
    chain
}

/// The paint a fill or stroke carries, or `None` for a pattern or a gradient
/// that repeats or reflects past its stops.
pub fn vector_paint(paint: &ScenePaint) -> (planned: Option<PlannedPaint>)
    ensures
        planned == spec_vector_paint(*paint),
{
    match paint {
        ScenePaint::Color(c) => Some(PlannedPaint::Solid(*c)),
        ScenePaint::LinearGradient { gradient, spread } => match spread {
            SpreadMethod::Pad => Some(PlannedPaint::Linear(*gradient)),
            _ => None,
        },
        ScenePaint::RadialGradient { gradient, spread } => match spread {
            SpreadMethod::Pad => Some(PlannedPaint::Radial(*gradient)),
            _ => None,
        },
        ScenePaint::Pattern => None,
    }
}

/// Whether an image with this `image-rendering` is interpolated when scaled.
pub fn smooth(rendering: ImageRendering) -> (smooth: bool)
    ensures
        smooth == spec_smooth(rendering),
{
    match rendering {
        ImageRendering::OptimizeSpeed | ImageRendering::CrispEdges | ImageRendering::Pixelated => false,
        _ => true,
    }
}


proof fn lemma_take_step<T>(s: Seq<T>, i: int)
    requires
        0 <= i < s.len(),
    ensures
        s.take(i + 1).drop_last() == s.take(i),
        s.take(i + 1).last() == s[i],
        s.take(i + 1).len() == i + 1,
{
    assert(s.take(i + 1).drop_last() =~= s.take(i));
}

/// Once a prefix of `nodes` declines to be clip shapes, the whole does.
proof fn lemma_clip_shapes_declined(nodes: Seq<SceneNode>, ts: Seq<u64>, i: int)
    requires
        0 <= i <= nodes.len(),
        clip_shapes(nodes.take(i), ts) is None,
    ensures
        clip_shapes(nodes, ts) is None,
    decreases nodes.len() - i,
{
    if i < nodes.len() {
        lemma_take_step(nodes, i);
        lemma_clip_shapes_declined(nodes, ts, i + 1);
    } else {
        assert(nodes.take(i) =~= nodes);
    }
}

/// Append the clip shapes of `nodes` under `ts` to `out`; `false` if one of
/// them is not a plain shape.
fn collect_clip_shapes(nodes: &Vec<SceneNode>, ts: &Vec<u64>, out: &mut Vec<PlannedClipShape>) -> (plain: bool)
    ensures
        plain == clip_shapes(nodes@, ts@) is Some,
        plain ==> final(out).deep_view() == old(out).deep_view() + clip_shapes(nodes@, ts@)->0,
    decreases nodes,
{
    let ghost start = out.deep_view();
    let mut i: usize = 0;
    assert(nodes@.take(0) =~= Seq::<SceneNode>::empty());
    while i < nodes.len()
        invariant
            i <= nodes.len(),
            clip_shapes(nodes@.take(i as int), ts@) is Some,
            out.deep_view() == start + clip_shapes(nodes@.take(i as int), ts@)->0,
        decreases nodes.len() - i,
    {
        proof {
            lemma_take_step(nodes@, i as int);
        }
        let ghost prefix = clip_shapes(nodes@.take(i as int), ts@)->0;
        match &nodes[i] {
            SceneNode::Path(p) => {
                if p.visible && p.fill.is_some() && p.has_area {
                    let rule = match p.fill {
                        Some(f) => f.rule,
                        None => FillRule::NonZero,
                    };
                    push_shape(out, PlannedClipShape { path: p.id, transform: copy_chain(ts), rule });
                    assert(out.deep_view() =~= start + (prefix + node_clip_shapes(nodes@[i as int], ts@)->0));
                } else {
                    assert(out.deep_view() =~= start + (prefix + node_clip_shapes(nodes@[i as int], ts@)->0));
                }
            },
            SceneNode::Text(g) => {
                if !collect_clip_shapes(&g.children, ts, out) {
                    proof {
                        lemma_clip_shapes_declined(nodes@, ts@, i + 1);
                    }
                    return false;
                }
                assert(out.deep_view() =~= start + (prefix + node_clip_shapes(nodes@[i as int], ts@)->0));
            },
            SceneNode::Group(g) => {
                if g.clip_path.is_some() {
                    proof {
                        lemma_clip_shapes_declined(nodes@, ts@, i + 1);
                    }
                    return false;
                }
                let inner = extend_chain(ts, g.transform);
                if !collect_clip_shapes(&g.children, &inner, out) {
                    proof {
                        lemma_clip_shapes_declined(nodes@, ts@, i + 1);
                    }
                    return false;
                }
                assert(out.deep_view() =~= start + (prefix + node_clip_shapes(nodes@[i as int], ts@)->0));
            },
            SceneNode::Image(_) => {
                assert(out.deep_view() =~= start + (prefix + node_clip_shapes(nodes@[i as int], ts@)->0));
            },
        }
        i += 1;
    }
    assert(nodes@.take(nodes.len() as int) =~= nodes@);
    true
}

/// The clip chain of `clip` under `ts`, or `None` if a link holds more than
/// plain shapes.
fn collect_clip_chain(clip: &SceneClipPath, ts: &Vec<u64>) -> (clips: Option<Vec<PlannedClip>>)
    ensures
        clips is Some == clip_chain(*clip, ts@) is Some,
        clips matches Some(c) ==> c.deep_view() == clip_chain(*clip, ts@)->0,
    decreases clip,
{
    let inner = extend_chain(ts, clip.transform);
    let mut shapes: Vec<PlannedClipShape> = Vec::new();
    if !collect_clip_shapes(&clip.children, &inner, &mut shapes) {
        return None;
    }
    assert(shapes.deep_view() =~= clip_shapes(clip.children@, inner@)->0);
    let first = PlannedClip { shapes };
    match &clip.clip_path {
        None => {
            let mut clips: Vec<PlannedClip> = Vec::new();
            clips.push(first);
            assert(clips.deep_view() =~= seq![first.deep_view()]);
            Some(clips)
        },
        Some(next) => match collect_clip_chain(next, ts) {
            None => None,
            Some(mut rest) => {
                rest.insert(0, first);
                assert(rest.deep_view() =~= seq![first.deep_view()] + clip_chain(**next, ts@)->0);
                Some(rest)
            },
        },
    }
}


fn push_optional(out: &mut Vec<PlannedOp>, op: Option<PlannedOp>)
    ensures
        final(out).deep_view() == old(out).deep_view() + match op {
            Some(o) => seq![o.deep_view()],
            None => Seq::empty(),
        },
{
    match op {
        Some(o) => {
            push_op(out, o);
            assert(out.deep_view() =~= old(out).deep_view() + seq![o.deep_view()]);
        },
        None => {
            assert(out.deep_view() =~= old(out).deep_view() + Seq::<OpView>::empty());
        },
    }
}

/// Append a path's operations under `ts` to `out`.
fn path_into(p: &ScenePath, ts: &Vec<u64>, out: &mut Vec<PlannedOp>)
    ensures
        final(out).deep_view() == old(out).deep_view() + path_ops(*p, ts@),
{
    if !p.visible {
        assert(out.deep_view() =~= old(out).deep_view() + path_ops(*p, ts@));
        return;
    }
    // Decide expressibility for both paints before emitting either, so a
    // path never ends up half vector, half raster.
    let fill_paint = match p.fill {
        Some(f) => Some(vector_paint(&f.paint)),
        None => None,
    };
    let stroke_paint = match p.stroke {
        Some(s) => Some(vector_paint(&s.paint)),
        None => None,
    };
    let fill_lost = match fill_paint {
        Some(None) => true,
        _ => false,
    };
    let stroke_lost = match stroke_paint {
        Some(None) => true,
        _ => false,
    };
    if fill_lost || stroke_lost {
        push_op(out, PlannedOp::Raster(PlannedRaster { node: p.id, parent: copy_chain(ts) }));
        assert(out.deep_view() =~= old(out).deep_view() + path_ops(*p, ts@));
        return;
    }
    let fill = match (p.fill, fill_paint) {
        (Some(f), Some(Some(paint))) => if p.has_area {
            Some(
                PlannedOp::Fill(
                    PlannedFill {
                        path: p.id,
                        transform: copy_chain(ts),
                        paint,
                        rule: f.rule,
                        antialias: p.antialias,
                    },
                ),
            )
        } else {
            None
        },
        _ => None,
    };
    let stroke = match (p.stroke, stroke_paint) {
        (Some(s), Some(Some(paint))) => Some(
            PlannedOp::Stroke(
                PlannedStroke {
                    path: p.id,
                    transform: copy_chain(ts),
                    paint,
                    cap: s.cap,
                    join: s.join,
                    antialias: p.antialias,
                },
            ),
        ),
        _ => None,
    };
    match p.paint_order {
        PaintOrder::FillAndStroke => {
            push_optional(out, fill);
            push_optional(out, stroke);
        },
        PaintOrder::StrokeAndFill => {
            push_optional(out, stroke);
            push_optional(out, fill);
        },
    }
    assert(out.deep_view() =~= old(out).deep_view() + path_ops(*p, ts@));
}

/// Append the operations of `nodes`, each under `ts`, to `out`.
fn walk_into(nodes: &Vec<SceneNode>, ts: &Vec<u64>, out: &mut Vec<PlannedOp>)
    ensures
        final(out).deep_view() == old(out).deep_view() + walk(nodes@, ts@),
    decreases nodes,
{
    let ghost start = out.deep_view();
    let mut i: usize = 0;
    assert(nodes@.take(0) =~= Seq::<SceneNode>::empty());
    assert(start =~= start + walk(nodes@.take(0), ts@));
    while i < nodes.len()
        invariant
            i <= nodes.len(),
            out.deep_view() == start + walk(nodes@.take(i as int), ts@),
        decreases nodes.len() - i,
    {
        proof {
            lemma_take_step(nodes@, i as int);
        }
        let ghost prefix = out.deep_view();
        match &nodes[i] {
            SceneNode::Path(p) => {
                path_into(p, ts, out);
            },
            SceneNode::Image(image) => {
                if image.visible {
                    match &image.kind {
                        SceneImageKind::Svg(children) => {
                            // A nested document is vectors too, drawn under
                            // the image's placement, which `ts` already is.
                            walk_into(children, ts, out);
                        },
                        SceneImageKind::Raster(format) => {
                            push_op(
                                out,
                                PlannedOp::Image(
                                    PlannedImage {
                                        image: image.id,
                                        format: *format,
                                        transform: copy_chain(ts),
                                        smooth: smooth(image.rendering),
                                    },
                                ),
                            );
                            assert(out.deep_view() =~= prefix + node_ops(nodes@[i as int], ts@));
                        },
                    }
                } else {
                    assert(out.deep_view() =~= prefix + node_ops(nodes@[i as int], ts@));
                }
            },
            SceneNode::Group(g) | SceneNode::Text(g) => {
                assert(node_ops(nodes@[i as int], ts@) == group_ops(*g, ts@));
                if g.filtered || g.masked {
                    // A filter or a mask has no vector form here; the whole
                    // group is one picture.
                    push_op(out, PlannedOp::Raster(PlannedRaster { node: g.id, parent: copy_chain(ts) }));
                    assert(out.deep_view() =~= prefix + group_ops(*g, ts@));
                } else {
                    let inner = extend_chain(ts, g.transform);
                    if !g.isolate {
                        // No isolation: the children paint straight through.
                        walk_into(&g.children, &inner, out);
                    } else {
                        let clips = match &g.clip_path {
                            None => Some(Vec::new()),
                            Some(c) => collect_clip_chain(c, &inner),
                        };
                        proof {
                            if g.clip_path is None {
                                assert(clips->0.deep_view() =~= Seq::<Seq<ShapeView>>::empty());
                            }
                        }
                        match clips {
                            None => {
                                push_op(
                                    out,
                                    PlannedOp::Raster(PlannedRaster { node: g.id, parent: copy_chain(ts) }),
                                );
                                assert(out.deep_view() =~= prefix + group_ops(*g, ts@));
                            },
                            Some(clips) => {
                                push_op(
                                    out,
                                    PlannedOp::PushLayer(PlannedLayer { group: g.id, blend: g.blend, clips }),
                                );
                                walk_into(&g.children, &inner, out);
                                push_op(out, PlannedOp::PopLayer);
                                assert(out.deep_view() =~= prefix + group_ops(*g, ts@));
                            },
                        }
                    }
                }
            },
        }
        assert(out.deep_view() =~= start + walk(nodes@.take(i + 1), ts@));
        i += 1;
    }
    assert(nodes@.take(nodes.len() as int) =~= nodes@);
}

/// The display list's operations for the children of a tree's root, in paint
/// order. The root's own transform is never applied, as resvg never applies
/// it: the children start from the empty chain.
pub fn plan(root: &Vec<SceneNode>) -> (ops: Vec<PlannedOp>)
    ensures
        ops.deep_view() == walk(root@, Seq::empty()),
{
    let mut ops: Vec<PlannedOp> = Vec::new();
    let ts: Vec<u64> = Vec::new();
    assert(ops.deep_view() =~= Seq::<OpView>::empty());
    walk_into(root, &ts, &mut ops);
    assert(ops.deep_view() =~= walk(root@, Seq::empty()));
    ops
}

} // verus!
