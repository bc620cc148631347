//! What holds of every display list the walk produces.

use vstd::prelude::*;

use crate::plan::{
    clip_chain, clip_shapes, group_ops, node_clip_shapes, node_ops, path_needs_raster, path_ops,
    walk, OpView, ShapeView,
};
use crate::plan::{spec_vector_paint, PlannedPaint};
use crate::scene::{
    ImageRendering, PaintOrder, SceneClipPath, SceneGroup, SceneImageKind, SceneNode, ScenePaint,
    ScenePath, SpreadMethod,
};
use crate::style::{BlendMode, FillRule, ImageFormat, LineCap, LineJoin};

verus! {

// ---------------------------------------------------------------------------
// Layers nest.
// ---------------------------------------------------------------------------

/// How an operation changes the number of open layers.
pub open spec fn layer_step(op: OpView) -> int {
    match op {
        OpView::PushLayer { .. } => 1,
        OpView::PopLayer => -1,
        _ => 0,
    }
}

/// The number of layers open after `ops`.
pub open spec fn depth(ops: Seq<OpView>) -> int
    decreases ops.len(),
{
    if ops.len() == 0 {
        0
    } else {
        depth(ops.drop_last()) + layer_step(ops.last())
    }
}

/// Every `PushLayer` has a matching `PopLayer` later in the list, and they
/// nest: no prefix closes more layers than it opened, and the whole closes
/// all it opened.
pub open spec fn balanced(ops: Seq<OpView>) -> bool {
    &&& depth(ops) == 0
    &&& forall|i: int| 0 <= i <= ops.len() ==> #[trigger] depth(ops.take(i)) >= 0
}

proof fn lemma_depth_add(a: Seq<OpView>, b: Seq<OpView>)
    ensures
        depth(a + b) == depth(a) + depth(b),
    decreases b.len(),
{
    if b.len() == 0 {
        assert(a + b =~= a);
    } else {
        assert((a + b).drop_last() =~= a + b.drop_last());
        assert((a + b).last() == b.last());
        lemma_depth_add(a, b.drop_last());
    }
}

proof fn lemma_depth_single(op: OpView)
    ensures
        depth(seq![op]) == layer_step(op),
{
    let s = seq![op];
    assert(s.drop_last() =~= Seq::<OpView>::empty());
    assert(depth(s.drop_last()) == 0);
    assert(s.last() == op);
}

proof fn lemma_balanced_empty()
    ensures
        balanced(Seq::<OpView>::empty()),
{
    assert forall|i: int| 0 <= i <= 0 implies #[trigger] depth(Seq::<OpView>::empty().take(i)) >= 0 by {
        assert(Seq::<OpView>::empty().take(i) =~= Seq::<OpView>::empty());
    }
}

proof fn lemma_balanced_single(op: OpView)
    requires
        layer_step(op) == 0,
    ensures
        balanced(seq![op]),
{
    let s = seq![op];
    lemma_depth_single(op);
    assert forall|i: int| 0 <= i <= s.len() implies #[trigger] depth(s.take(i)) >= 0 by {
        if i == 0 {
            assert(s.take(i) =~= Seq::<OpView>::empty());
            assert(depth(Seq::<OpView>::empty()) == 0);
        } else {
            assert(s.take(i) =~= s);
        }
    }
}

proof fn lemma_balanced_concat(a: Seq<OpView>, b: Seq<OpView>)
    requires
        balanced(a),
        balanced(b),
    ensures
        balanced(a + b),
{
    lemma_depth_add(a, b);
    let s = a + b;
    assert forall|i: int| 0 <= i <= s.len() implies #[trigger] depth(s.take(i)) >= 0 by {
        if i <= a.len() {
            assert(s.take(i) =~= a.take(i));
        } else {
            assert(s.take(i) =~= a + b.take(i - a.len()));
            lemma_depth_add(a, b.take(i - a.len()));
            assert(depth(b.take(i - a.len())) >= 0);
        }
    }
}

proof fn lemma_balanced_bracket(open: OpView, inner: Seq<OpView>, close: OpView)
    requires
        open is PushLayer,
        close is PopLayer,
        balanced(inner),
    ensures
        balanced(seq![open] + inner + seq![close]),
{
    let s = seq![open] + inner + seq![close];
    lemma_depth_single(open);
    lemma_depth_single(close);
    lemma_depth_add(seq![open], inner);
    lemma_depth_add(seq![open] + inner, seq![close]);
    assert forall|i: int| 0 <= i <= s.len() implies #[trigger] depth(s.take(i)) >= 0 by {
        if i == 0 {
            assert(s.take(i) =~= Seq::<OpView>::empty());
            assert(depth(Seq::<OpView>::empty()) == 0);
        } else if i <= inner.len() + 1 {
            assert(s.take(i) =~= seq![open] + inner.take(i - 1));
            lemma_depth_add(seq![open], inner.take(i - 1));
            assert(depth(inner.take(i - 1)) >= 0);
        } else {
            assert(s.take(i) =~= s);
        }
    }
}

/// The operations of any group are balanced.
pub proof fn lemma_group_balanced(g: SceneGroup, parent: Seq<u64>)
    ensures
        balanced(group_ops(g, parent)),
    decreases g, 0nat,
{
    let ts = parent.push(g.transform);
    let raster = seq![OpView::Raster { node: g.id, parent: parent }];
    if g.filtered || g.masked {
        lemma_balanced_single(raster[0]);
        assert(raster =~= seq![raster[0]]);
    } else if !g.isolate {
        lemma_walk_balanced(g.children@, ts);
    } else {
        let clips = match g.clip_path {
            None => Some(Seq::empty()),
            Some(c) => clip_chain(c, ts),
        };
        match clips {
            None => {
                lemma_balanced_single(raster[0]);
                assert(raster =~= seq![raster[0]]);
            },
            Some(clips) => {
                lemma_walk_balanced(g.children@, ts);
                lemma_balanced_bracket(
                    OpView::PushLayer { group: g.id, blend: g.blend, clips: clips },
                    walk(g.children@, ts),
                    OpView::PopLayer,
                );
            },
        }
    }
}

/// The operations of any node are balanced.
pub proof fn lemma_node_balanced(node: SceneNode, ts: Seq<u64>)
    ensures
        balanced(node_ops(node, ts)),
    decreases node, 1nat,
{
    match node {
        SceneNode::Group(g) => lemma_group_balanced(g, ts),
        SceneNode::Text(g) => lemma_group_balanced(g, ts),
        SceneNode::Path(p) => {
            let ops = path_ops(p, ts);
            lemma_path_ops_shape(p, ts);
            if ops.len() == 0 {
                assert(ops =~= Seq::<OpView>::empty());
                lemma_balanced_empty();
            } else if ops.len() == 1 {
                lemma_balanced_single(ops[0]);
                assert(ops =~= seq![ops[0]]);
            } else {
                lemma_balanced_single(ops[0]);
                lemma_balanced_single(ops[1]);
                lemma_balanced_concat(seq![ops[0]], seq![ops[1]]);
                assert(ops =~= seq![ops[0]] + seq![ops[1]]);
            }
        },
        SceneNode::Image(i) => {
            if !i.visible {
                lemma_balanced_empty();
            } else {
                match i.kind {
                    SceneImageKind::Svg(children) => lemma_walk_balanced(children@, ts),
                    SceneImageKind::Raster(_) => {
                        let ops = node_ops(node, ts);
                        lemma_balanced_single(ops[0]);
                        assert(ops =~= seq![ops[0]]);
                    },
                }
            }
        },
    }
}

/// Layers nest: in the operations of any sequence of nodes, under any
/// transform, every `PushLayer` has a matching `PopLayer` later on.
pub proof fn lemma_walk_balanced(nodes: Seq<SceneNode>, ts: Seq<u64>)
    ensures
        balanced(walk(nodes, ts)),
    decreases nodes, 2nat,
{
    if nodes.len() == 0 {
        lemma_balanced_empty();
    } else {
        lemma_walk_balanced(nodes.drop_last(), ts);
        lemma_node_balanced(nodes.last(), ts);
        lemma_balanced_concat(walk(nodes.drop_last(), ts), node_ops(nodes.last(), ts));
    }
}

// ---------------------------------------------------------------------------
// A path is all vector or all pixels.
// ---------------------------------------------------------------------------

/// A path is drawn wholly as vectors or wholly as one raster, never half
/// and half. A hidden path draws nothing; one whose fill or stroke has no
/// vector form is exactly one raster of it under `ts`; any other has at most
/// its fill and its stroke, each of this path under `ts`, the fill only when
/// it has a fill with area, the stroke only when it has a stroke, and when
/// both are drawn they come in the path's paint order.
pub proof fn lemma_path_ops_shape(p: ScenePath, ts: Seq<u64>)
    ensures
        !p.visible ==> path_ops(p, ts).len() == 0,
        p.visible && path_needs_raster(p) ==> path_ops(p, ts) == seq![
            OpView::Raster { node: p.id, parent: ts },
        ],
        p.visible && !path_needs_raster(p) ==> {
            let ops = path_ops(p, ts);
            &&& ops.len() <= 2
            &&& forall|i: int|
                0 <= i < ops.len() ==> match #[trigger] ops[i] {
                    OpView::Fill { path, transform, .. } => path == p.id && transform == ts
                        && p.fill is Some && p.has_area,
                    OpView::Stroke { path, transform, .. } => path == p.id && transform == ts
                        && p.stroke is Some,
                    _ => false,
                }
            &&& (p.fill is Some && p.has_area && p.stroke is Some) ==> {
                &&& ops.len() == 2
                &&& (ops[0] is Fill <==> p.paint_order == PaintOrder::FillAndStroke)
            }
        },
{
}

// ---------------------------------------------------------------------------
// Transforms accumulate from the outside in.
// ---------------------------------------------------------------------------

/// `chain` begins with `ts`: it is `ts` followed by zero or more factors.
pub open spec fn extends(chain: Seq<u64>, ts: Seq<u64>) -> bool {
    ts.len() <= chain.len() && chain.take(ts.len() as int) == ts
}

/// Every transform an operation carries begins with `ts`.
pub open spec fn op_under(op: OpView, ts: Seq<u64>) -> bool {
    match op {
        OpView::PushLayer { clips, .. } => forall|i: int, j: int|
            0 <= i < clips.len() && 0 <= j < clips[i].len() ==> extends(
                #[trigger] clips[i][j].transform,
                ts,
            ),
        OpView::PopLayer => true,
        OpView::Fill { transform, .. } => extends(transform, ts),
        OpView::Stroke { transform, .. } => extends(transform, ts),
        OpView::Image { transform, .. } => extends(transform, ts),
        OpView::Raster { parent, .. } => extends(parent, ts),
    }
}

/// Every transform every operation of `ops` carries begins with `ts`.
pub open spec fn all_under(ops: Seq<OpView>, ts: Seq<u64>) -> bool {
    forall|i: int| 0 <= i < ops.len() ==> op_under(#[trigger] ops[i], ts)
}

/// Every shape's transform begins with `ts`.
pub open spec fn shapes_under(shapes: Seq<ShapeView>, ts: Seq<u64>) -> bool {
    forall|j: int| 0 <= j < shapes.len() ==> extends(#[trigger] shapes[j].transform, ts)
}

proof fn lemma_extends_push(chain: Seq<u64>, ts: Seq<u64>, factor: u64)
    requires
        extends(chain, ts.push(factor)),
    ensures
        extends(chain, ts),
{
    assert(chain.take(ts.len() as int) =~= chain.take(ts.len() + 1 as int).take(ts.len() as int));
    assert(ts.push(factor).take(ts.len() as int) =~= ts);
}

proof fn lemma_extends_self(ts: Seq<u64>)
    ensures
        extends(ts, ts),
{
    assert(ts.take(ts.len() as int) =~= ts);
}

proof fn lemma_all_under_push(ops: Seq<OpView>, ts: Seq<u64>, factor: u64)
    requires
        all_under(ops, ts.push(factor)),
    ensures
        all_under(ops, ts),
{
    assert forall|i: int| 0 <= i < ops.len() implies op_under(#[trigger] ops[i], ts) by {
        assert(op_under(ops[i], ts.push(factor)));
        match ops[i] {
            OpView::PushLayer { clips, .. } => {
                assert forall|a: int, b: int|
                    0 <= a < clips.len() && 0 <= b < clips[a].len() implies extends(
                    #[trigger] clips[a][b].transform,
                    ts,
                ) by {
                    lemma_extends_push(clips[a][b].transform, ts, factor);
                }
            },
            OpView::PopLayer => {},
            OpView::Fill { transform, .. } => lemma_extends_push(transform, ts, factor),
            OpView::Stroke { transform, .. } => lemma_extends_push(transform, ts, factor),
            OpView::Image { transform, .. } => lemma_extends_push(transform, ts, factor),
            OpView::Raster { parent, .. } => lemma_extends_push(parent, ts, factor),
        }
    }
}

proof fn lemma_shapes_under_push(shapes: Seq<ShapeView>, ts: Seq<u64>, factor: u64)
    requires
        shapes_under(shapes, ts.push(factor)),
    ensures
        shapes_under(shapes, ts),
{
    assert forall|j: int| 0 <= j < shapes.len() implies extends(#[trigger] shapes[j].transform, ts) by {
        lemma_extends_push(shapes[j].transform, ts, factor);
    }
}

proof fn lemma_all_under_concat(a: Seq<OpView>, b: Seq<OpView>, ts: Seq<u64>)
    requires
        all_under(a, ts),
        all_under(b, ts),
    ensures
        all_under(a + b, ts),
{
    assert forall|i: int| 0 <= i < (a + b).len() implies op_under(#[trigger] (a + b)[i], ts) by {
        if i < a.len() {
            assert((a + b)[i] == a[i]);
        } else {
            assert((a + b)[i] == b[i - a.len()]);
        }
    }
}

proof fn lemma_node_clip_shapes_under(node: SceneNode, ts: Seq<u64>)
    ensures
        node_clip_shapes(node, ts) matches Some(shapes) ==> shapes_under(shapes, ts),
    decreases node, 0nat,
{
    match node {
        SceneNode::Path(p) => {
            lemma_extends_self(ts);
        },
        SceneNode::Text(g) => lemma_clip_shapes_under(g.children@, ts),
        SceneNode::Group(g) => {
            if g.clip_path is None {
                lemma_clip_shapes_under(g.children@, ts.push(g.transform));
                if let Some(shapes) = clip_shapes(g.children@, ts.push(g.transform)) {
                    lemma_shapes_under_push(shapes, ts, g.transform);
                }
            }
        },
        SceneNode::Image(_) => {},
    }
}

proof fn lemma_clip_shapes_under(nodes: Seq<SceneNode>, ts: Seq<u64>)
    ensures
        clip_shapes(nodes, ts) matches Some(shapes) ==> shapes_under(shapes, ts),
    decreases nodes, 1nat,
{
    if nodes.len() > 0 {
        lemma_clip_shapes_under(nodes.drop_last(), ts);
        lemma_node_clip_shapes_under(nodes.last(), ts);
        if let (Some(a), Some(b)) = (clip_shapes(nodes.drop_last(), ts), node_clip_shapes(nodes.last(), ts)) {
            assert forall|j: int| 0 <= j < (a + b).len() implies extends(#[trigger] (a + b)[j].transform, ts) by {
                if j < a.len() {
                    assert((a + b)[j] == a[j]);
                } else {
                    assert((a + b)[j] == b[j - a.len()]);
                }
            }
        }
    }
}

proof fn lemma_clip_chain_under(clip: SceneClipPath, ts: Seq<u64>)
    ensures
        clip_chain(clip, ts) matches Some(clips) ==> forall|i: int|
            0 <= i < clips.len() ==> shapes_under(#[trigger] clips[i], ts),
    decreases clip,
{
    lemma_clip_shapes_under(clip.children@, ts.push(clip.transform));
    if let Some(shapes) = clip_shapes(clip.children@, ts.push(clip.transform)) {
        lemma_shapes_under_push(shapes, ts, clip.transform);
        if let Some(next) = clip.clip_path {
            lemma_clip_chain_under(*next, ts);
            if let Some(rest) = clip_chain(*next, ts) {
                let all = seq![shapes] + rest;
                assert forall|i: int| 0 <= i < all.len() implies shapes_under(#[trigger] all[i], ts) by {
                    if i > 0 {
                        assert(all[i] == rest[i - 1]);
                    }
                }
            }
        }
    }
}

/// Every transform in a group's operations begins with the transform in
/// force where the group sits.
pub proof fn lemma_group_under(g: SceneGroup, parent: Seq<u64>)
    ensures
        all_under(group_ops(g, parent), parent),
    decreases g, 0nat,
{
    let ts = parent.push(g.transform);
    lemma_extends_self(parent);
    if g.filtered || g.masked {
    } else if !g.isolate {
        lemma_walk_under(g.children@, ts);
        lemma_all_under_push(walk(g.children@, ts), parent, g.transform);
    } else {
        let clips = match g.clip_path {
            None => Some(Seq::<Seq<ShapeView>>::empty()),
            Some(c) => clip_chain(c, ts),
        };
        if let Some(clips) = clips {
            if let Some(c) = g.clip_path {
                lemma_clip_chain_under(c, ts);
            }
            let open = OpView::PushLayer { group: g.id, blend: g.blend, clips: clips };
            assert(op_under(open, parent)) by {
                assert forall|i: int, j: int|
                    0 <= i < clips.len() && 0 <= j < clips[i].len() implies extends(
                    #[trigger] clips[i][j].transform,
                    parent,
                ) by {
                    assert(shapes_under(clips[i], ts));
                    lemma_extends_push(clips[i][j].transform, parent, g.transform);
                }
            }
            lemma_walk_under(g.children@, ts);
            lemma_all_under_push(walk(g.children@, ts), parent, g.transform);
            assert(all_under(seq![open], parent));
            assert(all_under(seq![OpView::PopLayer], parent));
            lemma_all_under_concat(seq![open], walk(g.children@, ts), parent);
            lemma_all_under_concat(seq![open] + walk(g.children@, ts), seq![OpView::PopLayer], parent);
        }
    }
}

/// Every transform in a node's operations begins with `ts`.
pub proof fn lemma_node_under(node: SceneNode, ts: Seq<u64>)
    ensures
        all_under(node_ops(node, ts), ts),
    decreases node, 1nat,
{
    lemma_extends_self(ts);
    match node {
        SceneNode::Group(g) => lemma_group_under(g, ts),
        SceneNode::Text(g) => lemma_group_under(g, ts),
        SceneNode::Path(p) => {
            lemma_path_ops_shape(p, ts);
        },
        SceneNode::Image(i) => {
            if i.visible {
                if let SceneImageKind::Svg(children) = i.kind {
                    lemma_walk_under(children@, ts);
                }
            }
        },
    }
}

/// Transforms accumulate from the outside in: every transform carried by the
/// operations of nodes walked under `ts` is `ts` followed by the factors of
/// the groups and clip paths between there and the operation, never a
/// transform from elsewhere in the tree.
pub proof fn lemma_walk_under(nodes: Seq<SceneNode>, ts: Seq<u64>)
    ensures
        all_under(walk(nodes, ts), ts),
    decreases nodes, 2nat,
{
    if nodes.len() > 0 {
        lemma_walk_under(nodes.drop_last(), ts);
        lemma_node_under(nodes.last(), ts);
        lemma_all_under_concat(walk(nodes.drop_last(), ts), node_ops(nodes.last(), ts), ts);
    }
}

// ---------------------------------------------------------------------------
// What stays vector.
// ---------------------------------------------------------------------------

/// A node that can stand in a clip as plain shapes: anything but a group
/// carrying a `clip-path` of its own, at any depth.
pub open spec fn plain_clip_node(node: SceneNode) -> bool
    decreases node, 0nat,
{
    match node {
        SceneNode::Text(g) => plain_clip_nodes(g.children@),
        SceneNode::Group(g) => g.clip_path is None && plain_clip_nodes(g.children@),
        _ => true,
    }
}

/// Every node of `nodes` can stand in a clip as plain shapes.
pub open spec fn plain_clip_nodes(nodes: Seq<SceneNode>) -> bool
    decreases nodes, 1nat,
{
    nodes.len() == 0 || (plain_clip_nodes(nodes.drop_last()) && plain_clip_node(nodes.last()))
}

/// A clip path every link of whose chain holds only plain shapes.
pub open spec fn plain_clip(clip: SceneClipPath) -> bool
    decreases clip,
{
    plain_clip_nodes(clip.children@) && (clip.clip_path matches Some(next) ==> plain_clip(*next))
}

/// A node with nothing the list has no vector form for: no filtered or
/// masked group, no layer clipped by more than plain shapes, no visible
/// path painted with a pattern or a repeating or reflecting gradient.
pub open spec fn vector_node(node: SceneNode) -> bool
    decreases node, 0nat,
{
    match node {
        SceneNode::Group(g) => vector_group(g),
        SceneNode::Text(g) => vector_group(g),
        SceneNode::Path(p) => !(p.visible && path_needs_raster(p)),
        SceneNode::Image(i) => i.visible ==> (i.kind matches SceneImageKind::Svg(children)
            ==> vector_nodes(children@)),
    }
}

/// A group with nothing the list has no vector form for.
pub open spec fn vector_group(g: SceneGroup) -> bool
    decreases g,
{
    &&& !g.filtered
    &&& !g.masked
    &&& (g.isolate && g.clip_path is Some) ==> plain_clip(g.clip_path->0)
    &&& vector_nodes(g.children@)
}

/// Every node of `nodes` is [`vector_node`].
pub open spec fn vector_nodes(nodes: Seq<SceneNode>) -> bool
    decreases nodes, 1nat,
{
    nodes.len() == 0 || (vector_nodes(nodes.drop_last()) && vector_node(nodes.last()))
}

/// No operation of `ops` is a raster.
pub open spec fn no_raster(ops: Seq<OpView>) -> bool {
    forall|i: int| 0 <= i < ops.len() ==> !(#[trigger] ops[i] is Raster)
}

proof fn lemma_no_raster_concat(a: Seq<OpView>, b: Seq<OpView>)
    ensures
        no_raster(a + b) == (no_raster(a) && no_raster(b)),
{
    if no_raster(a + b) {
        assert forall|i: int| 0 <= i < a.len() implies !(#[trigger] a[i] is Raster) by {
            assert((a + b)[i] == a[i]);
        }
        assert forall|i: int| 0 <= i < b.len() implies !(#[trigger] b[i] is Raster) by {
            assert((a + b)[i + a.len()] == b[i]);
        }
    }
    if no_raster(a) && no_raster(b) {
        assert forall|i: int| 0 <= i < (a + b).len() implies !(#[trigger] (a + b)[i] is Raster) by {
            if i < a.len() {
                assert((a + b)[i] == a[i]);
            } else {
                assert((a + b)[i] == b[i - a.len()]);
            }
        }
    }
}

proof fn lemma_node_clip_shapes_plain(node: SceneNode, ts: Seq<u64>)
    ensures
        (node_clip_shapes(node, ts) is Some) == plain_clip_node(node),
    decreases node, 0nat,
{
    match node {
        SceneNode::Text(g) => lemma_clip_shapes_plain(g.children@, ts),
        SceneNode::Group(g) => lemma_clip_shapes_plain(g.children@, ts.push(g.transform)),
        _ => {},
    }
}

/// Whether nodes are plain clip shapes does not depend on where they stand.
pub proof fn lemma_clip_shapes_plain(nodes: Seq<SceneNode>, ts: Seq<u64>)
    ensures
        (clip_shapes(nodes, ts) is Some) == plain_clip_nodes(nodes),
    decreases nodes, 1nat,
{
    if nodes.len() > 0 {
        lemma_clip_shapes_plain(nodes.drop_last(), ts);
        lemma_node_clip_shapes_plain(nodes.last(), ts);
    }
}

/// A clip chain has a vector form exactly when every link holds only plain
/// shapes, wherever the clipped group stands.
pub proof fn lemma_clip_chain_plain(clip: SceneClipPath, ts: Seq<u64>)
    ensures
        (clip_chain(clip, ts) is Some) == plain_clip(clip),
    decreases clip,
{
    lemma_clip_shapes_plain(clip.children@, ts.push(clip.transform));
    if let Some(next) = clip.clip_path {
        lemma_clip_chain_plain(*next, ts);
    }
}

proof fn lemma_group_vector(g: SceneGroup, parent: Seq<u64>)
    ensures
        no_raster(group_ops(g, parent)) == vector_group(g),
    decreases g, 0nat,
{
    let ts = parent.push(g.transform);
    let raster = seq![OpView::Raster { node: g.id, parent: parent }];
    assert(raster[0] is Raster);
    if g.filtered || g.masked {
    } else if !g.isolate {
        lemma_walk_vector(g.children@, ts);
    } else {
        if let Some(c) = g.clip_path {
            lemma_clip_chain_plain(c, ts);
        }
        let clips = match g.clip_path {
            None => Some(Seq::<Seq<ShapeView>>::empty()),
            Some(c) => clip_chain(c, ts),
        };
        if let Some(clips) = clips {
            let open = OpView::PushLayer { group: g.id, blend: g.blend, clips: clips };
            lemma_walk_vector(g.children@, ts);
            lemma_no_raster_concat(seq![open], walk(g.children@, ts));
            lemma_no_raster_concat(seq![open] + walk(g.children@, ts), seq![OpView::PopLayer]);
        }
    }
}

proof fn lemma_node_vector(node: SceneNode, ts: Seq<u64>)
    ensures
        no_raster(node_ops(node, ts)) == vector_node(node),
    decreases node, 1nat,
{
    match node {
        SceneNode::Group(g) => lemma_group_vector(g, ts),
        SceneNode::Text(g) => lemma_group_vector(g, ts),
        SceneNode::Path(p) => {
            lemma_path_ops_shape(p, ts);
            if p.visible && path_needs_raster(p) {
                assert(path_ops(p, ts)[0] is Raster);
            }
        },
        SceneNode::Image(i) => {
            if i.visible {
                if let SceneImageKind::Svg(children) = i.kind {
                    lemma_walk_vector(children@, ts);
                }
            }
        },
    }
}

/// What stays vector: the operations of `nodes` hold no raster exactly when
/// no group among them has a filter or a mask, no layer is clipped by a
/// clip path holding a group with a `clip-path` of its own, and no visible
/// path is painted with a pattern or a gradient that repeats or reflects.
pub proof fn lemma_walk_vector(nodes: Seq<SceneNode>, ts: Seq<u64>)
    ensures
        no_raster(walk(nodes, ts)) == vector_nodes(nodes),
    decreases nodes, 2nat,
{
    if nodes.len() > 0 {
        lemma_walk_vector(nodes.drop_last(), ts);
        lemma_node_vector(nodes.last(), ts);
        lemma_no_raster_concat(walk(nodes.drop_last(), ts), node_ops(nodes.last(), ts));
    }
}

// ---------------------------------------------------------------------------
// Paint keeps what it was.
// ---------------------------------------------------------------------------

/// `planned` is `paint` as the list carries it: the same colour, channel for
/// channel, or the same gradient, which spreads by padding.
pub open spec fn carries(paint: ScenePaint, planned: PlannedPaint) -> bool {
    match planned {
        PlannedPaint::Solid(c) => paint == ScenePaint::Color(c),
        PlannedPaint::Linear(g) => paint == ScenePaint::LinearGradient {
            gradient: g,
            spread: SpreadMethod::Pad,
        },
        PlannedPaint::Radial(g) => paint == ScenePaint::RadialGradient {
            gradient: g,
            spread: SpreadMethod::Pad,
        },
    }
}

/// A paint the list cannot carry: a pattern, or a gradient that repeats or
/// reflects past its stops.
pub open spec fn unexpressible(paint: ScenePaint) -> bool {
    match paint {
        ScenePaint::Color(_) => false,
        ScenePaint::LinearGradient { spread, .. } => spread != SpreadMethod::Pad,
        ScenePaint::RadialGradient { spread, .. } => spread != SpreadMethod::Pad,
        ScenePaint::Pattern => true,
    }
}

/// A paint's vector form keeps it: a colour stays that colour, channel for
/// channel; a pad-spread gradient stays that gradient; and a paint has no
/// vector form exactly when it is a pattern or a gradient that repeats or
/// reflects.
pub proof fn lemma_vector_paint_keeps(paint: ScenePaint)
    ensures
        spec_vector_paint(paint) matches Some(planned) ==> carries(paint, planned),
        spec_vector_paint(paint) is None <==> unexpressible(paint),
        forall|c: crate::style::Color|
            paint == ScenePaint::Color(c) ==> spec_vector_paint(paint) == Some(
                PlannedPaint::Solid(c),
            ),
{
}

// ---------------------------------------------------------------------------
// Every operation names a node of the tree, and carries that node's style.
// ---------------------------------------------------------------------------

/// A node's identifier.
pub open spec fn node_id(n: SceneNode) -> u64 {
    match n {
        SceneNode::Group(g) => g.id,
        SceneNode::Text(g) => g.id,
        SceneNode::Path(p) => p.id,
        SceneNode::Image(i) => i.id,
    }
}

/// `n` is `node` or lies beneath it: among a group's or a text's children,
/// in the clip paths a group carries, or in the document an image nests.
pub open spec fn reaches_node(node: SceneNode, n: SceneNode) -> bool
    decreases node, 0nat,
{
    n == node || match node {
        SceneNode::Group(g) => reaches(g.children@, n) || (g.clip_path matches Some(c)
            && chain_reaches(c, n)),
        SceneNode::Text(g) => reaches(g.children@, n) || (g.clip_path matches Some(c)
            && chain_reaches(c, n)),
        SceneNode::Image(i) => match i.kind {
            SceneImageKind::Svg(children) => reaches(children@, n),
            SceneImageKind::Raster(_) => false,
        },
        SceneNode::Path(_) => false,
    }
}

/// `n` is one of `nodes` or lies beneath one of them.
pub open spec fn reaches(nodes: Seq<SceneNode>, n: SceneNode) -> bool
    decreases nodes, 1nat,
{
    nodes.len() > 0 && (reaches(nodes.drop_last(), n) || reaches_node(nodes.last(), n))
}

/// `n` lies in a link of the clip chain `clip`.
pub open spec fn chain_reaches(clip: SceneClipPath, n: SceneNode) -> bool
    decreases clip, 2nat,
{
    reaches(clip.children@, n) || (clip.clip_path matches Some(next) && chain_reaches(*next, n))
}

/// The nodes `nodes` reaches.
pub open spec fn reachable(nodes: Seq<SceneNode>) -> Set<SceneNode> {
    Set::new(|n: SceneNode| reaches(nodes, n))
}

/// The nodes `node` reaches.
pub open spec fn reachable_from(node: SceneNode) -> Set<SceneNode> {
    Set::new(|n: SceneNode| reaches_node(node, n))
}

/// The nodes in the links of the clip chain `clip`.
pub open spec fn chain_reachable(clip: SceneClipPath) -> Set<SceneNode> {
    Set::new(|n: SceneNode| chain_reaches(clip, n))
}

/// `n` is the visible path `id` with area, whose fill has rule `rule`, and
/// whose fill paint, antialiasing and (when it has one) stroke paint are as
/// a fill operation of it carries them.
pub open spec fn is_filled_path(n: SceneNode, id: u64, paint: PlannedPaint, rule: FillRule, antialias: bool) -> bool {
    match n {
        SceneNode::Path(p) => {
            &&& p.id == id
            &&& p.visible
            &&& p.has_area
            &&& p.antialias == antialias
            &&& p.fill matches Some(f) && f.rule == rule && carries(f.paint, paint)
            &&& p.stroke matches Some(s) ==> !unexpressible(s.paint)
        },
        _ => false,
    }
}

/// `n` is the visible path `id` whose stroke has this paint, cap and join,
/// and whose antialiasing and (when it has one) fill paint are as a stroke
/// operation of it carries them.
pub open spec fn is_stroked_path(
    n: SceneNode,
    id: u64,
    paint: PlannedPaint,
    cap: LineCap,
    join: LineJoin,
    antialias: bool,
) -> bool {
    match n {
        SceneNode::Path(p) => {
            &&& p.id == id
            &&& p.visible
            &&& p.antialias == antialias
            &&& p.stroke matches Some(s) && s.cap == cap && s.join == join && carries(s.paint, paint)
            &&& p.fill matches Some(f) ==> !unexpressible(f.paint)
        },
        _ => false,
    }
}

/// `n` is the visible image `id` of pixels encoded in `format`, interpolated
/// when scaled unless its `image-rendering` is `optimizeSpeed`,
/// `crisp-edges` or `pixelated`.
pub open spec fn is_drawn_image(n: SceneNode, id: u64, format: ImageFormat, smooth: bool) -> bool {
    match n {
        SceneNode::Image(i) => {
            &&& i.id == id
            &&& i.visible
            &&& i.kind matches SceneImageKind::Raster(f) && f == format
            &&& smooth == !(i.rendering == ImageRendering::OptimizeSpeed || i.rendering
                == ImageRendering::CrispEdges || i.rendering == ImageRendering::Pixelated)
        },
        _ => false,
    }
}

/// `n` is the group or text `id` with blend mode `blend`, isolated and with
/// neither filter nor mask.
pub open spec fn is_layer_group(n: SceneNode, id: u64, blend: BlendMode) -> bool {
    match n {
        SceneNode::Group(g) => g.id == id && g.isolate && !g.filtered && !g.masked && g.blend == blend,
        SceneNode::Text(g) => g.id == id && g.isolate && !g.filtered && !g.masked && g.blend == blend,
        _ => false,
    }
}

/// `n` is the visible, filled path `id` with area whose fill rule is `rule`:
/// an outline a clip can hold.
pub open spec fn is_clip_outline(n: SceneNode, id: u64, rule: FillRule) -> bool {
    match n {
        SceneNode::Path(p) => p.id == id && p.visible && p.has_area && (p.fill matches Some(f)
            && f.rule == rule),
        _ => false,
    }
}

/// `n` is the node `id`, and something that can be painted as pixels: a
/// group, a text or a path.
pub open spec fn is_raster_node(n: SceneNode, id: u64) -> bool {
    node_id(n) == id && !(n is Image)
}

/// Every shape of `shapes` is the outline of a path among `nodes`, with
/// that path's fill rule.
pub open spec fn shapes_named(shapes: Seq<ShapeView>, nodes: Set<SceneNode>) -> bool {
    forall|j: int| 0 <= j < shapes.len() ==> outline_in(#[trigger] shapes[j], nodes)
}

/// `shape` is the outline of a path among `nodes`, with that path's fill
/// rule.
pub open spec fn outline_in(shape: ShapeView, nodes: Set<SceneNode>) -> bool {
    exists|m: SceneNode| #[trigger] nodes.contains(m) && is_clip_outline(m, shape.path, shape.rule)
}

/// What `op` names is a node among `nodes` of the kind it needs, and the
/// style `op` carries is that node's.
pub open spec fn named(op: OpView, nodes: Set<SceneNode>) -> bool {
    match op {
        OpView::PushLayer { group, blend, clips } => {
            &&& exists|n: SceneNode| #[trigger] nodes.contains(n) && is_layer_group(n, group, blend)
            &&& forall|i: int| 0 <= i < clips.len() ==> shapes_named(#[trigger] clips[i], nodes)
        },
        OpView::PopLayer => true,
        OpView::Fill { path, paint, rule, antialias, .. } => exists|n: SceneNode|
            #[trigger] nodes.contains(n) && is_filled_path(n, path, paint, rule, antialias),
        OpView::Stroke { path, paint, cap, join, antialias, .. } => exists|n: SceneNode|
            #[trigger] nodes.contains(n) && is_stroked_path(n, path, paint, cap, join, antialias),
        OpView::Image { image, format, smooth, .. } => exists|n: SceneNode|
            #[trigger] nodes.contains(n) && is_drawn_image(n, image, format, smooth),
        OpView::Raster { node, .. } => exists|n: SceneNode|
            #[trigger] nodes.contains(n) && is_raster_node(n, node),
    }
}

/// Every operation of `ops` is [`named`] among `nodes`.
pub open spec fn all_named(ops: Seq<OpView>, nodes: Set<SceneNode>) -> bool {
    forall|i: int| 0 <= i < ops.len() ==> named(#[trigger] ops[i], nodes)
}

proof fn lemma_shapes_named_widen(shapes: Seq<ShapeView>, a: Set<SceneNode>, b: Set<SceneNode>)
    requires
        a.subset_of(b),
        shapes_named(shapes, a),
    ensures
        shapes_named(shapes, b),
{
    assert forall|j: int| 0 <= j < shapes.len() implies outline_in(#[trigger] shapes[j], b) by {
        assert(outline_in(shapes[j], a));
        let m = choose|m: SceneNode| #[trigger] a.contains(m) && is_clip_outline(m, shapes[j].path, shapes[j].rule);
        assert(b.contains(m));
    }
}

proof fn lemma_shapes_named_concat(x: Seq<ShapeView>, y: Seq<ShapeView>, nodes: Set<SceneNode>)
    requires
        shapes_named(x, nodes),
        shapes_named(y, nodes),
    ensures
        shapes_named(x + y, nodes),
{
    assert forall|j: int| 0 <= j < (x + y).len() implies outline_in(#[trigger] (x + y)[j], nodes) by {
        if j < x.len() {
            assert((x + y)[j] == x[j]);
            assert(outline_in(x[j], nodes));
        } else {
            assert((x + y)[j] == y[j - x.len()]);
            assert(outline_in(y[j - x.len()], nodes));
        }
    }
}

proof fn lemma_named_widen(ops: Seq<OpView>, a: Set<SceneNode>, b: Set<SceneNode>)
    requires
        a.subset_of(b),
        all_named(ops, a),
    ensures
        all_named(ops, b),
{
    assert forall|i: int| 0 <= i < ops.len() implies named(#[trigger] ops[i], b) by {
        assert(named(ops[i], a));
        match ops[i] {
            OpView::PushLayer { group, blend, clips } => {
                let n = choose|n: SceneNode| #[trigger] a.contains(n) && is_layer_group(n, group, blend);
                assert(b.contains(n));
                assert forall|k: int| 0 <= k < clips.len() implies shapes_named(#[trigger] clips[k], b) by {
                    lemma_shapes_named_widen(clips[k], a, b);
                }
            },
            OpView::PopLayer => {},
            OpView::Fill { path, paint, rule, antialias, .. } => {
                let n = choose|n: SceneNode|
                    #[trigger] a.contains(n) && is_filled_path(n, path, paint, rule, antialias);
                assert(b.contains(n));
            },
            OpView::Stroke { path, paint, cap, join, antialias, .. } => {
                let n = choose|n: SceneNode|
                    #[trigger] a.contains(n) && is_stroked_path(n, path, paint, cap, join, antialias);
                assert(b.contains(n));
            },
            OpView::Image { image, format, smooth, .. } => {
                let n = choose|n: SceneNode| #[trigger] a.contains(n) && is_drawn_image(n, image, format, smooth);
                assert(b.contains(n));
            },
            OpView::Raster { node, .. } => {
                let n = choose|n: SceneNode| #[trigger] a.contains(n) && is_raster_node(n, node);
                assert(b.contains(n));
            },
        }
    }
}

proof fn lemma_all_named_concat(a: Seq<OpView>, b: Seq<OpView>, nodes: Set<SceneNode>)
    requires
        all_named(a, nodes),
        all_named(b, nodes),
    ensures
        all_named(a + b, nodes),
{
    assert forall|i: int| 0 <= i < (a + b).len() implies named(#[trigger] (a + b)[i], nodes) by {
        if i < a.len() {
            assert((a + b)[i] == a[i]);
        } else {
            assert((a + b)[i] == b[i - a.len()]);
        }
    }
}

proof fn lemma_node_clip_shapes_named(node: SceneNode, ts: Seq<u64>)
    ensures
        node_clip_shapes(node, ts) matches Some(shapes) ==> shapes_named(shapes, reachable_from(node)),
    decreases node, 0nat,
{
    let dom = reachable_from(node);
    assert(dom.contains(node));
    match node {
        SceneNode::Path(p) => {
            if p.visible && p.fill is Some && p.has_area {
                let shapes = seq![ShapeView { path: p.id, transform: ts, rule: p.fill->0.rule }];
                assert(is_clip_outline(node, shapes[0].path, shapes[0].rule));
                assert(outline_in(shapes[0], dom));
                assert(shapes_named(shapes, dom));
            }
        },
        SceneNode::Text(g) => {
            lemma_clip_shapes_named(g.children@, ts);
            assert(reachable(g.children@).subset_of(dom));
            if let Some(shapes) = clip_shapes(g.children@, ts) {
                lemma_shapes_named_widen(shapes, reachable(g.children@), dom);
            }
        },
        SceneNode::Group(g) => {
            if g.clip_path is None {
                lemma_clip_shapes_named(g.children@, ts.push(g.transform));
                assert(reachable(g.children@).subset_of(dom));
                if let Some(shapes) = clip_shapes(g.children@, ts.push(g.transform)) {
                    lemma_shapes_named_widen(shapes, reachable(g.children@), dom);
                }
            }
        },
        SceneNode::Image(_) => {},
    }
}

/// Every shape nodes give a clip is the outline of one of their paths, with
/// that path's own fill rule.
pub proof fn lemma_clip_shapes_named(nodes: Seq<SceneNode>, ts: Seq<u64>)
    ensures
        clip_shapes(nodes, ts) matches Some(shapes) ==> shapes_named(shapes, reachable(nodes)),
    decreases nodes, 1nat,
{
    if nodes.len() > 0 {
        let dom = reachable(nodes);
        lemma_clip_shapes_named(nodes.drop_last(), ts);
        lemma_node_clip_shapes_named(nodes.last(), ts);
        assert(reachable(nodes.drop_last()).subset_of(dom));
        assert(reachable_from(nodes.last()).subset_of(dom));
        if let (Some(a), Some(b)) = (clip_shapes(nodes.drop_last(), ts), node_clip_shapes(nodes.last(), ts)) {
            lemma_shapes_named_widen(a, reachable(nodes.drop_last()), dom);
            lemma_shapes_named_widen(b, reachable_from(nodes.last()), dom);
            lemma_shapes_named_concat(a, b, dom);
        }
    } else {
        assert(shapes_named(Seq::<ShapeView>::empty(), reachable(nodes)));
    }
}

/// Every shape of every clip of a clip chain is the outline of a path in
/// one of its links, with that path's own fill rule.
pub proof fn lemma_clip_chain_named(clip: SceneClipPath, ts: Seq<u64>)
    ensures
        clip_chain(clip, ts) matches Some(clips) ==> forall|i: int|
            0 <= i < clips.len() ==> shapes_named(#[trigger] clips[i], chain_reachable(clip)),
    decreases clip,
{
    let dom = chain_reachable(clip);
    lemma_clip_shapes_named(clip.children@, ts.push(clip.transform));
    assert(reachable(clip.children@).subset_of(dom));
    if let Some(shapes) = clip_shapes(clip.children@, ts.push(clip.transform)) {
        lemma_shapes_named_widen(shapes, reachable(clip.children@), dom);
        if let Some(next) = clip.clip_path {
            lemma_clip_chain_named(*next, ts);
            assert(chain_reachable(*next).subset_of(dom));
            if let Some(rest) = clip_chain(*next, ts) {
                let all = seq![shapes] + rest;
                assert forall|i: int| 0 <= i < all.len() implies shapes_named(#[trigger] all[i], dom) by {
                    if i > 0 {
                        assert(all[i] == rest[i - 1]);
                        lemma_shapes_named_widen(rest[i - 1], chain_reachable(*next), dom);
                    }
                }
            }
        } else {
            let all = seq![shapes];
            assert forall|i: int| 0 <= i < all.len() implies shapes_named(#[trigger] all[i], dom) by {}
        }
    }
}

proof fn lemma_group_named(g: SceneGroup, parent: Seq<u64>, node: SceneNode)
    requires
        node == SceneNode::Group(g) || node == SceneNode::Text(g),
    ensures
        all_named(group_ops(g, parent), reachable_from(node)),
    decreases g, 0nat,
{
    let ts = parent.push(g.transform);
    let dom = reachable_from(node);
    assert(dom.contains(node));
    assert(reachable(g.children@).subset_of(dom));
    if g.filtered || g.masked {
        assert(is_raster_node(node, g.id));
    } else if !g.isolate {
        lemma_walk_named(g.children@, ts);
        lemma_named_widen(walk(g.children@, ts), reachable(g.children@), dom);
    } else {
        assert(is_raster_node(node, g.id));
        let clips = match g.clip_path {
            None => Some(Seq::<Seq<ShapeView>>::empty()),
            Some(c) => clip_chain(c, ts),
        };
        if let Some(clips) = clips {
            let open = OpView::PushLayer { group: g.id, blend: g.blend, clips: clips };
            assert(is_layer_group(node, g.id, g.blend));
            if let Some(c) = g.clip_path {
                lemma_clip_chain_named(c, ts);
                assert(chain_reachable(c).subset_of(dom));
                assert forall|i: int| 0 <= i < clips.len() implies shapes_named(#[trigger] clips[i], dom) by {
                    lemma_shapes_named_widen(clips[i], chain_reachable(c), dom);
                }
            }
            assert(named(open, dom));
            assert(all_named(seq![open], dom));
            assert(all_named(seq![OpView::PopLayer], dom));
            lemma_walk_named(g.children@, ts);
            lemma_named_widen(walk(g.children@, ts), reachable(g.children@), dom);
            lemma_all_named_concat(seq![open], walk(g.children@, ts), dom);
            lemma_all_named_concat(seq![open] + walk(g.children@, ts), seq![OpView::PopLayer], dom);
        }
    }
}

proof fn lemma_node_named(node: SceneNode, ts: Seq<u64>)
    ensures
        all_named(node_ops(node, ts), reachable_from(node)),
    decreases node, 1nat,
{
    let dom = reachable_from(node);
    assert(dom.contains(node));
    match node {
        SceneNode::Group(g) => lemma_group_named(g, ts, node),
        SceneNode::Text(g) => lemma_group_named(g, ts, node),
        SceneNode::Path(p) => {
            lemma_path_ops_shape(p, ts);
            let ops = path_ops(p, ts);
            if let Some(f) = p.fill {
                lemma_vector_paint_keeps(f.paint);
            }
            if let Some(s) = p.stroke {
                lemma_vector_paint_keeps(s.paint);
            }
            assert forall|i: int| 0 <= i < ops.len() implies named(#[trigger] ops[i], dom) by {
                match ops[i] {
                    OpView::Fill { path, paint, rule, antialias, .. } => {
                        assert(is_filled_path(node, path, paint, rule, antialias));
                    },
                    OpView::Stroke { path, paint, cap, join, antialias, .. } => {
                        assert(is_stroked_path(node, path, paint, cap, join, antialias));
                    },
                    OpView::Raster { .. } => assert(is_raster_node(node, p.id)),
                    _ => {},
                }
            }
        },
        SceneNode::Image(i) => {
            if i.visible {
                match i.kind {
                    SceneImageKind::Svg(children) => {
                        assert(reachable(children@).subset_of(dom));
                        lemma_walk_named(children@, ts);
                        lemma_named_widen(walk(children@, ts), reachable(children@), dom);
                    },
                    SceneImageKind::Raster(format) => {
                        let op = node_ops(node, ts)[0];
                        assert(is_drawn_image(node, i.id, format, op->Image_smooth));
                    },
                }
            }
        },
    }
}

/// Nothing invented, nothing restyled: every operation of the walk names a
/// node of the walked tree of the kind it needs, and carries that node's own
/// style. A fill names a visible path with area and carries that path's
/// fill paint (the same colour, channel for channel, or the same pad-spread
/// gradient), its fill rule and its antialiasing; a stroke carries its
/// path's stroke paint, cap, join and antialiasing; an image carries its
/// image's format, and is smooth unless its `image-rendering` is
/// `optimizeSpeed`, `crisp-edges` or `pixelated`; a layer names an
/// isolated group with neither filter nor mask and carries its blend mode,
/// and every shape of its clips is the outline of a visible, filled path
/// with area in the group's clip chain, carrying that path's fill rule; a
/// raster names a group, a text or a path.
pub proof fn lemma_walk_named(nodes: Seq<SceneNode>, ts: Seq<u64>)
    ensures
        all_named(walk(nodes, ts), reachable(nodes)),
    decreases nodes, 2nat,
{
    if nodes.len() > 0 {
        let dom = reachable(nodes);
        lemma_walk_named(nodes.drop_last(), ts);
        lemma_node_named(nodes.last(), ts);
        assert(reachable(nodes.drop_last()).subset_of(dom));
        assert(reachable_from(nodes.last()).subset_of(dom));
        lemma_named_widen(walk(nodes.drop_last(), ts), reachable(nodes.drop_last()), dom);
        lemma_named_widen(node_ops(nodes.last(), ts), reachable_from(nodes.last()), dom);
        lemma_all_named_concat(walk(nodes.drop_last(), ts), node_ops(nodes.last(), ts), dom);
    }
}

} // verus!
