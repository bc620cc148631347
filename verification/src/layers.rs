//! How a replayer walks a display list's layers.
//!
//! A replayer draws each operation onto the innermost open layer, or onto the
//! canvas when none is open; a `PushLayer` opens a fresh surface, a
//! `PopLayer` composites the innermost one onto whatever is beneath it. It
//! tolerates lists it did not get from the walk: a stray `PopLayer` is
//! ignored, and layers still open at the end are composited then, innermost
//! first. This module is that discipline, as the sequence of steps a replayer
//! takes; the pixels are the replayer's.

use vstd::prelude::*;

use crate::laws::{balanced, depth};
use crate::plan::{walk, OpView};
use crate::scene::SceneNode;

verus! {

/// What a replayer needs to know of an operation.
#[derive(Clone, Copy, Debug, PartialEq, Eq, Structural)]
pub enum OpKind {
    PushLayer,
    PopLayer,
    /// Anything drawn: a fill, a stroke, an image, a raster.
    Draw,
}

/// One step of a replay. Layers are named by the position of the
/// `PushLayer` that began them; a target of `None` is the canvas.
#[derive(Clone, Copy, Debug, PartialEq, Eq, Structural)]
pub enum ReplayStep {
    /// Open a fresh, transparent surface for a layer.
    Open { layer: usize },
    /// Draw the operation at position `op` onto `target`.
    Draw { op: usize, target: Option<usize> },
    /// Clip the layer's surface by its clips and blend it onto `target`.
    Composite { layer: usize, target: Option<usize> },
}

/// The surface drawn on now: the innermost open layer, or the canvas.
pub open spec fn top(stack: Seq<usize>) -> Option<usize> {
    if stack.len() == 0 {
        None
    } else {
        Some(stack.last())
    }
}

/// The open layers and the steps taken after `kinds`, when fresh surfaces
/// can (`surfaces`) or cannot be had. A `PushLayer` with no surface to be
/// had opens nothing; a `PopLayer` with nothing open is ignored.
pub open spec fn replay_state(kinds: Seq<OpKind>, surfaces: bool) -> (Seq<usize>, Seq<ReplayStep>)
    decreases kinds.len(),
{
    if kinds.len() == 0 {
        (Seq::empty(), Seq::empty())
    } else {
        let (stack, steps) = replay_state(kinds.drop_last(), surfaces);
        let i = (kinds.len() - 1) as usize;
        match kinds.last() {
            OpKind::PushLayer => if surfaces {
                (stack.push(i), steps.push(ReplayStep::Open { layer: i }))
            } else {
                (stack, steps)
            },
            OpKind::PopLayer => if stack.len() == 0 {
                (stack, steps)
            } else {
                (
                    stack.drop_last(),
                    steps.push(ReplayStep::Composite { layer: stack.last(), target: top(stack.drop_last()) }),
                )
            },
            OpKind::Draw => (stack, steps.push(ReplayStep::Draw { op: i, target: top(stack) })),
        }
    }
}

/// The composites of the layers still open at the end, innermost first.
pub open spec fn flush(stack: Seq<usize>) -> Seq<ReplayStep>
    decreases stack.len(),
{
    if stack.len() == 0 {
        Seq::empty()
    } else {
        seq![ReplayStep::Composite { layer: stack.last(), target: top(stack.drop_last()) }]
            + flush(stack.drop_last())
    }
}

/// Every step of replaying `kinds`.
pub open spec fn spec_replay_steps(kinds: Seq<OpKind>, surfaces: bool) -> Seq<ReplayStep> {
    replay_state(kinds, surfaces).1 + flush(replay_state(kinds, surfaces).0)
}

fn top_of(stack: &Vec<usize>) -> (t: Option<usize>)
    ensures
        t == top(stack@),
{
    if stack.len() == 0 {
        None
    } else {
        Some(stack[stack.len() - 1])
    }
}

/// The steps a replayer takes through a list whose operations are of
/// `kinds`: each drawn operation onto the innermost open layer, each layer
/// composited onto the one beneath when it is popped, a stray pop ignored,
/// and the layers left open composited at the end, innermost first.
/// `surfaces` is whether a fresh surface can be had for a layer; when it
/// cannot, a `PushLayer` opens nothing and what follows draws on through.
pub fn replay_steps(kinds: &Vec<OpKind>, surfaces: bool) -> (steps: Vec<ReplayStep>)
    ensures
        steps@ == spec_replay_steps(kinds@, surfaces),
{
    let mut stack: Vec<usize> = Vec::new();
    let mut steps: Vec<ReplayStep> = Vec::new();
    let mut i: usize = 0;
    assert(kinds@.take(0) =~= Seq::<OpKind>::empty());
    while i < kinds.len()
        invariant
            i <= kinds.len(),
            (stack@, steps@) == replay_state(kinds@.take(i as int), surfaces),
        decreases kinds.len() - i,
    {
        assert(kinds@.take(i + 1).drop_last() =~= kinds@.take(i as int));
        match kinds[i] {
            OpKind::PushLayer => {
                if surfaces {
                    stack.push(i);
                    steps.push(ReplayStep::Open { layer: i });
                }
            },
            OpKind::PopLayer => {
                if stack.len() > 0 {
                    let layer = stack.pop().unwrap();
                    let target = top_of(&stack);
                    steps.push(ReplayStep::Composite { layer, target });
                }
            },
            OpKind::Draw => {
                let target = top_of(&stack);
                steps.push(ReplayStep::Draw { op: i, target });
            },
        }
        i += 1;
    }
    assert(kinds@.take(kinds.len() as int) =~= kinds@);
    // Layers the list forgot to pop.
    let ghost middle = steps@;
    let ghost open = stack@;
    assert(steps@ + flush(stack@) =~= middle + flush(open));
    while stack.len() > 0
        invariant
            steps@ + flush(stack@) == middle + flush(open),
        decreases stack.len(),
    {
        let layer = stack.pop().unwrap();
        let target = top_of(&stack);
        steps.push(ReplayStep::Composite { layer, target });
        assert(steps@ + flush(stack@) =~= middle + flush(open));
    }
    assert(flush(stack@) =~= Seq::<ReplayStep>::empty());
    assert(steps@ =~= steps@ + flush(stack@));
    steps
}

// ---------------------------------------------------------------------------
// What every replay does.
// ---------------------------------------------------------------------------

/// The positions of the drawn operations among `kinds`, in order.
pub open spec fn draw_positions(kinds: Seq<OpKind>) -> Seq<usize>
    decreases kinds.len(),
{
    if kinds.len() == 0 {
        Seq::empty()
    } else {
        draw_positions(kinds.drop_last()) + if kinds.last() == OpKind::Draw {
            seq![(kinds.len() - 1) as usize]
        } else {
            Seq::empty()
        }
    }
}

/// The operations `steps` draws, in order.
pub open spec fn drawn(steps: Seq<ReplayStep>) -> Seq<usize>
    decreases steps.len(),
{
    if steps.len() == 0 {
        Seq::empty()
    } else {
        drawn(steps.drop_last()) + match steps.last() {
            ReplayStep::Draw { op, .. } => seq![op],
            _ => Seq::empty(),
        }
    }
}

/// The layers `steps` opens, in order.
pub open spec fn opened(steps: Seq<ReplayStep>) -> Seq<usize>
    decreases steps.len(),
{
    if steps.len() == 0 {
        Seq::empty()
    } else {
        opened(steps.drop_last()) + match steps.last() {
            ReplayStep::Open { layer } => seq![layer],
            _ => Seq::empty(),
        }
    }
}

/// The layers `steps` composites, in order.
pub open spec fn composited(steps: Seq<ReplayStep>) -> Seq<usize>
    decreases steps.len(),
{
    if steps.len() == 0 {
        Seq::empty()
    } else {
        composited(steps.drop_last()) + match steps.last() {
            ReplayStep::Composite { layer, .. } => seq![layer],
            _ => Seq::empty(),
        }
    }
}

proof fn lemma_filters_add(a: Seq<ReplayStep>, b: Seq<ReplayStep>)
    ensures
        drawn(a + b) == drawn(a) + drawn(b),
        opened(a + b) == opened(a) + opened(b),
        composited(a + b) == composited(a) + composited(b),
    decreases b.len(),
{
    if b.len() == 0 {
        assert(a + b =~= a);
        assert(drawn(a) + drawn(b) =~= drawn(a));
        assert(opened(a) + opened(b) =~= opened(a));
        assert(composited(a) + composited(b) =~= composited(a));
    } else {
        assert((a + b).drop_last() =~= a + b.drop_last());
        assert((a + b).last() == b.last());
        lemma_filters_add(a, b.drop_last());
        assert(drawn(a + b) =~= drawn(a) + drawn(b));
        assert(opened(a + b) =~= opened(a) + opened(b));
        assert(composited(a + b) =~= composited(a) + composited(b));
    }
}

proof fn lemma_filters_single(step: ReplayStep)
    ensures
        drawn(seq![step]) == match step {
            ReplayStep::Draw { op, .. } => seq![op],
            _ => Seq::<usize>::empty(),
        },
        opened(seq![step]) == match step {
            ReplayStep::Open { layer } => seq![layer],
            _ => Seq::<usize>::empty(),
        },
        composited(seq![step]) == match step {
            ReplayStep::Composite { layer, .. } => seq![layer],
            _ => Seq::<usize>::empty(),
        },
{
    let s = seq![step];
    assert(s.drop_last() =~= Seq::<ReplayStep>::empty());
    assert(drawn(s) =~= drawn(s.drop_last()) + drawn(s).skip(0));
    assert(opened(s) =~= opened(s.drop_last()) + opened(s).skip(0));
    assert(composited(s) =~= composited(s.drop_last()) + composited(s).skip(0));
}

proof fn lemma_push_filters(steps: Seq<ReplayStep>, step: ReplayStep)
    ensures
        drawn(steps.push(step)) == drawn(steps) + drawn(seq![step]),
        opened(steps.push(step)) == opened(steps) + opened(seq![step]),
        composited(steps.push(step)) == composited(steps) + composited(seq![step]),
{
    assert(steps.push(step) =~= steps + seq![step]);
    lemma_filters_add(steps, seq![step]);
}

proof fn lemma_flush_filters(stack: Seq<usize>)
    ensures
        drawn(flush(stack)) == Seq::<usize>::empty(),
        opened(flush(stack)) == Seq::<usize>::empty(),
        composited(flush(stack)).to_multiset() == stack.to_multiset(),
    decreases stack.len(),
{
    broadcast use vstd::seq_lib::group_to_multiset_ensures;

    if stack.len() == 0 {
        assert(drawn(flush(stack)) =~= Seq::<usize>::empty());
    } else {
        let first = ReplayStep::Composite { layer: stack.last(), target: top(stack.drop_last()) };
        lemma_flush_filters(stack.drop_last());
        lemma_filters_add(seq![first], flush(stack.drop_last()));
        lemma_filters_single(first);
        assert(drawn(flush(stack)) =~= Seq::<usize>::empty());
        assert(opened(flush(stack)) =~= Seq::<usize>::empty());
        vstd::seq_lib::lemma_multiset_commutative(seq![stack.last()], composited(flush(stack.drop_last())));
        assert(seq![stack.last()] + composited(flush(stack.drop_last())) =~= seq![stack.last()].add(
            composited(flush(stack.drop_last())),
        ));
        assert(stack.drop_last().push(stack.last()) =~= stack);
        assert(composited(flush(stack.drop_last())).push(stack.last()) =~= composited(
            flush(stack.drop_last()),
        ) + seq![stack.last()]);
    }
}

/// Invariant of a replay in progress: what is drawn so far is every drawn
/// operation so far; the layers opened are the layers composited plus the
/// ones still open; layers open are stacked in the order they began, all
/// before the current position.
proof fn lemma_replay_state(kinds: Seq<OpKind>, surfaces: bool)
    requires
        kinds.len() <= usize::MAX,
    ensures
        ({
            let (stack, steps) = replay_state(kinds, surfaces);
            &&& drawn(steps) == draw_positions(kinds)
            &&& opened(steps).to_multiset() == composited(steps).to_multiset().add(stack.to_multiset())
            &&& forall|a: int, b: int|
                0 <= a < b < opened(steps).len() ==> opened(steps)[a] < opened(steps)[b]
            &&& forall|a: int| 0 <= a < opened(steps).len() ==> opened(steps)[a] < kinds.len()
            &&& forall|a: int| 0 <= a < stack.len() ==> stack[a] < kinds.len()
        }),
    decreases kinds.len(),
{
    broadcast use vstd::seq_lib::group_to_multiset_ensures;

    if kinds.len() == 0 {
        assert(drawn(Seq::<ReplayStep>::empty()) =~= draw_positions(kinds));
        assert(opened(Seq::<ReplayStep>::empty()).to_multiset() =~= composited(
            Seq::<ReplayStep>::empty(),
        ).to_multiset().add(Seq::<usize>::empty().to_multiset()));
    } else {
        lemma_replay_state(kinds.drop_last(), surfaces);
        let (stack, steps) = replay_state(kinds.drop_last(), surfaces);
        let i = (kinds.len() - 1) as usize;
        let rest = draw_positions(kinds.drop_last());
        match kinds.last() {
            OpKind::PushLayer => {
                if surfaces {
                    let step = ReplayStep::Open { layer: i };
                    lemma_push_filters(steps, step);
                    lemma_filters_single(step);
                    assert(draw_positions(kinds) =~= rest);
                    assert(drawn(steps.push(step)) =~= drawn(steps));
                    assert(composited(steps.push(step)) =~= composited(steps));
                    assert(opened(steps.push(step)) =~= opened(steps).push(i));
                    let o = opened(steps);
                    assert forall|a: int, b: int| 0 <= a < b < o.push(i).len() implies o.push(i)[a] < o.push(i)[b] by {
                        assert(o.push(i)[a] == o[a]);
                        if b == o.len() {
                            assert(o[a] < kinds.drop_last().len());
                            assert(o.push(i)[b] == i);
                        } else {
                            assert(o.push(i)[b] == o[b]);
                            assert(o[a] < o[b]);
                        }
                    }
                    assert(opened(steps.push(step)).to_multiset() =~= composited(steps.push(step)).to_multiset().add(
                        stack.push(i).to_multiset(),
                    ));
                } else {
                    assert(draw_positions(kinds) =~= rest);
                }
            },
            OpKind::PopLayer => {
                assert(draw_positions(kinds) =~= rest);
                if stack.len() > 0 {
                    let step = ReplayStep::Composite { layer: stack.last(), target: top(stack.drop_last()) };
                    lemma_push_filters(steps, step);
                    lemma_filters_single(step);
                    assert(drawn(steps.push(step)) =~= drawn(steps));
                    assert(opened(steps.push(step)) =~= opened(steps));
                    assert(composited(steps.push(step)) =~= composited(steps).push(stack.last()));
                    assert(stack.drop_last().push(stack.last()) =~= stack);
                    assert(opened(steps.push(step)).to_multiset() =~= composited(steps.push(step)).to_multiset().add(
                        stack.drop_last().to_multiset(),
                    ));
                }
            },
            OpKind::Draw => {
                let step = ReplayStep::Draw { op: i, target: top(stack) };
                lemma_push_filters(steps, step);
                lemma_filters_single(step);
                assert(draw_positions(kinds) =~= rest.push(i));
                assert(drawn(steps.push(step)) =~= drawn(steps).push(i));
                assert(opened(steps.push(step)) =~= opened(steps));
                assert(composited(steps.push(step)) =~= composited(steps));
            },
        }
    }
}

/// Nothing drawn is lost and every layer is finished: replaying any list
/// draws exactly its drawn operations, in order, and composites exactly the
/// layers it opened, each once, a layer never being opened twice. (A list
/// is no longer than a `Vec` can be.)
pub proof fn lemma_replay_complete(kinds: Seq<OpKind>, surfaces: bool)
    requires
        kinds.len() <= usize::MAX,
    ensures
        drawn(spec_replay_steps(kinds, surfaces)) == draw_positions(kinds),
        opened(spec_replay_steps(kinds, surfaces)).to_multiset() == composited(
            spec_replay_steps(kinds, surfaces),
        ).to_multiset(),
        opened(spec_replay_steps(kinds, surfaces)).no_duplicates(),
{
    broadcast use vstd::seq_lib::group_to_multiset_ensures;

    lemma_replay_state(kinds, surfaces);
    let (stack, steps) = replay_state(kinds, surfaces);
    lemma_flush_filters(stack);
    lemma_filters_add(steps, flush(stack));
    assert(drawn(steps) + drawn(flush(stack)) =~= drawn(steps));
    assert(opened(steps) + opened(flush(stack)) =~= opened(steps));
    vstd::seq_lib::lemma_multiset_commutative(composited(steps), composited(flush(stack)));
    let all = opened(steps);
    assert forall|a: int, b: int| 0 <= a < all.len() && 0 <= b < all.len() && a != b implies all[a] != all[b] by {
        if a < b {
            assert(all[a] < all[b]);
        } else {
            assert(all[b] < all[a]);
        }
    }
}

// ---------------------------------------------------------------------------
// A list from the walk replays with nothing forgotten and nothing stray.
// ---------------------------------------------------------------------------

/// The kind of an operation.
pub open spec fn kind_of(op: OpView) -> OpKind {
    match op {
        OpView::PushLayer { .. } => OpKind::PushLayer,
        OpView::PopLayer => OpKind::PopLayer,
        _ => OpKind::Draw,
    }
}

/// The kinds of `ops`, in order.
pub open spec fn op_kinds(ops: Seq<OpView>) -> Seq<OpKind> {
    Seq::new(ops.len(), |i: int| kind_of(ops[i]))
}

/// The number of `PopLayer`s among `ops`.
pub open spec fn pops(ops: Seq<OpView>) -> nat
    decreases ops.len(),
{
    if ops.len() == 0 {
        0
    } else {
        pops(ops.drop_last()) + if ops.last() is PopLayer {
            1nat
        } else {
            0nat
        }
    }
}

proof fn lemma_replay_depth(ops: Seq<OpView>)
    requires
        ops.len() <= usize::MAX,
        forall|i: int| 0 <= i <= ops.len() ==> #[trigger] depth(ops.take(i)) >= 0,
    ensures
        replay_state(op_kinds(ops), true).0.len() == depth(ops),
        composited(replay_state(op_kinds(ops), true).1).len() == pops(ops),
    decreases ops.len(),
{
    if ops.len() == 0 {
        assert(op_kinds(ops) =~= Seq::<OpKind>::empty());
    } else {
        let prev = ops.drop_last();
        assert forall|i: int| 0 <= i <= prev.len() implies #[trigger] depth(prev.take(i)) >= 0 by {
            assert(prev.take(i) =~= ops.take(i));
        }
        lemma_replay_depth(prev);
        assert(op_kinds(ops).drop_last() =~= op_kinds(prev));
        assert(ops.take(ops.len() as int) =~= ops);
        let (stack, steps) = replay_state(op_kinds(prev), true);
        match ops.last() {
            OpView::PushLayer { .. } => {
                let step = ReplayStep::Open { layer: (ops.len() - 1) as usize };
                lemma_push_filters(steps, step);
                lemma_filters_single(step);
            },
            OpView::PopLayer => {
                let step = ReplayStep::Composite { layer: stack.last(), target: top(stack.drop_last()) };
                lemma_push_filters(steps, step);
                lemma_filters_single(step);
            },
            _ => {
                let step = ReplayStep::Draw { op: (ops.len() - 1) as usize, target: top(stack) };
                lemma_push_filters(steps, step);
                lemma_filters_single(step);
            },
        }
    }
}

/// A balanced list replays cleanly: with surfaces to be had, no `PopLayer`
/// is ignored (every one composites a layer) and no layer is left open for
/// the end, so the replay is exactly the steps the list asked for.
pub proof fn lemma_balanced_replay(ops: Seq<OpView>)
    requires
        balanced(ops),
        ops.len() <= usize::MAX,
    ensures
        replay_state(op_kinds(ops), true).0.len() == 0,
        spec_replay_steps(op_kinds(ops), true) == replay_state(op_kinds(ops), true).1,
        composited(spec_replay_steps(op_kinds(ops), true)).len() == pops(ops),
{
    lemma_replay_depth(ops);
    let (stack, steps) = replay_state(op_kinds(ops), true);
    assert(flush(stack) =~= Seq::<ReplayStep>::empty());
    assert(steps + flush(stack) =~= steps);
}

/// The list the walk makes of any tree replays cleanly: every layer it
/// opens is closed by its own `PopLayer`, none at the end.
pub proof fn lemma_plan_replays_cleanly(root: Seq<SceneNode>)
    requires
        walk(root, Seq::empty()).len() <= usize::MAX,
    ensures
        ({
            let ops = walk(root, Seq::empty());
            &&& replay_state(op_kinds(ops), true).0.len() == 0
            &&& spec_replay_steps(op_kinds(ops), true) == replay_state(op_kinds(ops), true).1
            &&& composited(spec_replay_steps(op_kinds(ops), true)).len() == pops(ops)
        }),
{
    crate::laws::lemma_walk_balanced(root, Seq::empty());
    lemma_balanced_replay(walk(root, Seq::empty()));
}

// ---------------------------------------------------------------------------
// Layers composite onto the layer beneath.
// ---------------------------------------------------------------------------

/// The layers open after `steps`: opened and not yet composited.
pub open spec fn open_layers(steps: Seq<ReplayStep>) -> Set<usize>
    decreases steps.len(),
{
    if steps.len() == 0 {
        Set::empty()
    } else {
        let before = open_layers(steps.drop_last());
        match steps.last() {
            ReplayStep::Open { layer } => before.insert(layer),
            ReplayStep::Composite { layer, .. } => before.remove(layer),
            ReplayStep::Draw { .. } => before,
        }
    }
}

/// `target` is the innermost of the `open` layers — the one begun last — or
/// the canvas when none is open.
pub open spec fn innermost(target: Option<usize>, open: Set<usize>) -> bool {
    match target {
        None => forall|u: usize| !#[trigger] open.contains(u),
        Some(t) => open.contains(t) && forall|u: usize| #[trigger] open.contains(u) ==> u <= t,
    }
}

/// A step keeps the layers nested, given the layers `open` before it: a
/// layer opens inside every open one; a draw lands on the innermost open
/// layer; a composite finishes the innermost open layer and blends it onto
/// the innermost of those still open after it, or onto the canvas.
pub open spec fn step_nests(step: ReplayStep, open: Set<usize>) -> bool {
    match step {
        ReplayStep::Open { layer } => forall|u: usize| #[trigger] open.contains(u) ==> u < layer,
        ReplayStep::Draw { target, .. } => innermost(target, open),
        ReplayStep::Composite { layer, target } => innermost(Some(layer), open) && innermost(
            target,
            open.remove(layer),
        ),
    }
}

/// Every step of `steps` keeps the layers nested.
pub open spec fn nested(steps: Seq<ReplayStep>) -> bool {
    forall|k: int| 0 <= k < steps.len() ==> step_nests(#[trigger] steps[k], open_layers(steps.take(k)))
}

/// The layers `stack` holds are `open`, begun in order.
pub open spec fn stack_is(stack: Seq<usize>, open: Set<usize>) -> bool {
    &&& forall|u: usize| #[trigger] open.contains(u) <==> stack.contains(u)
    &&& forall|a: int, b: int| 0 <= a < b < stack.len() ==> stack[a] < stack[b]
}

proof fn lemma_nested_push(steps: Seq<ReplayStep>, step: ReplayStep)
    requires
        nested(steps),
        step_nests(step, open_layers(steps)),
    ensures
        nested(steps.push(step)),
        open_layers(steps.push(step)) == match step {
            ReplayStep::Open { layer } => open_layers(steps).insert(layer),
            ReplayStep::Composite { layer, .. } => open_layers(steps).remove(layer),
            ReplayStep::Draw { .. } => open_layers(steps),
        },
{
    let all = steps.push(step);
    assert(all.drop_last() =~= steps);
    assert forall|k: int| 0 <= k < all.len() implies step_nests(#[trigger] all[k], open_layers(all.take(k))) by {
        if k < steps.len() {
            assert(all.take(k) =~= steps.take(k));
        } else {
            assert(all.take(k) =~= steps);
        }
    }
}

proof fn lemma_top_innermost(stack: Seq<usize>, open: Set<usize>)
    requires
        stack_is(stack, open),
    ensures
        innermost(top(stack), open),
{
    if stack.len() == 0 {
        assert forall|u: usize| !#[trigger] open.contains(u) by {
            if open.contains(u) {
                assert(stack.contains(u));
            }
        }
    } else {
        assert(stack.contains(stack.last()));
        assert forall|u: usize| #[trigger] open.contains(u) implies u <= stack.last() by {
            assert(stack.contains(u));
            let a = choose|a: int| 0 <= a < stack.len() && stack[a] == u;
            if a < stack.len() - 1 {
                assert(stack[a] < stack[stack.len() - 1]);
            }
        }
    }
}

/// Popping the innermost layer: the composite it takes keeps the layers
/// nested, and the rest of the stack is what stays open.
proof fn lemma_pop_nests(stack: Seq<usize>, open: Set<usize>)
    requires
        stack_is(stack, open),
        stack.len() > 0,
    ensures
        step_nests(ReplayStep::Composite { layer: stack.last(), target: top(stack.drop_last()) }, open),
        stack_is(stack.drop_last(), open.remove(stack.last())),
{
    let rest = stack.drop_last();
    lemma_top_innermost(stack, open);
    assert forall|u: usize| #[trigger] open.remove(stack.last()).contains(u) <==> rest.contains(u) by {
        if rest.contains(u) {
            let a = choose|a: int| 0 <= a < rest.len() && rest[a] == u;
            assert(stack[a] == u);
            assert(stack[a] < stack[stack.len() - 1]);
            assert(stack.contains(u));
        }
        if open.remove(stack.last()).contains(u) {
            assert(stack.contains(u));
            let a = choose|a: int| 0 <= a < stack.len() && stack[a] == u;
            assert(a != stack.len() - 1);
            assert(rest[a] == u);
        }
    }
    lemma_top_innermost(rest, open.remove(stack.last()));
}

proof fn lemma_replay_nested(kinds: Seq<OpKind>, surfaces: bool)
    requires
        kinds.len() <= usize::MAX,
    ensures
        ({
            let (stack, steps) = replay_state(kinds, surfaces);
            &&& nested(steps)
            &&& stack_is(stack, open_layers(steps))
            &&& forall|a: int| 0 <= a < stack.len() ==> stack[a] < kinds.len()
        }),
    decreases kinds.len(),
{
    if kinds.len() == 0 {
        let e = Seq::<ReplayStep>::empty();
        assert(nested(e));
        assert forall|u: usize| #[trigger] open_layers(e).contains(u) <==> Seq::<usize>::empty().contains(u) by {}
    } else {
        lemma_replay_nested(kinds.drop_last(), surfaces);
        let (stack, steps) = replay_state(kinds.drop_last(), surfaces);
        let open = open_layers(steps);
        let i = (kinds.len() - 1) as usize;
        match kinds.last() {
            OpKind::PushLayer => {
                if surfaces {
                    let step = ReplayStep::Open { layer: i };
                    assert forall|u: usize| #[trigger] open.contains(u) implies u < i by {
                        assert(stack.contains(u));
                    }
                    lemma_nested_push(steps, step);
                    let grown = stack.push(i);
                    assert forall|u: usize| #[trigger] open.insert(i).contains(u) <==> grown.contains(u) by {
                        if u == i {
                            assert(grown[stack.len() as int] == i);
                        }
                        if stack.contains(u) {
                            let a = choose|a: int| 0 <= a < stack.len() && stack[a] == u;
                            assert(grown[a] == u);
                        }
                        if grown.contains(u) {
                            let a = choose|a: int| 0 <= a < grown.len() && grown[a] == u;
                            if a < stack.len() {
                                assert(stack[a] == u);
                            }
                        }
                    }
                    assert forall|a: int, b: int| 0 <= a < b < grown.len() implies grown[a] < grown[b] by {
                        if b == stack.len() {
                            assert(stack[a] < kinds.drop_last().len());
                        }
                    }
                }
            },
            OpKind::PopLayer => {
                if stack.len() > 0 {
                    lemma_pop_nests(stack, open);
                    let step = ReplayStep::Composite { layer: stack.last(), target: top(stack.drop_last()) };
                    lemma_nested_push(steps, step);
                }
            },
            OpKind::Draw => {
                lemma_top_innermost(stack, open);
                let step = ReplayStep::Draw { op: i, target: top(stack) };
                lemma_nested_push(steps, step);
            },
        }
    }
}

proof fn lemma_flush_nested(steps: Seq<ReplayStep>, stack: Seq<usize>)
    requires
        nested(steps),
        stack_is(stack, open_layers(steps)),
    ensures
        nested(steps + flush(stack)),
        forall|u: usize| !#[trigger] open_layers(steps + flush(stack)).contains(u),
    decreases stack.len(),
{
    if stack.len() == 0 {
        assert(steps + flush(stack) =~= steps);
        assert forall|u: usize| !#[trigger] open_layers(steps).contains(u) by {
            if open_layers(steps).contains(u) {
                assert(stack.contains(u));
            }
        }
    } else {
        let step = ReplayStep::Composite { layer: stack.last(), target: top(stack.drop_last()) };
        lemma_pop_nests(stack, open_layers(steps));
        lemma_nested_push(steps, step);
        lemma_flush_nested(steps.push(step), stack.drop_last());
        assert(steps + flush(stack) =~= steps.push(step) + flush(stack.drop_last()));
    }
}

/// Layers composite onto the layer beneath: in the replay of any list,
/// every drawn operation lands on the innermost open layer (the canvas when
/// none is), every layer opens inside all open ones, and every composite
/// finishes the innermost open layer and blends it onto the innermost layer
/// still open after it, or onto the canvas when none is; and no layer is
/// left open at the end.
pub proof fn lemma_replay_nests(kinds: Seq<OpKind>, surfaces: bool)
    requires
        kinds.len() <= usize::MAX,
    ensures
        nested(spec_replay_steps(kinds, surfaces)),
        forall|u: usize| !#[trigger] open_layers(spec_replay_steps(kinds, surfaces)).contains(u),
{
    lemma_replay_nested(kinds, surfaces);
    let (stack, steps) = replay_state(kinds, surfaces);
    lemma_flush_nested(steps, stack);
}

} // verus!
