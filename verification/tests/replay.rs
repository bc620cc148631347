//! The layer discipline of a replayer.

use usvg_flatten::layers::{replay_steps, OpKind, ReplayStep};

use OpKind::{Draw, PopLayer, PushLayer};

#[test]
fn a_balanced_list_composites_each_layer_at_its_pop() {
    let steps = replay_steps(&vec![Draw, PushLayer, Draw, PushLayer, Draw, PopLayer, PopLayer, Draw], true);
    assert_eq!(
        steps,
        vec![
            ReplayStep::Draw { op: 0, target: None },
            ReplayStep::Open { layer: 1 },
            ReplayStep::Draw { op: 2, target: Some(1) },
            ReplayStep::Open { layer: 3 },
            ReplayStep::Draw { op: 4, target: Some(3) },
            ReplayStep::Composite { layer: 3, target: Some(1) },
            ReplayStep::Composite { layer: 1, target: None },
            ReplayStep::Draw { op: 7, target: None },
        ]
    );
}

#[test]
fn a_missing_pop_composites_at_the_end() {
    let steps = replay_steps(&vec![PushLayer, PushLayer, Draw], true);
    assert_eq!(
        steps,
        vec![
            ReplayStep::Open { layer: 0 },
            ReplayStep::Open { layer: 1 },
            ReplayStep::Draw { op: 2, target: Some(1) },
            ReplayStep::Composite { layer: 1, target: Some(0) },
            ReplayStep::Composite { layer: 0, target: None },
        ]
    );
}

#[test]
fn a_stray_pop_is_ignored() {
    let steps = replay_steps(&vec![PopLayer, Draw, PopLayer], true);
    assert_eq!(steps, vec![ReplayStep::Draw { op: 1, target: None }]);
}

#[test]
fn without_surfaces_everything_draws_through() {
    let steps = replay_steps(&vec![PushLayer, Draw, PopLayer], false);
    assert_eq!(steps, vec![ReplayStep::Draw { op: 1, target: None }]);
}

#[test]
fn an_empty_list_replays_to_nothing() {
    assert!(replay_steps(&vec![], true).is_empty());
}
