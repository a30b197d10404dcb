use cybergrind::history::{Edit, EditData, HistoryStack};
use cybergrind::model::{Height, Level, Prefab};

fn height_edit(delta: i8, squares: Vec<(usize, usize)>) -> Edit {
    Edit { data: EditData::Height(delta), squares }
}

#[test]
fn apply_height_adds_and_returns_true() {
    let mut map = Level::new_document();
    let edit = height_edit(3, vec![(0, 0), (5, 7)]);
    assert!(edit.apply(&mut map));
    assert_eq!(map.heights.get(0, 0), Some(Height(3)));
    assert_eq!(map.heights.get(5, 7), Some(Height(3)));
    assert_eq!(map.heights.get(1, 0), Some(Height(0)));
}

#[test]
fn apply_height_clamps_to_live_range() {
    let mut map = Level::new_document();
    let up = height_edit(40, vec![(2, 2)]);
    assert!(up.apply(&mut map));
    assert!(up.apply(&mut map));
    // 0 + 40 + 40 clamps at 50.
    assert_eq!(map.heights.get(2, 2), Some(Height(50)));
    let down = height_edit(-128, vec![(2, 2)]);
    assert!(down.apply(&mut map));
    assert_eq!(map.heights.get(2, 2), Some(Height(-50)));
}

#[test]
fn clamp_holds_after_any_edit_sequence() {
    let mut map = Level::new_document();
    let deltas: [i8; 7] = [40, 40, -100, 127, -128, 3, -1];
    for d in deltas {
        let edit = height_edit(d, vec![(0, 0), (15, 15), (8, 3)]);
        edit.apply(&mut map);
    }
    for y in 0..16 {
        for x in 0..16 {
            let h = map.heights.get(x, y).unwrap().0;
            assert!((-50..=50).contains(&h));
        }
    }
}

#[test]
fn apply_out_of_range_squares_are_ignored() {
    let mut map = Level::new_document();
    let edit = height_edit(5, vec![(16, 0), (0, 16), (200, 200), (1, 1)]);
    assert!(edit.apply(&mut map));
    assert_eq!(map.heights.get(1, 1), Some(Height(5)));
    assert_eq!(map, {
        let mut expect = Level::new_document();
        height_edit(5, vec![(1, 1)]).apply(&mut expect);
        expect
    });
}

#[test]
fn noop_height_edit_suppressed() {
    let mut map = Level::new_document();
    let mut history = HistoryStack::new();
    let before = map.clone();
    let edit = height_edit(0, vec![(0, 0), (1, 1)]);
    history.push(edit, &mut map);
    assert_eq!(history.len(), 0);
    assert_eq!(map, before);
}

#[test]
fn noop_prefab_edit_suppressed() {
    let mut map = Level::new_document();
    let mut history = HistoryStack::new();
    let before = map.clone();
    // Every recorded prior value already equals the target value.
    let edit = Edit {
        data: EditData::Prefab { from: vec![Prefab::Empty, Prefab::Empty], to: Prefab::Empty },
        squares: vec![(0, 0), (1, 0)],
    };
    history.push(edit, &mut map);
    assert_eq!(history.len(), 0);
    assert_eq!(map, before);
}

#[test]
fn prefab_edit_applies_when_any_target_differs() {
    let mut map = Level::new_document();
    let mut history = HistoryStack::new();
    let edit = Edit {
        data: EditData::Prefab { from: vec![Prefab::Empty, Prefab::Empty], to: Prefab::Stairs },
        squares: vec![(3, 4), (4, 4)],
    };
    history.push(edit, &mut map);
    assert_eq!(history.len(), 1);
    assert_eq!(map.prefabs.get(3, 4), Some(Prefab::Stairs));
    assert_eq!(map.prefabs.get(4, 4), Some(Prefab::Stairs));
}

#[test]
fn undo_height_exact_when_not_clamped() {
    let mut map = Level::new_document();
    let before = map.clone();
    let edit = height_edit(17, vec![(0, 0), (9, 9)]);
    assert!(edit.apply(&mut map));
    edit.undo(&mut map);
    assert_eq!(map, before);
}

#[test]
fn undo_height_exact_with_repeated_targets() {
    // A cell named twice gets the delta twice; as long as no clamp fires,
    // undo subtracts it twice and restores the start exactly.
    let mut map = Level::new_document();
    let before = map.clone();
    let edit = height_edit(10, vec![(0, 0), (0, 0)]);
    assert!(edit.apply(&mut map));
    assert_eq!(map.heights.get(0, 0), Some(Height(20)));
    edit.undo(&mut map);
    assert_eq!(map, before);
}

#[test]
fn undo_prefab_exact() {
    let mut map = Level::new_document();
    let seed = Edit {
        data: EditData::Prefab { from: vec![Prefab::Empty], to: Prefab::JumpPad },
        squares: vec![(5, 5)],
    };
    seed.apply(&mut map);
    let before = map.clone();
    // The edit records the differing prior values at construction time.
    let edit = Edit {
        data: EditData::Prefab {
            from: vec![Prefab::JumpPad, Prefab::Empty],
            to: Prefab::Hideous,
        },
        squares: vec![(5, 5), (6, 5)],
    };
    assert!(edit.apply(&mut map));
    assert_eq!(map.prefabs.get(5, 5), Some(Prefab::Hideous));
    edit.undo(&mut map);
    assert_eq!(map, before);
    assert_eq!(map.prefabs.get(5, 5), Some(Prefab::JumpPad));
}

#[test]
fn pop_undoes_most_recent_edit() {
    let mut map = Level::new_document();
    let mut history = HistoryStack::new();
    history.push(height_edit(2, vec![(0, 0)]), &mut map);
    history.push(height_edit(5, vec![(0, 0)]), &mut map);
    assert_eq!(map.heights.get(0, 0), Some(Height(7)));
    history.pop(&mut map);
    assert_eq!(map.heights.get(0, 0), Some(Height(2)));
    assert_eq!(history.len(), 1);
}

#[test]
fn pop_on_empty_history_is_a_noop() {
    let mut map = Level::new_document();
    let mut history = HistoryStack::new();
    let before = map.clone();
    history.pop(&mut map);
    assert_eq!(history.len(), 0);
    assert_eq!(map, before);
}

#[test]
fn history_cap_evicts_oldest() {
    let mut map = Level::new_document();
    let mut history = HistoryStack::new();
    // 501 distinct non-no-op edits: alternating deltas on one cell.
    for k in 0..501 {
        let delta: i8 = if k % 2 == 0 { 1 } else { -1 };
        history.push(height_edit(delta, vec![(0, 0)]), &mut map);
    }
    assert_eq!(history.len(), 500);
    // The oldest remaining entry is the second edit pushed (delta -1).
    match &history.stack[0].data {
        EditData::Height(d) => assert_eq!(*d, -1),
        _ => panic!("expected a height edit"),
    }
    match &history.stack[499].data {
        EditData::Height(d) => assert_eq!(*d, 1),
        _ => panic!("expected a height edit"),
    }
}

#[test]
fn scenario_apply_twice_undo_once() {
    // An edit of +1 on (0, 0), applied twice then undone once, leaves the
    // cell at +1 relative to its start.
    let mut map = Level::new_document();
    let edit = height_edit(1, vec![(0, 0)]);
    assert!(edit.apply(&mut map));
    assert!(edit.apply(&mut map));
    edit.undo(&mut map);
    assert_eq!(map.heights.get(0, 0), Some(Height(1)));
}
