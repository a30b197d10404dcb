use cybergrind::history::EditData;
use cybergrind::model::{Height, Level, Prefab};
use cybergrind::selection::Selection;
use cybergrind::util::is_inside_box;

#[test]
fn inside_box_exact_values() {
    assert!(is_inside_box((3, 4), &((2, 2), (5, 5))));
    assert!(is_inside_box((2, 2), &((2, 2), (5, 5))));
    assert!(is_inside_box((5, 5), &((2, 2), (5, 5))));
    assert!(!is_inside_box((6, 5), &((2, 2), (5, 5))));
    assert!(!is_inside_box((1, 3), &((2, 2), (5, 5))));
    // A degenerate box is a single cell.
    assert!(is_inside_box((7, 7), &((7, 7), (7, 7))));
    assert!(!is_inside_box((7, 8), &((7, 7), (7, 7))));
}

#[test]
fn inside_box_symmetry() {
    for x in 0..8 {
        for y in 0..8 {
            let a = ((2, 6), (5, 1));
            let b = ((5, 1), (2, 6));
            assert_eq!(is_inside_box((x, y), &a), is_inside_box((x, y), &b));
        }
    }
}

#[test]
fn scenario_box_select_replaces_selection() {
    // Dragging from (2, 2) to (5, 5) and releasing without the extend
    // modifier selects exactly the 4x4 block and deselects everything else.
    let mut sel = Selection::new();
    // A previously selected cell outside the block.
    sel.begin_box(0, 0);
    sel.release(false);
    assert!(sel.is_selected(0, 0));

    sel.begin_box(2, 2);
    sel.drag_to(5, 5);
    sel.refresh_boxed();
    sel.release(false);

    let mut count = 0;
    for y in 0..16 {
        for x in 0..16 {
            let inside = (2..=5).contains(&x) && (2..=5).contains(&y);
            assert_eq!(sel.is_selected(x, y), inside);
            if sel.is_selected(x, y) {
                count += 1;
            }
        }
    }
    assert_eq!(count, 16);
    assert!(!sel.is_selected(0, 0));
}

#[test]
fn release_with_extend_keeps_old_selection() {
    let mut sel = Selection::new();
    sel.begin_box(0, 0);
    sel.release(false);
    sel.begin_box(3, 3);
    sel.drag_to(4, 3);
    sel.release(true);
    assert!(sel.is_selected(0, 0));
    assert!(sel.is_selected(3, 3));
    assert!(sel.is_selected(4, 3));
    assert!(!sel.is_selected(5, 5));
}

#[test]
fn drag_requires_active_box() {
    let mut sel = Selection::new();
    sel.drag_to(5, 5);
    assert!(sel.box_select.is_none());
    sel.begin_box(1, 1);
    sel.drag_to(2, 4);
    assert_eq!(sel.box_select, Some(((1, 1), (2, 4))));
    sel.clear_box();
    assert!(sel.box_select.is_none());
}

#[test]
fn pending_box_preview_follows_drag() {
    let mut sel = Selection::new();
    sel.begin_box(1, 1);
    sel.drag_to(2, 2);
    sel.refresh_boxed();
    assert!(sel.boxed.get(1, 1).unwrap());
    assert!(sel.boxed.get(2, 2).unwrap());
    assert!(!sel.boxed.get(3, 3).unwrap());
    // Releasing clears every pending flag.
    sel.release(false);
    for y in 0..16 {
        for x in 0..16 {
            assert!(!sel.boxed.get(x, y).unwrap());
        }
    }
}

#[test]
fn hover_marks_one_cell() {
    let mut sel = Selection::new();
    sel.set_hover(Some((4, 9)));
    assert!(sel.hovered.get(4, 9).unwrap());
    assert!(!sel.hovered.get(9, 4).unwrap());
    sel.set_hover(None);
    for y in 0..16 {
        for x in 0..16 {
            assert!(!sel.hovered.get(x, y).unwrap());
        }
    }
}

#[test]
fn selected_squares_row_major_order() {
    let mut sel = Selection::new();
    sel.begin_box(2, 1);
    sel.drag_to(3, 2);
    sel.release(false);
    let squares = sel.selected_squares();
    assert_eq!(squares, vec![(2, 1), (3, 1), (2, 2), (3, 2)]);
}

#[test]
fn make_height_edit_targets_selection() {
    let mut sel = Selection::new();
    sel.begin_box(0, 0);
    sel.drag_to(1, 0);
    sel.release(false);
    let edit = sel.make_height_edit(-3);
    match &edit.data {
        EditData::Height(d) => assert_eq!(*d, -3),
        _ => panic!("expected a height edit"),
    }
    assert_eq!(edit.squares, vec![(0, 0), (1, 0)]);
}

#[test]
fn make_prefab_edit_records_prior_values() {
    let mut map = Level::new_document();
    let mut sel = Selection::new();
    sel.begin_box(0, 0);
    sel.release(false);
    let seed = sel.make_prefab_edit(&map, Prefab::Melee);
    assert!(seed.apply(&mut map));
    assert_eq!(map.prefabs.get(0, 0), Some(Prefab::Melee));

    sel.begin_box(0, 0);
    sel.drag_to(1, 0);
    sel.release(false);
    let edit = sel.make_prefab_edit(&map, Prefab::Stairs);
    match &edit.data {
        EditData::Prefab { from, to } => {
            assert_eq!(*to, Prefab::Stairs);
            assert_eq!(*from, vec![Prefab::Melee, Prefab::Empty]);
        },
        _ => panic!("expected a prefab edit"),
    }
    assert_eq!(edit.squares, vec![(0, 0), (1, 0)]);
}

#[test]
fn grid_accessors_probe_safely() {
    let map = Level::new_document();
    assert_eq!(map.heights.get(15, 15), Some(Height(0)));
    assert_eq!(map.heights.get(16, 0), None);
    assert_eq!(map.heights.get(0, 16), None);
    let mut map2 = map.clone();
    map2.heights.set_cell(16, 16, Height(9));
    assert_eq!(map2, map);
}
