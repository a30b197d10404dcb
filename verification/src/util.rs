//! Rectangle membership for box selection.

use vstd::prelude::*;

verus! {

/// Whether (x, y) lies in the axis-aligned rectangle spanned by the corners
/// (x1, y1) and (x2, y2), in whichever order the drag ran.
pub open spec fn spec_inside_box(x: int, y: int, x1: int, y1: int, x2: int, y2: int) -> bool {
    (if x1 <= x2 {
        x1 <= x <= x2
    } else {
        x2 <= x <= x1
    }) && (if y1 <= y2 {
        y1 <= y <= y2
    } else {
        y2 <= y <= y1
    })
}

/// True iff the cell lies in the inclusive ranges spanned by the two
/// corners' coordinates, regardless of which corner holds the larger value.
pub fn is_inside_box(p: (usize, usize), corners: &((usize, usize), (usize, usize))) -> (r: bool)
    ensures
        r == spec_inside_box(
            p.0 as int,
            p.1 as int,
            corners.0.0 as int,
            corners.0.1 as int,
            corners.1.0 as int,
            corners.1.1 as int,
        ),
{
    let (x, y) = p;
    let ((x1, y1), (x2, y2)) = *corners;
    let x_in: bool = if x1 >= x2 {
        x2 <= x && x <= x1
    } else {
        x1 <= x && x <= x2
    };
    let y_in: bool = if y1 >= y2 {
        y2 <= y && y <= y1
    } else {
        y1 <= y && y <= y2
    };
    x_in && y_in
}

/// Box selection symmetry: swapping the two corners describes the same box.
pub proof fn lemma_box_symmetry(x: int, y: int, x1: int, y1: int, x2: int, y2: int)
    ensures
        spec_inside_box(x, y, x1, y1, x2, y2) == spec_inside_box(x, y, x2, y2, x1, y1),
{
}

} // verus!
