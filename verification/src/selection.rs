//! The selection engine: per-cell hover / selected / pending-box flags for
//! all 256 cells, and the box-select drag protocol.
//!
//! A drag anchors a rectangle at the pressed cell, tracks the cell under the
//! pointer as the opposite corner, previews the rectangle as pending-box
//! flags, and commits it on release: the rectangle's cells become selected,
//! and without the extend modifier every other cell is deselected.

use vstd::prelude::*;

use crate::history::{Edit, EditData};
use crate::model::{Grid, Level, Prefab};
use crate::util::{is_inside_box, spec_inside_box};

verus! {

/// Whether the cell (x, y) lies inside the rectangle of an active box
/// select; no cell does when no box select is active.
pub open spec fn in_active_box(
    b: Option<((usize, usize), (usize, usize))>,
    x: int,
    y: int,
) -> bool {
    match b {
        Some(c) => spec_inside_box(x, y, c.0.0 as int, c.0.1 as int, c.1.0 as int, c.1.1 as int),
        None => false,
    }
}

/// Per-cell selection state for the 16x16 grid, plus the two corners of a
/// rectangle currently being dragged (corners need not be ordered).
#[derive(Debug, Clone)]
pub struct Selection {
    pub selected: Grid<bool>,
    pub hovered: Grid<bool>,
    pub boxed: Grid<bool>,
    pub box_select: Option<((usize, usize), (usize, usize))>,
}

impl Selection {
    pub open spec fn wf(&self) -> bool {
        self.selected.wf() && self.hovered.wf() && self.boxed.wf()
    }

    /// A fresh selection: nothing selected, hovered or pending, no drag.
    pub fn new() -> (s: Selection)
        ensures
            s.wf(),
            s.box_select is None,
            forall|x: int, y: int|
                0 <= x < 16 && 0 <= y < 16 ==> !(#[trigger] s.selected@[y][x]),
            forall|x: int, y: int|
                0 <= x < 16 && 0 <= y < 16 ==> !(#[trigger] s.hovered@[y][x]),
            forall|x: int, y: int|
                0 <= x < 16 && 0 <= y < 16 ==> !(#[trigger] s.boxed@[y][x]),
    {
        Selection {
            selected: Grid::filled(false),
            hovered: Grid::filled(false),
            boxed: Grid::filled(false),
            box_select: None,
        }
    }

    /// Pointer-down over a cell: start a box select anchored there, both
    /// corners equal.
    pub fn begin_box(&mut self, x: usize, y: usize)
        ensures
            final(self).box_select == Some(((x, y), (x, y))),
            final(self).selected == old(self).selected,
            final(self).hovered == old(self).hovered,
            final(self).boxed == old(self).boxed,
    {
        self.box_select = Some(((x, y), (x, y)));
    }

    /// While the pointer stays pressed: move the second corner to the cell
    /// under the pointer; nothing happens without an active box select.
    pub fn drag_to(&mut self, x: usize, y: usize)
        ensures
            old(self).box_select is Some ==> final(self).box_select == Some(
                ((old(self).box_select->0).0, (x, y)),
            ),
            old(self).box_select is None ==> *final(self) == *old(self),
            final(self).selected == old(self).selected,
            final(self).hovered == old(self).hovered,
            final(self).boxed == old(self).boxed,
    {
        match self.box_select {
            Some(c) => {
                self.box_select = Some((c.0, (x, y)));
            },
            None => {},
        }
    }

    /// The pointer left all cells while not pressed: abandon the box select.
    pub fn clear_box(&mut self)
        ensures
            final(self).box_select is None,
            final(self).selected == old(self).selected,
            final(self).hovered == old(self).hovered,
            final(self).boxed == old(self).boxed,
    {
        self.box_select = None;
    }

    /// Mark the cell under the pointer (if any) as the one hovered cell.
    pub fn set_hover(&mut self, cell: Option<(usize, usize)>)
        requires
            old(self).wf(),
        ensures
            final(self).wf(),
            forall|x: int, y: int|
                0 <= x < 16 && 0 <= y < 16 ==> (#[trigger] final(self).hovered@[y][x]) == (cell
                    == Some((x as usize, y as usize))),
            final(self).selected == old(self).selected,
            final(self).boxed == old(self).boxed,
            final(self).box_select == old(self).box_select,
    {
        let mut y: usize = 0;
        while y < 16
            invariant
                y <= 16,
                self.wf(),
                forall|xx: int, yy: int|
                    0 <= xx < 16 && 0 <= yy < y ==> (#[trigger] self.hovered@[yy][xx]) == (cell
                        == Some((xx as usize, yy as usize))),
                self.selected == old(self).selected,
                self.boxed == old(self).boxed,
                self.box_select == old(self).box_select,
            decreases 16 - y,
        {
            let mut x: usize = 0;
            while x < 16
                invariant
                    x <= 16,
                    y < 16,
                    self.wf(),
                    forall|xx: int, yy: int|
                        0 <= xx < 16 && 0 <= yy < y ==> (#[trigger] self.hovered@[yy][xx]) == (cell
                            == Some((xx as usize, yy as usize))),
                    forall|xx: int|
                        0 <= xx < x ==> (#[trigger] self.hovered@[y as int][xx]) == (cell == Some(
                            (xx as usize, y),
                        )),
                    self.selected == old(self).selected,
                    self.boxed == old(self).boxed,
                    self.box_select == old(self).box_select,
                decreases 16 - x,
            {
                let here: bool = match cell {
                    Some(c) => c.0 == x && c.1 == y,
                    None => false,
                };
                self.hovered.set_cell(x, y, here);
                x = x + 1;
            }
            y = y + 1;
        }
    }

    /// While dragging: preview the current rectangle as pending-box flags;
    /// with no active box select every pending flag is cleared.
    pub fn refresh_boxed(&mut self)
        requires
            old(self).wf(),
        ensures
            final(self).wf(),
            forall|x: int, y: int|
                0 <= x < 16 && 0 <= y < 16 ==> (#[trigger] final(self).boxed@[y][x])
                    == in_active_box(old(self).box_select, x, y),
            final(self).selected == old(self).selected,
            final(self).hovered == old(self).hovered,
            final(self).box_select == old(self).box_select,
    {
        let mut y: usize = 0;
        while y < 16
            invariant
                y <= 16,
                self.wf(),
                forall|xx: int, yy: int|
                    0 <= xx < 16 && 0 <= yy < y ==> (#[trigger] self.boxed@[yy][xx])
                        == in_active_box(old(self).box_select, xx, yy),
                self.selected == old(self).selected,
                self.hovered == old(self).hovered,
                self.box_select == old(self).box_select,
            decreases 16 - y,
        {
            let mut x: usize = 0;
            while x < 16
                invariant
                    x <= 16,
                    y < 16,
                    self.wf(),
                    forall|xx: int, yy: int|
                        0 <= xx < 16 && 0 <= yy < y ==> (#[trigger] self.boxed@[yy][xx])
                            == in_active_box(old(self).box_select, xx, yy),
                    forall|xx: int|
                        0 <= xx < x ==> (#[trigger] self.boxed@[y as int][xx]) == in_active_box(
                            old(self).box_select,
                            xx,
                            y as int,
                        ),
                    self.selected == old(self).selected,
                    self.hovered == old(self).hovered,
                    self.box_select == old(self).box_select,
                decreases 16 - x,
            {
                let flag: bool = match &self.box_select {
                    Some(c) => is_inside_box((x, y), c),
                    None => false,
                };
                self.boxed.set_cell(x, y, flag);
                x = x + 1;
            }
            y = y + 1;
        }
    }

    /// Pointer release: commit the rectangle. Every cell inside it becomes
    /// selected; outside it, a previously selected cell stays selected only
    /// with the extend modifier held. Pending flags and the drag anchor are
    /// cleared. Without an active box select only the pending flags clear.
    pub fn release(&mut self, extend: bool)
        requires
            old(self).wf(),
        ensures
            final(self).wf(),
            final(self).box_select is None,
            forall|x: int, y: int|
                0 <= x < 16 && 0 <= y < 16 ==> !(#[trigger] final(self).boxed@[y][x]),
            old(self).box_select is Some ==> forall|x: int, y: int|
                0 <= x < 16 && 0 <= y < 16 ==> (#[trigger] final(self).selected@[y][x])
                    == (in_active_box(old(self).box_select, x, y) || (old(self).selected@[y][x]
                    && extend)),
            old(self).box_select is None ==> final(self).selected == old(self).selected,
            final(self).hovered == old(self).hovered,
    {
        match self.box_select {
            Some(corners) => {
                let mut y: usize = 0;
                while y < 16
                    invariant
                        y <= 16,
                        self.wf(),
                        self.box_select == Some(corners),
                        old(self).box_select == Some(corners),
                        forall|xx: int, yy: int|
                            0 <= xx < 16 && 0 <= yy < y ==> (#[trigger] self.selected@[yy][xx]) == (
                            in_active_box(old(self).box_select, xx, yy) || (old(
                                self,
                            ).selected@[yy][xx] && extend)),
                        forall|xx: int, yy: int|
                            0 <= xx < 16 && y <= yy < 16 ==> (#[trigger] self.selected@[yy][xx])
                                == old(self).selected@[yy][xx],
                        forall|xx: int, yy: int|
                            0 <= xx < 16 && 0 <= yy < y ==> !(#[trigger] self.boxed@[yy][xx]),
                        forall|xx: int, yy: int|
                            0 <= xx < 16 && y <= yy < 16 ==> (#[trigger] self.boxed@[yy][xx])
                                == old(self).boxed@[yy][xx],
                        self.hovered == old(self).hovered,
                    decreases 16 - y,
                {
                    let mut x: usize = 0;
                    while x < 16
                        invariant
                            x <= 16,
                            y < 16,
                            self.wf(),
                            self.box_select == Some(corners),
                            old(self).box_select == Some(corners),
                            forall|xx: int, yy: int|
                                0 <= xx < 16 && 0 <= yy < y ==> (#[trigger] self.selected@[yy][xx])
                                    == (in_active_box(old(self).box_select, xx, yy) || (old(
                                    self,
                                ).selected@[yy][xx] && extend)),
                            forall|xx: int|
                                0 <= xx < x ==> (#[trigger] self.selected@[y as int][xx]) == (
                                in_active_box(old(self).box_select, xx, y as int) || (old(
                                    self,
                                ).selected@[y as int][xx] && extend)),
                            forall|xx: int, yy: int|
                                0 <= xx < 16 && y < yy < 16 ==> (#[trigger] self.selected@[yy][xx])
                                    == old(self).selected@[yy][xx],
                            forall|xx: int|
                                x <= xx < 16 ==> (#[trigger] self.selected@[y as int][xx]) == old(
                                    self,
                                ).selected@[y as int][xx],
                            forall|xx: int, yy: int|
                                0 <= xx < 16 && 0 <= yy < y ==> !(#[trigger] self.boxed@[yy][xx]),
                            forall|xx: int|
                                0 <= xx < x ==> !(#[trigger] self.boxed@[y as int][xx]),
                            forall|xx: int, yy: int|
                                0 <= xx < 16 && y < yy < 16 ==> (#[trigger] self.boxed@[yy][xx])
                                    == old(self).boxed@[yy][xx],
                            forall|xx: int|
                                x <= xx < 16 ==> (#[trigger] self.boxed@[y as int][xx]) == old(
                                    self,
                                ).boxed@[y as int][xx],
                            self.hovered == old(self).hovered,
                        decreases 16 - x,
                    {
                        let in_box: bool = is_inside_box((x, y), &corners);
                        let was: bool = match self.selected.get(x, y) {
                            Some(b) => b,
                            None => false,
                        };
                        self.selected.set_cell(x, y, in_box || (was && extend));
                        self.boxed.set_cell(x, y, false);
                        x = x + 1;
                    }
                    y = y + 1;
                }
                self.box_select = None;
            },
            None => {
                let mut y: usize = 0;
                while y < 16
                    invariant
                        y <= 16,
                        self.wf(),
                        self.box_select is None,
                        forall|xx: int, yy: int|
                            0 <= xx < 16 && 0 <= yy < y ==> !(#[trigger] self.boxed@[yy][xx]),
                        self.selected == old(self).selected,
                        self.hovered == old(self).hovered,
                    decreases 16 - y,
                {
                    let mut x: usize = 0;
                    while x < 16
                        invariant
                            x <= 16,
                            y < 16,
                            self.wf(),
                            self.box_select is None,
                            forall|xx: int, yy: int|
                                0 <= xx < 16 && 0 <= yy < y ==> !(#[trigger] self.boxed@[yy][xx]),
                            forall|xx: int|
                                0 <= xx < x ==> !(#[trigger] self.boxed@[y as int][xx]),
                            self.selected == old(self).selected,
                            self.hovered == old(self).hovered,
                        decreases 16 - x,
                    {
                        self.boxed.set_cell(x, y, false);
                        x = x + 1;
                    }
                    y = y + 1;
                }
            },
        }
    }

    /// Whether the cell (x, y) is currently selected; false outside the grid.
    pub fn is_selected(&self, x: usize, y: usize) -> (r: bool)
        requires
            self.wf(),
        ensures
            r == (x < 16 && y < 16 && self.selected@[y as int][x as int]),
    {
        match self.selected.get(x, y) {
            Some(b) => b,
            None => false,
        }
    }
}

/// Row-major rank of a cell: its position in the deterministic enumeration
/// order of selected cells.
pub open spec fn cell_key(c: (usize, usize)) -> int {
    (c.1 as int) * 16 + (c.0 as int)
}

/// The coordinates of the selected cells among the first `n` cells in
/// row-major order.
pub open spec fn selected_coords_upto(sel: Seq<Seq<bool>>, n: int) -> Seq<(usize, usize)>
    decreases n,
{
    if n <= 0 {
        Seq::empty()
    } else {
        let k = n - 1;
        let x = k % 16;
        let y = k / 16;
        selected_coords_upto(sel, k) + (if sel[y][x] {
            seq![(x as usize, y as usize)]
        } else {
            Seq::empty()
        })
    }
}

/// The coordinates of all selected cells, in row-major order: the sole input
/// to edit-target enumeration.
pub open spec fn selected_coords(sel: Seq<Seq<bool>>) -> Seq<(usize, usize)> {
    selected_coords_upto(sel, 256)
}

/// The enumerated targets are in-range cells listed in strictly increasing
/// row-major order; in particular no cell is listed twice, so the undo
/// exactness law for height edits applies to selection-built edits.
pub proof fn lemma_selected_coords_props(sel: Seq<Seq<bool>>, n: int)
    requires
        0 <= n <= 256,
    ensures
        forall|i: int|
            0 <= i < selected_coords_upto(sel, n).len() ==> ((#[trigger] selected_coords_upto(
                sel,
                n,
            )[i]).0 < 16 && selected_coords_upto(sel, n)[i].1 < 16 && cell_key(
                selected_coords_upto(sel, n)[i],
            ) < n),
        forall|i: int, j: int|
            #![trigger selected_coords_upto(sel, n)[i], selected_coords_upto(sel, n)[j]]
            0 <= i < j < selected_coords_upto(sel, n).len() ==> cell_key(
                selected_coords_upto(sel, n)[i],
            ) < cell_key(selected_coords_upto(sel, n)[j]),
        crate::laws::sq_distinct(selected_coords_upto(sel, n)),
    decreases n,
{
    if n > 0 {
        lemma_selected_coords_props(sel, n - 1);
        let k = n - 1;
        let x = k % 16;
        let y = k / 16;
        vstd::arithmetic::div_mod::lemma_fundamental_div_mod(k, 16);
        vstd::arithmetic::div_mod::lemma_mod_division_less_than_divisor(k, 16);
        vstd::arithmetic::div_mod::lemma_div_pos_is_pos(k, 16);
        assert(0 <= x < 16);
        assert(0 <= y < 16);
        let prev = selected_coords_upto(sel, k);
        let cur = selected_coords_upto(sel, n);
        if sel[y][x] {
            let c = (x as usize, y as usize);
            assert(cell_key(c) == k);
            assert(cur == prev + seq![c]);
            assert(cur.len() == prev.len() + 1);
            assert(forall|i: int| 0 <= i < prev.len() ==> cur[i] == prev[i]);
            assert(cur[cur.len() - 1] == c);
        } else {
            assert(cur == prev + Seq::<(usize, usize)>::empty());
            assert(cur =~= prev);
        }
        assert forall|i: int, j: int|
            #![trigger cur[i], cur[j]]
            0 <= i < j < cur.len() implies cur[i] != cur[j] by {
            assert(cell_key(cur[i]) < cell_key(cur[j]));
        }
    }
}

impl Selection {
    /// The coordinates of all currently selected cells, in row-major order:
    /// the deterministic enumeration every new edit targets.
    pub fn selected_squares(&self) -> (out: Vec<(usize, usize)>)
        requires
            self.wf(),
        ensures
            out@ == selected_coords(self.selected@),
    {
        let mut out: Vec<(usize, usize)> = Vec::new();
        let mut k: usize = 0;
        proof {
            assert(out@ =~= selected_coords_upto(self.selected@, 0));
        }
        while k < 256
            invariant
                k <= 256,
                self.wf(),
                out@ == selected_coords_upto(self.selected@, k as int),
            decreases 256 - k,
        {
            let x: usize = k % 16;
            let y: usize = k / 16;
            proof {
                vstd::arithmetic::div_mod::lemma_fundamental_div_mod(k as int, 16);
                vstd::arithmetic::div_mod::lemma_mod_division_less_than_divisor(k as int, 16);
                vstd::arithmetic::div_mod::lemma_div_pos_is_pos(k as int, 16);
                assert(x < 16 && y < 16);
            }
            let sel: bool = match self.selected.get(x, y) {
                Some(b) => b,
                None => false,
            };
            if sel {
                out.push((x, y));
                proof {
                    assert(out@ =~= selected_coords_upto(self.selected@, k as int) + seq![
                        (x, y),
                    ]);
                }
            } else {
                proof {
                    assert(out@ =~= selected_coords_upto(self.selected@, k as int) + Seq::<
                        (usize, usize),
                    >::empty());
                }
            }
            k = k + 1;
        }
        out
    }

    /// Build a height edit targeting the current selection.
    pub fn make_height_edit(&self, delta: i8) -> (edit: Edit)
        requires
            self.wf(),
        ensures
            edit.data == EditData::Height(delta),
            edit.squares@ == selected_coords(self.selected@),
            edit.wf(),
    {
        Edit { data: EditData::Height(delta), squares: self.selected_squares() }
    }

    /// Build a prefab edit targeting the current selection, recording each
    /// target's current prefab value positionally so undo is exact.
    pub fn make_prefab_edit(&self, map: &Level, to: Prefab) -> (edit: Edit)
        requires
            self.wf(),
            map.wf(),
        ensures
            edit.squares@ == selected_coords(self.selected@),
            edit.data matches EditData::Prefab { from, to: t } && t == to && from@.len()
                == edit.squares@.len() && (forall|i: int|
                0 <= i < from@.len() ==> from@[i] == map.prefabs@[edit.squares@[i].1 as int][
                    edit.squares@[i].0 as int
                ]),
            edit.wf(),
    {
        let squares = self.selected_squares();
        proof {
            lemma_selected_coords_props(self.selected@, 256);
        }
        let mut from: Vec<Prefab> = Vec::new();
        let mut i: usize = 0;
        while i < squares.len()
            invariant
                i <= squares@.len(),
                from@.len() == i,
                map.wf(),
                forall|t: int|
                    0 <= t < squares@.len() ==> ((#[trigger] squares@[t]).0 < 16 && squares@[t].1
                        < 16),
                forall|t: int|
                    0 <= t < i ==> #[trigger] from@[t] == map.prefabs@[squares@[t].1 as int][
                        squares@[t].0 as int
                    ],
            decreases squares@.len() - i,
        {
            let (x, y) = squares[i];
            let v: Prefab = match map.prefabs.get(x, y) {
                Some(v) => v,
                None => Prefab::Empty,
            };
            from.push(v);
            i = i + 1;
        }
        Edit { data: EditData::Prefab { from, to }, squares }
    }
}

} // verus!
