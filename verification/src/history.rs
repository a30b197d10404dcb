//! The edit engine and its bounded undo history.
//!
//! An `Edit` is a reversible mutation request: a tag (a height delta, or a
//! prefab value with the prior value of every target recorded) plus an
//! ordered list of target cells. Applying an edit that would change nothing
//! is suppressed as a no-op; applied edits enter a `HistoryStack` capped at
//! 500 entries with first-in-first-out eviction.

use vstd::prelude::*;

use crate::model::{mat_wf, Height, Level, Prefab};

verus! {

/// Cap on the undo log; the oldest applied edit is evicted beyond it.
pub const MAX_UNDO_HISTORY: usize = 500;

/// What an edit does to each of its target cells.
#[derive(Debug, Clone)]
pub enum EditData {
    /// Add this delta to each target's height, clamping to [-50, 50].
    Height(i8),
    /// Set each target's prefab to `to`; `from` records each target's prior
    /// value, in target order, so undo is exact.
    Prefab { from: Vec<Prefab>, to: Prefab },
}

/// A reversible, batched mutation applied to a list of target cells.
#[derive(Debug, Clone)]
pub struct Edit {
    pub data: EditData,
    pub squares: Vec<(usize, usize)>,
}

/// Clamp to the live height range [-50, 50].
pub open spec fn clamp_spec(v: int) -> int {
    if v < -50 {
        -50
    } else if v > 50 {
        50
    } else {
        v
    }
}

/// One height write: add `d` to the cell at (x, y) and clamp, leaving the
/// grid unchanged when (x, y) is out of range.
pub open spec fn set_height_clamped(h: Seq<Seq<Height>>, x: int, y: int, d: int) -> Seq<
    Seq<Height>,
> {
    if 0 <= x < 16 && 0 <= y < 16 {
        h.update(y, h[y].update(x, Height(clamp_spec(h[y][x].0 + d) as i8)))
    } else {
        h
    }
}

/// One prefab write: set the cell at (x, y), leaving the grid unchanged when
/// (x, y) is out of range.
pub open spec fn set_prefab(p: Seq<Seq<Prefab>>, x: int, y: int, v: Prefab) -> Seq<Seq<Prefab>> {
    if 0 <= x < 16 && 0 <= y < 16 {
        p.update(y, p[y].update(x, v))
    } else {
        p
    }
}

/// The heights grid after adding `d` (clamped) to every target, in order.
pub open spec fn apply_height_squares(
    h: Seq<Seq<Height>>,
    sq: Seq<(usize, usize)>,
    d: int,
) -> Seq<Seq<Height>>
    decreases sq.len(),
{
    if sq.len() == 0 {
        h
    } else {
        set_height_clamped(
            apply_height_squares(h, sq.drop_last(), d),
            sq.last().0 as int,
            sq.last().1 as int,
            d,
        )
    }
}

/// The prefabs grid after setting every target to `to`, in order.
pub open spec fn apply_prefab_squares(
    p: Seq<Seq<Prefab>>,
    sq: Seq<(usize, usize)>,
    to: Prefab,
) -> Seq<Seq<Prefab>>
    decreases sq.len(),
{
    if sq.len() == 0 {
        p
    } else {
        set_prefab(
            apply_prefab_squares(p, sq.drop_last(), to),
            sq.last().0 as int,
            sq.last().1 as int,
            to,
        )
    }
}

/// The prefabs grid after restoring the first `n` targets to their recorded
/// prior values, in order.
pub open spec fn undo_prefab_squares(
    p: Seq<Seq<Prefab>>,
    sq: Seq<(usize, usize)>,
    from: Seq<Prefab>,
    n: nat,
) -> Seq<Seq<Prefab>>
    decreases n,
        when n <= sq.len() && n <= from.len()
{
    if n == 0 {
        p
    } else {
        set_prefab(
            undo_prefab_squares(p, sq, from, (n - 1) as nat),
            sq[n - 1].0 as int,
            sq[n - 1].1 as int,
            from[n - 1],
        )
    }
}

impl Edit {
    /// A prefab edit carries one recorded prior value per target.
    pub open spec fn wf(&self) -> bool {
        match self.data {
            EditData::Height(_) => true,
            EditData::Prefab { from, to } => from@.len() == self.squares@.len(),
        }
    }

    /// An edit whose application would be suppressed: a zero delta, or a
    /// prefab edit whose every recorded prior value already equals the target
    /// value.
    pub open spec fn is_noop(&self) -> bool {
        match self.data {
            EditData::Height(d) => d == 0,
            EditData::Prefab { from, to } => forall|i: int|
                0 <= i < from@.len() ==> from@[i] == to,
        }
    }

    /// The heights grid after this edit is applied (unchanged for no-ops and
    /// for prefab edits).
    pub open spec fn apply_heights(&self, h: Seq<Seq<Height>>) -> Seq<Seq<Height>> {
        match self.data {
            EditData::Height(d) => if d == 0 {
                h
            } else {
                apply_height_squares(h, self.squares@, d as int)
            },
            EditData::Prefab { .. } => h,
        }
    }

    /// The prefabs grid after this edit is applied (unchanged for no-ops and
    /// for height edits).
    pub open spec fn apply_prefabs(&self, p: Seq<Seq<Prefab>>) -> Seq<Seq<Prefab>> {
        match self.data {
            EditData::Height(_) => p,
            EditData::Prefab { from, to } => if self.is_noop() {
                p
            } else {
                apply_prefab_squares(p, self.squares@, to)
            },
        }
    }

    /// The heights grid after this edit is undone: the delta is subtracted
    /// and re-clamped (the symmetric, approximate inverse of apply).
    pub open spec fn undo_heights(&self, h: Seq<Seq<Height>>) -> Seq<Seq<Height>> {
        match self.data {
            EditData::Height(d) => apply_height_squares(h, self.squares@, -(d as int)),
            EditData::Prefab { .. } => h,
        }
    }

    /// The prefabs grid after this edit is undone: every target is restored
    /// to its recorded prior value.
    pub open spec fn undo_prefabs(&self, p: Seq<Seq<Prefab>>) -> Seq<Seq<Prefab>> {
        match self.data {
            EditData::Height(_) => p,
            EditData::Prefab { from, to } => undo_prefab_squares(
                p,
                self.squares@,
                from@,
                self.squares@.len(),
            ),
        }
    }

    /// Apply this edit to the level. Returns whether anything was applied:
    /// false exactly for no-ops, which leave the level untouched.
    pub fn apply(&self, map: &mut Level) -> (applied: bool)
        requires
            old(map).wf(),
        ensures
            final(map).wf(),
            applied == !self.is_noop(),
            self.is_noop() ==> *final(map) == *old(map),
            final(map).heights@ == self.apply_heights(old(map).heights@),
            final(map).prefabs@ == self.apply_prefabs(old(map).prefabs@),
    {
        match &self.data {
            EditData::Height(d) => {
                let d: i8 = *d;
                if d == 0 {
                    return false;
                }
                let mut i: usize = 0;
                while i < self.squares.len()
                    invariant
                        i <= self.squares@.len(),
                        map.wf(),
                        map.heights@ == apply_height_squares(
                            old(map).heights@,
                            self.squares@.take(i as int),
                            d as int,
                        ),
                        map.prefabs@ == old(map).prefabs@,
                    decreases self.squares@.len() - i,
                {
                    let (x, y) = self.squares[i];
                    proof {
                        assert(self.squares@.take(i as int + 1).drop_last() =~= self.squares@.take(
                            i as int,
                        ));
                        assert(self.squares@.take(i as int + 1).last() == self.squares@[i as int]);
                    }
                    match map.heights.get(x, y) {
                        Some(h0) => {
                            let sum: i32 = (h0.0 as i32) + (d as i32);
                            let clamped: i32 = if sum < -50 {
                                -50
                            } else if sum > 50 {
                                50
                            } else {
                                sum
                            };
                            map.heights.set_cell(x, y, Height(clamped as i8));
                        },
                        None => {},
                    }
                    i = i + 1;
                }
                proof {
                    assert(self.squares@.take(self.squares@.len() as int) =~= self.squares@);
                }
                true
            },
            EditData::Prefab { from, to } => {
                let mut all_same: bool = true;
                let mut k: usize = 0;
                while k < from.len()
                    invariant
                        k <= from@.len(),
                        all_same == (forall|t: int| 0 <= t < k ==> from@[t] == *to),
                    decreases from@.len() - k,
                {
                    if !(from[k] == *to) {
                        all_same = false;
                    }
                    k = k + 1;
                }
                if all_same {
                    return false;
                }
                let mut i: usize = 0;
                while i < self.squares.len()
                    invariant
                        i <= self.squares@.len(),
                        map.wf(),
                        map.prefabs@ == apply_prefab_squares(
                            old(map).prefabs@,
                            self.squares@.take(i as int),
                            *to,
                        ),
                        map.heights@ == old(map).heights@,
                    decreases self.squares@.len() - i,
                {
                    let (x, y) = self.squares[i];
                    proof {
                        assert(self.squares@.take(i as int + 1).drop_last() =~= self.squares@.take(
                            i as int,
                        ));
                        assert(self.squares@.take(i as int + 1).last() == self.squares@[i as int]);
                    }
                    map.prefabs.set_cell(x, y, *to);
                    i = i + 1;
                }
                proof {
                    assert(self.squares@.take(self.squares@.len() as int) =~= self.squares@);
                }
                true
            },
        }
    }

    /// Undo this edit: subtract the height delta (re-clamped), or restore
    /// each target's recorded prior prefab value.
    pub fn undo(&self, map: &mut Level)
        requires
            old(map).wf(),
            self.wf(),
        ensures
            final(map).wf(),
            final(map).heights@ == self.undo_heights(old(map).heights@),
            final(map).prefabs@ == self.undo_prefabs(old(map).prefabs@),
    {
        match &self.data {
            EditData::Height(d) => {
                let d: i8 = *d;
                let mut i: usize = 0;
                while i < self.squares.len()
                    invariant
                        i <= self.squares@.len(),
                        map.wf(),
                        map.heights@ == apply_height_squares(
                            old(map).heights@,
                            self.squares@.take(i as int),
                            -(d as int),
                        ),
                        map.prefabs@ == old(map).prefabs@,
                    decreases self.squares@.len() - i,
                {
                    let (x, y) = self.squares[i];
                    proof {
                        assert(self.squares@.take(i as int + 1).drop_last() =~= self.squares@.take(
                            i as int,
                        ));
                        assert(self.squares@.take(i as int + 1).last() == self.squares@[i as int]);
                    }
                    match map.heights.get(x, y) {
                        Some(h0) => {
                            let sum: i32 = (h0.0 as i32) - (d as i32);
                            let clamped: i32 = if sum < -50 {
                                -50
                            } else if sum > 50 {
                                50
                            } else {
                                sum
                            };
                            map.heights.set_cell(x, y, Height(clamped as i8));
                        },
                        None => {},
                    }
                    i = i + 1;
                }
                proof {
                    assert(self.squares@.take(self.squares@.len() as int) =~= self.squares@);
                }
            },
            EditData::Prefab { from, to } => {
                let mut i: usize = 0;
                while i < self.squares.len()
                    invariant
                        i <= self.squares@.len(),
                        from@.len() == self.squares@.len(),
                        map.wf(),
                        map.prefabs@ == undo_prefab_squares(
                            old(map).prefabs@,
                            self.squares@,
                            from@,
                            i as nat,
                        ),
                        map.heights@ == old(map).heights@,
                    decreases self.squares@.len() - i,
                {
                    let (x, y) = self.squares[i];
                    map.prefabs.set_cell(x, y, from[i]);
                    i = i + 1;
                }
            },
        }
    }
}

/// A bounded undo log of applied edits, plus a cursor kept for a future redo
/// feature (never advanced or consulted). The log grows on every successful
/// (non-no-op) apply; beyond 500 entries the oldest is evicted first, so it
/// behaves as a FIFO-evicting LIFO.
#[derive(Debug)]
pub struct HistoryStack {
    pub stack: Vec<Edit>,
    pub pos: usize,
}

impl HistoryStack {
    /// Invariant: at most 500 entries, every one well-formed.
    pub open spec fn wf(&self) -> bool {
        self.stack@.len() <= MAX_UNDO_HISTORY && forall|i: int|
            0 <= i < self.stack@.len() ==> (#[trigger] self.stack@[i]).wf()
    }

    /// The applied edits, oldest first.
    pub open spec fn edits(&self) -> Seq<Edit> {
        self.stack@
    }

    pub fn new() -> (h: HistoryStack)
        ensures
            h.wf(),
            h.edits() == Seq::<Edit>::empty(),
            h.pos == 0,
    {
        let h = HistoryStack { stack: Vec::new(), pos: 0 };
        proof {
            assert(h.edits() =~= Seq::<Edit>::empty());
        }
        h
    }

    /// How many applied edits the log holds.
    pub fn len(&self) -> (n: usize)
        ensures
            n == self.edits().len(),
    {
        self.stack.len()
    }

    /// Apply the edit to the level; only if it applied (was no no-op) is it
    /// appended to the log, evicting the oldest entry beyond the cap.
    pub fn push(&mut self, edit: Edit, map: &mut Level)
        requires
            old(self).wf(),
            old(map).wf(),
            edit.wf(),
        ensures
            final(self).wf(),
            final(map).wf(),
            final(map).heights@ == edit.apply_heights(old(map).heights@),
            final(map).prefabs@ == edit.apply_prefabs(old(map).prefabs@),
            final(self).pos == old(self).pos,
            edit.is_noop() ==> *final(map) == *old(map) && *final(self) == *old(self),
            !edit.is_noop() ==> final(self).edits() == (if old(self).edits().len()
                >= MAX_UNDO_HISTORY {
                old(self).edits().skip(1).push(edit)
            } else {
                old(self).edits().push(edit)
            }),
            final(self).edits().len() <= MAX_UNDO_HISTORY,
    {
        if edit.apply(map) {
            if self.stack.len() >= MAX_UNDO_HISTORY {
                self.stack.remove(0);
                proof {
                    assert(self.stack@ =~= old(self).stack@.skip(1));
                }
            }
            proof {
                assert forall|i: int| 0 <= i < self.stack@.len() implies (
                #[trigger] self.stack@[i]).wf() by {
                    if old(self).edits().len() >= MAX_UNDO_HISTORY {
                        assert(self.stack@[i] == old(self).stack@[i + 1]);
                    }
                }
            }
            self.stack.push(edit);
        }
    }

    /// Remove and undo the most recently applied edit; a no-op (not an
    /// error) when the log is empty.
    pub fn pop(&mut self, map: &mut Level)
        requires
            old(self).wf(),
            old(map).wf(),
        ensures
            final(self).wf(),
            final(map).wf(),
            final(self).pos == old(self).pos,
            old(self).edits().len() == 0 ==> *final(map) == *old(map) && final(self).edits()
                == old(self).edits(),
            old(self).edits().len() > 0 ==> final(self).edits() == old(self).edits().drop_last(),
            old(self).edits().len() > 0 ==> final(map).heights@ == old(
                self,
            ).edits().last().undo_heights(old(map).heights@),
            old(self).edits().len() > 0 ==> final(map).prefabs@ == old(
                self,
            ).edits().last().undo_prefabs(old(map).prefabs@),
    {
        proof {
            if old(self).edits().len() > 0 {
                assert(old(self).stack@[old(self).stack@.len() - 1].wf());
            }
        }
        match self.stack.pop() {
            Some(e) => {
                e.undo(map);
            },
            None => {},
        }
    }
}

} // verus!
