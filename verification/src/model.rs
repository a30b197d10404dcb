//! The in-memory level model: a pair of 16x16 grids, one of pillar heights
//! and one of prefab markers, with bounds-checked accessors.

use vstd::prelude::*;

verus! {

/// Vertical offset of one pillar, as stored in a level file. Any 8-bit value
/// can be parsed; the editing path clamps live values to [-50, 50].
#[derive(Debug, Clone, Copy, PartialEq, Eq, Structural)]
pub struct Height(pub i8);

impl Default for Height {
    fn default() -> (h: Height)
        ensures
            h == Height(0i8),
    {
        Height(0)
    }
}

/// Categorical marker on a cell selecting a special tile behaviour.
/// Each variant has exactly one single-character text encoding.
#[derive(Debug, Clone, Copy, PartialEq, Eq, Structural)]
pub enum Prefab {
    Empty,
    Melee,
    Projectile,
    JumpPad,
    Stairs,
    Hideous,
}

impl Default for Prefab {
    fn default() -> (p: Prefab)
        ensures
            p == Prefab::Empty,
    {
        Prefab::Empty
    }
}

/// A fixed 16x16 rectangular array of cells, row-major: row index = y,
/// column index = x.
#[derive(Debug, Clone)]
pub struct Grid<T>(pub Vec<Vec<T>>);

impl<T> View for Grid<T> {
    type V = Seq<Seq<T>>;

    open spec fn view(&self) -> Seq<Seq<T>> {
        Seq::new(self.0@.len(), |y: int| self.0@[y]@)
    }
}

/// A 16x16 matrix of cells, the mathematical shape every grid keeps.
pub open spec fn mat_wf<T>(g: Seq<Seq<T>>) -> bool {
    g.len() == 16 && forall|y: int| 0 <= y < 16 ==> (#[trigger] g[y]).len() == 16
}

impl<T> Grid<T> {
    /// Invariant: exactly 16 rows of exactly 16 cells each.
    pub open spec fn wf(&self) -> bool {
        mat_wf(self@)
    }
}

impl<T: Copy> Grid<T> {
    /// A grid with every cell holding the same value.
    pub fn filled(v: T) -> (g: Grid<T>)
        ensures
            g.wf(),
            forall|x: int, y: int|
                0 <= x < 16 && 0 <= y < 16 ==> #[trigger] g@[y][x] == v,
    {
        let mut rows: Vec<Vec<T>> = Vec::new();
        let mut y: usize = 0;
        while y < 16
            invariant
                y <= 16,
                rows@.len() == y,
                forall|j: int| 0 <= j < y ==> (#[trigger] rows@[j])@.len() == 16,
                forall|j: int, i: int|
                    0 <= j < y && 0 <= i < 16 ==> #[trigger] rows@[j]@[i] == v,
            decreases 16 - y,
        {
            let mut row: Vec<T> = Vec::new();
            let mut x: usize = 0;
            while x < 16
                invariant
                    x <= 16,
                    row@.len() == x,
                    forall|i: int| 0 <= i < x ==> #[trigger] row@[i] == v,
                decreases 16 - x,
            {
                row.push(v);
                x = x + 1;
            }
            rows.push(row);
            y = y + 1;
        }
        Grid(rows)
    }

    /// Bounds-checked read: `None` (not an error) when (x, y) is outside the
    /// grid, so callers can probe coordinates derived from UI geometry.
    pub fn get(&self, x: usize, y: usize) -> (r: Option<T>)
        ensures
            self.wf() ==> r == (if x < 16 && y < 16 {
                Some(self@[y as int][x as int])
            } else {
                None::<T>
            }),
    {
        if y < self.0.len() {
            let row: &Vec<T> = &self.0[y];
            if x < row.len() {
                Some(row[x])
            } else {
                None
            }
        } else {
            None
        }
    }

    /// Bounds-checked write: leaves the grid unchanged when (x, y) is outside.
    pub fn set_cell(&mut self, x: usize, y: usize, v: T)
        ensures
            old(self).wf() ==> final(self).wf(),
            old(self).wf() ==> final(self)@ == (if x < 16 && y < 16 {
                old(self)@.update(y as int, old(self)@[y as int].update(x as int, v))
            } else {
                old(self)@
            }),
    {
        if y < self.0.len() {
            if x < self.0[y].len() {
                self.0[y][x] = v;
                proof {
                    if old(self).wf() {
                        assert(final(self)@ =~~= old(self)@.update(
                            y as int,
                            old(self)@[y as int].update(x as int, v),
                        ));
                    }
                }
            }
        }
        proof {
            if old(self).wf() && !(x < 16 && y < 16) {
                assert(final(self)@ =~~= old(self)@);
            }
        }
    }
}

/// The composite document: a heights grid and a prefabs grid, geometrically
/// aligned cell for cell. One live level is owned by the editing session.
#[derive(Debug, Clone)]
pub struct Level {
    pub heights: Grid<Height>,
    pub prefabs: Grid<Prefab>,
}

impl Level {
    pub open spec fn wf(&self) -> bool {
        self.heights.wf() && self.prefabs.wf()
    }

    /// A fresh document: all heights zero, all prefabs empty.
    pub fn new_document() -> (m: Level)
        ensures
            m.wf(),
            forall|x: int, y: int|
                0 <= x < 16 && 0 <= y < 16 ==> #[trigger] m.heights@[y][x] == Height(0i8),
            forall|x: int, y: int|
                0 <= x < 16 && 0 <= y < 16 ==> #[trigger] m.prefabs@[y][x] == Prefab::Empty,
    {
        Level { heights: Grid::filled(Height(0)), prefabs: Grid::filled(Prefab::Empty) }
    }
}

fn height_grids_eq(a: &Grid<Height>, b: &Grid<Height>) -> (r: bool)
    ensures
        r == (a@ == b@),
{
    if a.0.len() != b.0.len() {
        return false;
    }
    let mut y: usize = 0;
    while y < a.0.len()
        invariant
            y <= a.0@.len(),
            a.0@.len() == b.0@.len(),
            forall|j: int| 0 <= j < y ==> a@[j] == #[trigger] b@[j],
        decreases a.0@.len() - y,
    {
        let ra = &a.0[y];
        let rb = &b.0[y];
        if ra.len() != rb.len() {
            proof {
                assert(a@[y as int].len() != b@[y as int].len());
            }
            return false;
        }
        let mut x: usize = 0;
        while x < ra.len()
            invariant
                x <= ra@.len(),
                ra@.len() == rb@.len(),
                ra@ == a@[y as int],
                rb@ == b@[y as int],
                y < a.0@.len(),
                a.0@.len() == b.0@.len(),
                forall|i: int| 0 <= i < x ==> ra@[i] == #[trigger] rb@[i],
            decreases ra@.len() - x,
        {
            if !(ra[x] == rb[x]) {
                proof {
                    assert(a@[y as int][x as int] != b@[y as int][x as int]);
                }
                return false;
            }
            x = x + 1;
        }
        proof {
            assert(a@[y as int] =~= b@[y as int]);
        }
        y = y + 1;
    }
    proof {
        assert(a@ =~= b@);
    }
    true
}

fn prefab_grids_eq(a: &Grid<Prefab>, b: &Grid<Prefab>) -> (r: bool)
    ensures
        r == (a@ == b@),
{
    if a.0.len() != b.0.len() {
        return false;
    }
    let mut y: usize = 0;
    while y < a.0.len()
        invariant
            y <= a.0@.len(),
            a.0@.len() == b.0@.len(),
            forall|j: int| 0 <= j < y ==> a@[j] == #[trigger] b@[j],
        decreases a.0@.len() - y,
    {
        let ra = &a.0[y];
        let rb = &b.0[y];
        if ra.len() != rb.len() {
            proof {
                assert(a@[y as int].len() != b@[y as int].len());
            }
            return false;
        }
        let mut x: usize = 0;
        while x < ra.len()
            invariant
                x <= ra@.len(),
                ra@.len() == rb@.len(),
                ra@ == a@[y as int],
                rb@ == b@[y as int],
                y < a.0@.len(),
                a.0@.len() == b.0@.len(),
                forall|i: int| 0 <= i < x ==> ra@[i] == #[trigger] rb@[i],
            decreases ra@.len() - x,
        {
            if !(ra[x] == rb[x]) {
                proof {
                    assert(a@[y as int][x as int] != b@[y as int][x as int]);
                }
                return false;
            }
            x = x + 1;
        }
        proof {
            assert(a@[y as int] =~= b@[y as int]);
        }
        y = y + 1;
    }
    proof {
        assert(a@ =~= b@);
    }
    true
}

impl PartialEq for Level {
    /// Cell-wise equality of the two grids.
    fn eq(&self, other: &Level) -> (r: bool) {
        height_grids_eq(&self.heights, &other.heights) && prefab_grids_eq(
            &self.prefabs,
            &other.prefabs,
        )
    }
}

impl vstd::std_specs::cmp::PartialEqSpecImpl for Level {
    open spec fn obeys_eq_spec() -> bool {
        true
    }

    open spec fn eq_spec(&self, other: &Level) -> bool {
        self.heights@ == other.heights@ && self.prefabs@ == other.prefabs@
    }
}

impl Eq for Level {
}

impl Default for Level {
    fn default() -> (m: Level)
        ensures
            m.wf(),
            forall|x: int, y: int|
                0 <= x < 16 && 0 <= y < 16 ==> #[trigger] m.heights@[y][x] == Height(0i8),
            forall|x: int, y: int|
                0 <= x < 16 && 0 <= y < 16 ==> #[trigger] m.prefabs@[y][x] == Prefab::Empty,
    {
        Level::new_document()
    }
}

} // verus!
