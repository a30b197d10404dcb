//! Laws of the edit engine: the clamp invariant of height edits and the
//! exactness of undo.

use vstd::prelude::*;

use crate::history::{
    apply_height_squares, apply_prefab_squares, clamp_spec, set_height_clamped, set_prefab,
    undo_prefab_squares, Edit, EditData,
};
use crate::model::{mat_wf, Height, Prefab};

verus! {

/// Every cell's height lies within the live range [-50, 50].
pub open spec fn heights_in_range(h: Seq<Seq<Height>>) -> bool {
    forall|x: int, y: int|
        0 <= x < 16 && 0 <= y < 16 ==> -50 <= (#[trigger] h[y][x]).0 <= 50
}

/// Some target in `sq` names the cell (x, y).
pub open spec fn sq_contains(sq: Seq<(usize, usize)>, x: int, y: int) -> bool {
    exists|i: int| 0 <= i < sq.len() && (#[trigger] sq[i]).0 == x && sq[i].1 == y
}

/// No cell is named twice in `sq`.
pub open spec fn sq_distinct(sq: Seq<(usize, usize)>) -> bool {
    forall|i: int, j: int|
        #![trigger sq[i], sq[j]]
        0 <= i < j < sq.len() ==> sq[i] != sq[j]
}

proof fn lemma_set_height_wf(h: Seq<Seq<Height>>, x: int, y: int, d: int)
    requires
        mat_wf(h),
    ensures
        mat_wf(set_height_clamped(h, x, y, d)),
{
    let r = set_height_clamped(h, x, y, d);
    assert forall|yy: int| 0 <= yy < 16 implies (#[trigger] r[yy]).len() == 16 by {
        assert(h[yy].len() == 16);
    }
}

proof fn lemma_set_prefab_wf(p: Seq<Seq<Prefab>>, x: int, y: int, v: Prefab)
    requires
        mat_wf(p),
    ensures
        mat_wf(set_prefab(p, x, y, v)),
{
    let r = set_prefab(p, x, y, v);
    assert forall|yy: int| 0 <= yy < 16 implies (#[trigger] r[yy]).len() == 16 by {
        assert(p[yy].len() == 16);
    }
}

/// A height edit keeps the grid 16x16.
pub proof fn lemma_apply_height_wf(h: Seq<Seq<Height>>, sq: Seq<(usize, usize)>, d: int)
    requires
        mat_wf(h),
    ensures
        mat_wf(apply_height_squares(h, sq, d)),
    decreases sq.len(),
{
    if sq.len() > 0 {
        lemma_apply_height_wf(h, sq.drop_last(), d);
        lemma_set_height_wf(
            apply_height_squares(h, sq.drop_last(), d),
            sq.last().0 as int,
            sq.last().1 as int,
            d,
        );
    }
}

/// A prefab edit keeps the grid 16x16.
pub proof fn lemma_apply_prefab_wf(p: Seq<Seq<Prefab>>, sq: Seq<(usize, usize)>, to: Prefab)
    requires
        mat_wf(p),
    ensures
        mat_wf(apply_prefab_squares(p, sq, to)),
    decreases sq.len(),
{
    if sq.len() > 0 {
        lemma_apply_prefab_wf(p, sq.drop_last(), to);
        lemma_set_prefab_wf(
            apply_prefab_squares(p, sq.drop_last(), to),
            sq.last().0 as int,
            sq.last().1 as int,
            to,
        );
    }
}

/// A prefab undo keeps the grid 16x16.
pub proof fn lemma_undo_prefab_wf(
    p: Seq<Seq<Prefab>>,
    sq: Seq<(usize, usize)>,
    from: Seq<Prefab>,
    n: nat,
)
    requires
        mat_wf(p),
        n <= sq.len(),
        n <= from.len(),
    ensures
        mat_wf(undo_prefab_squares(p, sq, from, n)),
    decreases n,
{
    if n > 0 {
        lemma_undo_prefab_wf(p, sq, from, (n - 1) as nat);
        lemma_set_prefab_wf(
            undo_prefab_squares(p, sq, from, (n - 1) as nat),
            sq[n - 1].0 as int,
            sq[n - 1].1 as int,
            from[n - 1],
        );
    }
}

/// Height clamp invariant: a height edit (apply or undo, which is apply with
/// the negated delta) keeps every cell's value within [-50, 50], so any
/// sequence of height edits does too.
pub proof fn lemma_height_edits_stay_clamped(h: Seq<Seq<Height>>, sq: Seq<(usize, usize)>, d: int)
    requires
        mat_wf(h),
        heights_in_range(h),
    ensures
        mat_wf(apply_height_squares(h, sq, d)),
        heights_in_range(apply_height_squares(h, sq, d)),
    decreases sq.len(),
{
    lemma_apply_height_wf(h, sq, d);
    if sq.len() > 0 {
        lemma_height_edits_stay_clamped(h, sq.drop_last(), d);
        let prev = apply_height_squares(h, sq.drop_last(), d);
        let r = apply_height_squares(h, sq, d);
        let lx = sq.last().0 as int;
        let ly = sq.last().1 as int;
        assert forall|x: int, y: int|
            0 <= x < 16 && 0 <= y < 16 implies -50 <= (#[trigger] r[y][x]).0 <= 50 by {
            assert(-50 <= prev[y][x].0 <= 50);
            if 0 <= lx < 16 && 0 <= ly < 16 && x == lx && y == ly {
                assert(r[y][x] == Height(clamp_spec(prev[y][x].0 + d) as i8));
            } else {
                assert(r[y][x] == prev[y][x]);
            }
        }
    }
}

/// What a height edit leaves in one in-range cell, when no cell is targeted
/// twice: the clamped sum if the cell is targeted, the old value otherwise.
pub proof fn lemma_apply_height_pointwise(
    h: Seq<Seq<Height>>,
    sq: Seq<(usize, usize)>,
    d: int,
    x: int,
    y: int,
)
    requires
        mat_wf(h),
        sq_distinct(sq),
        0 <= x < 16,
        0 <= y < 16,
    ensures
        apply_height_squares(h, sq, d)[y][x] == (if sq_contains(sq, x, y) {
            Height(clamp_spec(h[y][x].0 + d) as i8)
        } else {
            h[y][x]
        }),
    decreases sq.len(),
{
    if sq.len() == 0 {
        assert(!sq_contains(sq, x, y));
    } else {
        let rest = sq.drop_last();
        let last = sq[sq.len() - 1];
        let lx = last.0 as int;
        let ly = last.1 as int;
        assert(sq_distinct(rest)) by {
            assert(forall|i: int| 0 <= i < rest.len() ==> rest[i] == sq[i]);
        }
        lemma_apply_height_pointwise(h, rest, d, x, y);
        lemma_apply_height_wf(h, rest, d);
        let prev = apply_height_squares(h, rest, d);
        let r = apply_height_squares(h, sq, d);
        if lx == x && ly == y {
            assert(!sq_contains(rest, x, y)) by {
                if sq_contains(rest, x, y) {
                    let i = choose|i: int|
                        0 <= i < rest.len() && (#[trigger] rest[i]).0 == x && rest[i].1 == y;
                    assert(rest[i] == sq[i]);
                    assert(sq[i].0 == last.0 && sq[i].1 == last.1);
                    assert(sq[i] == sq[sq.len() - 1]);
                }
            }
            assert(prev[y][x] == h[y][x]);
            assert(r[y][x] == Height(clamp_spec(h[y][x].0 + d) as i8));
            assert(sq_contains(sq, x, y)) by {
                assert((sq[sq.len() - 1]).0 == x && sq[sq.len() - 1].1 == y);
            }
        } else {
            assert(r[y][x] == prev[y][x]);
            assert(sq_contains(sq, x, y) == sq_contains(rest, x, y)) by {
                if sq_contains(sq, x, y) {
                    let i = choose|i: int|
                        0 <= i < sq.len() && (#[trigger] sq[i]).0 == x && sq[i].1 == y;
                    assert(i < sq.len() - 1);
                    assert(rest[i] == sq[i]);
                    assert(sq_contains(rest, x, y));
                }
                if sq_contains(rest, x, y) {
                    let i = choose|i: int|
                        0 <= i < rest.len() && (#[trigger] rest[i]).0 == x && rest[i].1 == y;
                    assert(sq[i] == rest[i]);
                    assert(sq_contains(sq, x, y));
                }
            }
        }
    }
}

/// What a prefab edit leaves in one in-range cell: `to` if the cell is
/// targeted (however many times), the old value otherwise.
pub proof fn lemma_apply_prefab_pointwise(
    p: Seq<Seq<Prefab>>,
    sq: Seq<(usize, usize)>,
    to: Prefab,
    x: int,
    y: int,
)
    requires
        mat_wf(p),
        0 <= x < 16,
        0 <= y < 16,
    ensures
        apply_prefab_squares(p, sq, to)[y][x] == (if sq_contains(sq, x, y) {
            to
        } else {
            p[y][x]
        }),
    decreases sq.len(),
{
    if sq.len() == 0 {
        assert(!sq_contains(sq, x, y));
    } else {
        let rest = sq.drop_last();
        let last = sq[sq.len() - 1];
        let lx = last.0 as int;
        let ly = last.1 as int;
        lemma_apply_prefab_pointwise(p, rest, to, x, y);
        lemma_apply_prefab_wf(p, rest, to);
        let prev = apply_prefab_squares(p, rest, to);
        let r = apply_prefab_squares(p, sq, to);
        if lx == x && ly == y {
            assert(r[y][x] == to);
            assert(sq_contains(sq, x, y)) by {
                assert((sq[sq.len() - 1]).0 == x && sq[sq.len() - 1].1 == y);
            }
        } else {
            assert(r[y][x] == prev[y][x]);
            assert(sq_contains(sq, x, y) == sq_contains(rest, x, y)) by {
                if sq_contains(sq, x, y) {
                    let i = choose|i: int|
                        0 <= i < sq.len() && (#[trigger] sq[i]).0 == x && sq[i].1 == y;
                    assert(i < sq.len() - 1);
                    assert(rest[i] == sq[i]);
                    assert(sq_contains(rest, x, y));
                }
                if sq_contains(rest, x, y) {
                    let i = choose|i: int|
                        0 <= i < rest.len() && (#[trigger] rest[i]).0 == x && rest[i].1 == y;
                    assert(sq[i] == rest[i]);
                    assert(sq_contains(sq, x, y));
                }
            }
        }
    }
}

/// Index of the last of the first `n` targets naming (x, y), or -1.
pub open spec fn last_target_before(sq: Seq<(usize, usize)>, n: nat, x: int, y: int) -> int
    decreases n,
        when n <= sq.len()
{
    if n == 0 {
        -1
    } else if sq[n - 1].0 == x && sq[n - 1].1 == y {
        n - 1
    } else {
        last_target_before(sq, (n - 1) as nat, x, y)
    }
}

proof fn lemma_last_target_props(sq: Seq<(usize, usize)>, n: nat, x: int, y: int)
    requires
        n <= sq.len(),
    ensures
        -1 <= last_target_before(sq, n, x, y) < n,
        last_target_before(sq, n, x, y) >= 0 ==> (sq[last_target_before(sq, n, x, y)].0 == x
            && sq[last_target_before(sq, n, x, y)].1 == y),
        (last_target_before(sq, n, x, y) >= 0) == exists|i: int|
            0 <= i < n && (#[trigger] sq[i]).0 == x && sq[i].1 == y,
    decreases n,
{
    if n > 0 {
        lemma_last_target_props(sq, (n - 1) as nat, x, y);
        if !(sq[n - 1].0 == x && sq[n - 1].1 == y) {
            if exists|i: int| 0 <= i < n && (#[trigger] sq[i]).0 == x && sq[i].1 == y {
                let i = choose|i: int|
                    0 <= i < n && (#[trigger] sq[i]).0 == x && sq[i].1 == y;
                assert(i < n - 1);
                assert(exists|i: int|
                    0 <= i < n - 1 && (#[trigger] sq[i]).0 == x && sq[i].1 == y);
            }
        }
    }
}

/// What a prefab undo leaves in one in-range cell: the recorded value of the
/// last target naming it, or the grid's own value if none does.
pub proof fn lemma_undo_prefab_pointwise(
    p: Seq<Seq<Prefab>>,
    sq: Seq<(usize, usize)>,
    from: Seq<Prefab>,
    n: nat,
    x: int,
    y: int,
)
    requires
        mat_wf(p),
        n <= sq.len(),
        n <= from.len(),
        0 <= x < 16,
        0 <= y < 16,
    ensures
        undo_prefab_squares(p, sq, from, n)[y][x] == (if last_target_before(sq, n, x, y) >= 0 {
            from[last_target_before(sq, n, x, y)]
        } else {
            p[y][x]
        }),
    decreases n,
{
    if n > 0 {
        lemma_undo_prefab_pointwise(p, sq, from, (n - 1) as nat, x, y);
        lemma_undo_prefab_wf(p, sq, from, (n - 1) as nat);
        lemma_last_target_props(sq, n, x, y);
    }
}

/// Undo exactness for height edits in the non-clamped case: when no cell is
/// targeted twice, every targeted in-range cell starts within [-50, 50] and
/// lands strictly inside (-50, 50), undoing restores every cell exactly.
pub proof fn lemma_undo_height_exact(h: Seq<Seq<Height>>, sq: Seq<(usize, usize)>, d: int)
    requires
        mat_wf(h),
        sq_distinct(sq),
        forall|i: int|
            0 <= i < sq.len() && (#[trigger] sq[i]).0 < 16 && sq[i].1 < 16 ==> (-50 <= h[sq[i].1
                as int][sq[i].0 as int].0 <= 50 && -50 < h[sq[i].1 as int][sq[i].0 as int].0 + d
                < 50),
    ensures
        apply_height_squares(apply_height_squares(h, sq, d), sq, -d) == h,
{
    let g1 = apply_height_squares(h, sq, d);
    let g2 = apply_height_squares(g1, sq, -d);
    lemma_apply_height_wf(h, sq, d);
    lemma_apply_height_wf(g1, sq, -d);
    assert forall|x: int, y: int| 0 <= x < 16 && 0 <= y < 16 implies g2[y][x] == h[y][x] by {
        lemma_apply_height_pointwise(h, sq, d, x, y);
        lemma_apply_height_pointwise(g1, sq, -d, x, y);
        if sq_contains(sq, x, y) {
            let i = choose|i: int|
                0 <= i < sq.len() && (#[trigger] sq[i]).0 == x && sq[i].1 == y;
            assert(-50 <= h[y][x].0 <= 50 && -50 < h[y][x].0 + d < 50);
            assert(clamp_spec(h[y][x].0 + d) == h[y][x].0 + d);
            assert(g1[y][x].0 == h[y][x].0 + d);
            assert(clamp_spec(g1[y][x].0 + (-d)) == h[y][x].0);
            assert(g2[y][x] == Height(h[y][x].0));
            assert(Height(h[y][x].0) == h[y][x]);
        } else {
            assert(g1[y][x] == h[y][x]);
            assert(g2[y][x] == g1[y][x]);
        }
    }
    assert forall|y: int| 0 <= y < 16 implies g2[y] == h[y] by {
        assert(g2[y].len() == 16 && h[y].len() == 16);
        assert forall|x: int| 0 <= x < 16 implies g2[y][x] == h[y][x] by {
            assert(0 <= x < 16 && 0 <= y < 16);
        }
        assert(g2[y] =~= h[y]);
    }
    assert(g2 =~= h);
}

/// Undo exactness for prefab edits: whenever the recorded `from` values
/// match the grid cell for cell (as they do by construction), undoing an
/// applied prefab edit restores the grid exactly, independent of `to` and of
/// repeated targets.
pub proof fn lemma_undo_prefab_exact(
    p: Seq<Seq<Prefab>>,
    sq: Seq<(usize, usize)>,
    from: Seq<Prefab>,
    to: Prefab,
)
    requires
        mat_wf(p),
        from.len() == sq.len(),
        forall|i: int|
            0 <= i < sq.len() && (#[trigger] sq[i]).0 < 16 && sq[i].1 < 16 ==> from[i] == p[sq[i].1
                as int][sq[i].0 as int],
    ensures
        undo_prefab_squares(apply_prefab_squares(p, sq, to), sq, from, sq.len()) == p,
{
    let g1 = apply_prefab_squares(p, sq, to);
    let g2 = undo_prefab_squares(g1, sq, from, sq.len());
    lemma_apply_prefab_wf(p, sq, to);
    lemma_undo_prefab_wf(g1, sq, from, sq.len());
    assert forall|x: int, y: int| 0 <= x < 16 && 0 <= y < 16 implies g2[y][x] == p[y][x] by {
        lemma_apply_prefab_pointwise(p, sq, to, x, y);
        lemma_undo_prefab_pointwise(g1, sq, from, sq.len(), x, y);
        lemma_last_target_props(sq, sq.len(), x, y);
        let l = last_target_before(sq, sq.len(), x, y);
        if l >= 0 {
            assert(sq[l].0 == x && sq[l].1 == y);
            assert(from[l] == p[y][x]);
            assert(g2[y][x] == from[l]);
        } else {
            assert(!sq_contains(sq, x, y)) by {
                if sq_contains(sq, x, y) {
                    let i = choose|i: int|
                        0 <= i < sq.len() && (#[trigger] sq[i]).0 == x && sq[i].1 == y;
                    assert(exists|i: int|
                        0 <= i < sq.len() && (#[trigger] sq[i]).0 == x && sq[i].1 == y);
                }
            }
            assert(g1[y][x] == p[y][x]);
            assert(g2[y][x] == g1[y][x]);
        }
    }
    assert forall|y: int| 0 <= y < 16 implies g2[y] == p[y] by {
        assert(g2[y].len() == 16 && p[y].len() == 16);
        assert forall|x: int| 0 <= x < 16 implies g2[y][x] == p[y][x] by {
            assert(0 <= x < 16 && 0 <= y < 16);
        }
        assert(g2[y] =~= p[y]);
    }
    assert(g2 =~= p);
}

/// How many targets in `sq` name the cell (x, y).
pub open spec fn sq_count(sq: Seq<(usize, usize)>, x: int, y: int) -> nat
    decreases sq.len(),
{
    if sq.len() == 0 {
        0
    } else {
        sq_count(sq.drop_last(), x, y) + (if sq.last().0 == x && sq.last().1 == y {
            1nat
        } else {
            0nat
        })
    }
}

/// The value of one cell after `k` clamped additions of `d`.
pub open spec fn clamp_iter(v: int, d: int, k: nat) -> int
    decreases k,
{
    if k == 0 {
        v
    } else {
        clamp_spec(clamp_iter(v, d, (k - 1) as nat) + d)
    }
}

/// What a height edit leaves in one in-range cell, with repeated targets
/// allowed: the clamped addition iterated once per occurrence.
pub proof fn lemma_apply_height_pointwise_count(
    h: Seq<Seq<Height>>,
    sq: Seq<(usize, usize)>,
    d: int,
    x: int,
    y: int,
)
    requires
        mat_wf(h),
        0 <= x < 16,
        0 <= y < 16,
    ensures
        sq_count(sq, x, y) == 0 ==> apply_height_squares(h, sq, d)[y][x] == h[y][x],
        sq_count(sq, x, y) > 0 ==> apply_height_squares(h, sq, d)[y][x] == Height(
            clamp_iter(h[y][x].0 as int, d, sq_count(sq, x, y)) as i8,
        ),
    decreases sq.len(),
{
    if sq.len() > 0 {
        let rest = sq.drop_last();
        let last = sq[sq.len() - 1];
        let lx = last.0 as int;
        let ly = last.1 as int;
        let v = h[y][x].0 as int;
        lemma_apply_height_pointwise_count(h, rest, d, x, y);
        lemma_apply_height_wf(h, rest, d);
        let prev = apply_height_squares(h, rest, d);
        let r = apply_height_squares(h, sq, d);
        let cr = sq_count(rest, x, y);
        if lx == x && ly == y {
            assert(sq_count(sq, x, y) == cr + 1);
            assert(r[y][x] == Height(clamp_spec(prev[y][x].0 + d) as i8));
            if cr == 0 {
                assert(prev[y][x] == h[y][x]);
                assert(clamp_iter(v, d, 1) == clamp_spec(clamp_iter(v, d, 0) + d));
            } else {
                assert(prev[y][x] == Height(clamp_iter(v, d, cr) as i8));
                assert(clamp_iter(v, d, cr) == clamp_spec(clamp_iter(v, d, (cr - 1) as nat) + d));
                assert(-50 <= clamp_iter(v, d, cr) <= 50);
                assert(prev[y][x].0 as int == clamp_iter(v, d, cr));
                assert(clamp_iter(v, d, cr + 1) == clamp_spec(clamp_iter(v, d, cr) + d));
            }
        } else {
            assert(sq_count(sq, x, y) == cr);
            assert(r[y][x] == prev[y][x]);
        }
    }
}

/// When the start value and the value after all `k` additions both lie
/// within [-50, 50], no clamp ever fires and the iteration is plain
/// addition.
proof fn lemma_clamp_iter_no_clamp(v: int, d: int, k: nat)
    requires
        -50 <= v <= 50,
        -50 <= v + k * d <= 50,
    ensures
        clamp_iter(v, d, k) == v + k * d,
    decreases k,
{
    if k == 0 {
        assert(k * d == 0) by (nonlinear_arith)
            requires
                k == 0,
        ;
    } else {
        let k1 = (k - 1) as nat;
        assert(k1 * d == k * d - d) by (nonlinear_arith)
            requires
                k1 == k - 1,
        ;
        assert(-50 <= v + k1 * d <= 50) by {
            if d >= 0 {
                assert(k1 * d >= 0) by (nonlinear_arith)
                    requires
                        k1 >= 0 && d >= 0,
                ;
            } else {
                assert(k1 * d <= 0) by (nonlinear_arith)
                    requires
                        k1 >= 0 && d < 0,
                ;
            }
        }
        lemma_clamp_iter_no_clamp(v, d, k1);
        assert(clamp_spec(v + k1 * d + d) == v + k * d);
    }
}

/// Undo exactness for height edits with repeated targets allowed: when each
/// targeted in-range cell starts within [-50, 50] and would land within
/// [-50, 50] after all its clamped additions, no clamp fires on the way, and
/// undoing the edit restores every cell exactly.
pub proof fn lemma_undo_height_exact_any_targets(
    h: Seq<Seq<Height>>,
    sq: Seq<(usize, usize)>,
    d: int,
)
    requires
        mat_wf(h),
        forall|x: int, y: int|
            0 <= x < 16 && 0 <= y < 16 && #[trigger] sq_count(sq, x, y) > 0 ==> (-50 <= h[y][x].0
                <= 50 && -50 <= h[y][x].0 + sq_count(sq, x, y) * d <= 50),
    ensures
        apply_height_squares(apply_height_squares(h, sq, d), sq, -d) == h,
{
    let g1 = apply_height_squares(h, sq, d);
    let g2 = apply_height_squares(g1, sq, -d);
    lemma_apply_height_wf(h, sq, d);
    lemma_apply_height_wf(g1, sq, -d);
    assert forall|x: int, y: int| 0 <= x < 16 && 0 <= y < 16 implies g2[y][x] == h[y][x] by {
        lemma_apply_height_pointwise_count(h, sq, d, x, y);
        lemma_apply_height_pointwise_count(g1, sq, -d, x, y);
        let k = sq_count(sq, x, y);
        let v = h[y][x].0 as int;
        if k > 0 {
            lemma_clamp_iter_no_clamp(v, d, k);
            assert(g1[y][x] == Height((v + k * d) as i8));
            let w = v + k * d;
            assert(g1[y][x].0 as int == w);
            assert(w + k * (-d) == v) by (nonlinear_arith)
                requires
                    w == v + k * d,
            ;
            lemma_clamp_iter_no_clamp(w, -d, k);
            assert(g2[y][x] == Height(v as i8));
            assert(Height(v as i8) == h[y][x]);
        } else {
            assert(g1[y][x] == h[y][x]);
            assert(g2[y][x] == g1[y][x]);
        }
    }
    assert forall|y: int| 0 <= y < 16 implies g2[y] == h[y] by {
        assert(g2[y].len() == 16 && h[y].len() == 16);
        assert forall|x: int| 0 <= x < 16 implies g2[y][x] == h[y][x] by {
            assert(0 <= x < 16 && 0 <= y < 16);
        }
        assert(g2[y] =~= h[y]);
    }
    assert(g2 =~= h);
}

/// Undo exactness at the edit level, in the terms `Edit::apply` and
/// `Edit::undo` promise. For a height edit: when no cell is targeted twice
/// (as holds for every selection-built edit) and every targeted in-range
/// cell starts within [-50, 50] and lands strictly inside (-50, 50), undo
/// restores the exact prior grids. For a prefab edit: whenever the recorded
/// `from` values match the grid cell for cell (as they do by construction),
/// undo is always exact, independent of clamping and of the target value.
pub proof fn lemma_edit_undo_exact(edit: Edit, h: Seq<Seq<Height>>, p: Seq<Seq<Prefab>>)
    requires
        edit.wf(),
        mat_wf(h),
        mat_wf(p),
        edit.data matches EditData::Height(d) ==> sq_distinct(edit.squares@) && (forall|i: int|
            0 <= i < edit.squares@.len() && (#[trigger] edit.squares@[i]).0 < 16
                && edit.squares@[i].1 < 16 ==> (-50 <= h[edit.squares@[i].1 as int][
                edit.squares@[i].0 as int
            ].0 <= 50 && -50 < h[edit.squares@[i].1 as int][edit.squares@[i].0 as int].0 + d
                < 50)),
        edit.data matches EditData::Prefab { from, to } ==> (forall|i: int|
            0 <= i < edit.squares@.len() && (#[trigger] edit.squares@[i]).0 < 16
                && edit.squares@[i].1 < 16 ==> from@[i] == p[edit.squares@[i].1 as int][
                edit.squares@[i].0 as int
            ]),
    ensures
        edit.undo_heights(edit.apply_heights(h)) == h,
        edit.undo_prefabs(edit.apply_prefabs(p)) == p,
{
    let sq = edit.squares@;
    match edit.data {
        EditData::Height(d) => {
            if d == 0 {
                // The apply is suppressed; the undo subtracts zero and
                // re-clamps, which moves no in-range cell.
                let g2 = apply_height_squares(h, sq, 0);
                lemma_apply_height_wf(h, sq, 0);
                assert forall|x: int, y: int|
                    0 <= x < 16 && 0 <= y < 16 implies g2[y][x] == h[y][x] by {
                    lemma_apply_height_pointwise(h, sq, 0, x, y);
                    if sq_contains(sq, x, y) {
                        let i = choose|i: int|
                            0 <= i < sq.len() && (#[trigger] sq[i]).0 == x && sq[i].1 == y;
                        assert(clamp_spec(h[y][x].0 + 0) == h[y][x].0);
                        assert(g2[y][x] == Height(h[y][x].0));
                    }
                }
                assert forall|y: int| 0 <= y < 16 implies g2[y] == h[y] by {
                    assert(g2[y].len() == 16 && h[y].len() == 16);
                    assert forall|x: int| 0 <= x < 16 implies g2[y][x] == h[y][x] by {
                        assert(0 <= x < 16 && 0 <= y < 16);
                    }
                    assert(g2[y] =~= h[y]);
                }
                assert(g2 =~= h);
                assert(edit.undo_heights(edit.apply_heights(h)) == apply_height_squares(
                    h,
                    sq,
                    -0,
                ));
            } else {
                lemma_undo_height_exact(h, sq, d as int);
            }
        },
        EditData::Prefab { from, to } => {
            if edit.is_noop() {
                // The apply is suppressed; the undo rewrites each target
                // with its recorded value, which equals the cell already.
                let g2 = undo_prefab_squares(p, sq, from@, sq.len());
                lemma_undo_prefab_wf(p, sq, from@, sq.len());
                assert forall|x: int, y: int|
                    0 <= x < 16 && 0 <= y < 16 implies g2[y][x] == p[y][x] by {
                    lemma_undo_prefab_pointwise(p, sq, from@, sq.len(), x, y);
                    lemma_last_target_props(sq, sq.len(), x, y);
                    let l = last_target_before(sq, sq.len(), x, y);
                    if l >= 0 {
                        assert(sq[l].0 == x && sq[l].1 == y);
                        assert(from@[l] == p[y][x]);
                    }
                }
                assert forall|y: int| 0 <= y < 16 implies g2[y] == p[y] by {
                    assert(g2[y].len() == 16 && p[y].len() == 16);
                    assert forall|x: int| 0 <= x < 16 implies g2[y][x] == p[y][x] by {
                        assert(0 <= x < 16 && 0 <= y < 16);
                    }
                    assert(g2[y] =~= p[y]);
                }
                assert(g2 =~= p);
            } else {
                lemma_undo_prefab_exact(p, sq, from@, to);
            }
        },
    }
}

} // verus!
