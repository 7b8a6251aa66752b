//! Index bookkeeping of the grid-based Hamilton-Jacobi-Bellman solver.
//!
//! The value function lives on `nt + 1` time levels of `nx` spatial points,
//! stored level after level: the value at time index `k` and position index
//! `i` sits at `k * nx + i`.

use vstd::prelude::*;

verus! {

/// Position of the value at time index `k` and position index `i` in a grid
/// with `nx` points per time level.
pub open spec fn grid_offset(k: int, i: int, nx: int) -> int {
    k * nx + i
}

/// The four grid nodes around a query point: time indices `k` and `k1`,
/// position indices `i` and `i1`.
pub struct GridCell {
    pub k: usize,
    pub i: usize,
    pub k1: usize,
    pub i1: usize,
}

/// Chooses the cell used for bilinear interpolation from the floored
/// fractional indices `k_floor` (time) and `i_floor` (space): both are clamped
/// into the grid, and the upper neighbours are clamped to the last node.
pub fn interpolation_cell(k_floor: usize, i_floor: usize, nt: usize, nx: usize) -> (c: GridCell)
    requires
        nx >= 2,
        (nt + 1) * nx <= usize::MAX,
    ensures
        c.k == if k_floor < nt { k_floor } else { nt },
        c.i == if i_floor < nx - 2 { i_floor } else { (nx - 2) as usize },
        c.k1 == if c.k + 1 < nt { (c.k + 1) as usize } else { nt },
        c.i1 == if c.i + 1 < nx - 1 { (c.i + 1) as usize } else { (nx - 1) as usize },
        c.k <= c.k1 <= nt,
        c.i1 == c.i + 1,
        c.i1 < nx,
        grid_offset(c.k1 as int, c.i1 as int, nx as int) < (nt + 1) * nx,
{
    let k = if k_floor < nt { k_floor } else { nt };
    proof {
        assert(nt + 1 <= (nt + 1) * nx) by (nonlinear_arith)
            requires nx >= 2;
    }
    let i = if i_floor < nx - 2 { i_floor } else { nx - 2 };
    let k1 = if k + 1 < nt { k + 1 } else { nt };
    let i1 = if i + 1 < nx - 1 { i + 1 } else { nx - 1 };
    proof {
        assert(k1 * nx + i1 < (nt + 1) * nx) by (nonlinear_arith)
            requires k1 <= nt, i1 < nx;
    }
    GridCell { k, i, k1, i1 }
}

/// The two spatial nodes of a finite-difference estimate of `dV/dx` at one
/// node: `(V[upper] - V[lower]) / (2 dx)` when `central`, else
/// `(V[upper] - V[lower]) / dx`.
pub struct Stencil {
    pub upper: usize,
    pub lower: usize,
    pub central: bool,
}

/// The stencil `(upper, lower, central)` used at position `i` of a level of
/// `nx` points while integrating backwards in time.
pub open spec fn spec_solve_stencil(i: int, nx: int) -> (int, int, bool) {
    if i == 0 {
        (1, 0, false)
    } else if i == nx - 1 {
        (i, i - 1, false)
    } else {
        (i + 1, i - 1, true)
    }
}

/// The stencil used while integrating backwards in time at position `i`:
/// one-sided at the two ends of the grid, central inside.
pub fn solve_stencil(i: usize, nx: usize) -> (s: Stencil)
    requires
        nx >= 2,
        i < nx,
    ensures
        i == 0 ==> s.upper == 1 && s.lower == 0 && !s.central,
        0 < i && i == nx - 1 ==> s.upper == i && s.lower == i - 1 && !s.central,
        0 < i < nx - 1 ==> s.upper == i + 1 && s.lower == i - 1 && s.central,
        s.lower < s.upper < nx,
        (s.upper as int, s.lower as int, s.central) == spec_solve_stencil(i as int, nx as int),
{
    if i == 0 {
        Stencil { upper: 1, lower: 0, central: false }
    } else if i == nx - 1 {
        Stencil { upper: i, lower: i - 1, central: false }
    } else {
        Stencil { upper: i + 1, lower: i - 1, central: true }
    }
}

/// The stencil used when choosing the optimal control in cell `i` (a cell
/// index, so at most `nx - 2`): one-sided in the first and last cell, central
/// inside.
pub fn control_stencil(i: usize, nx: usize) -> (s: Stencil)
    requires
        nx >= 2,
        i <= nx - 2,
    ensures
        i == 0 ==> s.upper == 1 && s.lower == 0 && !s.central,
        0 < i && i == nx - 2 ==> s.upper == nx - 1 && s.lower == nx - 2 && !s.central,
        0 < i < nx - 2 ==> s.upper == i + 1 && s.lower == i - 1 && s.central,
        s.lower < s.upper < nx,
{
    if i == 0 {
        Stencil { upper: 1, lower: 0, central: false }
    } else if i >= nx - 2 {
        Stencil { upper: nx - 1, lower: nx - 2, central: false }
    } else {
        Stencil { upper: i + 1, lower: i - 1, central: true }
    }
}

/// Level `row` is computed from the next level `next`, point by point, by
/// `backup` on the stencil of each point.
pub open spec fn backed_up<V, B: Fn(usize, V, V, bool, V) -> V>(
    backup: B,
    next: Seq<V>,
    row: Seq<V>,
    nx: int,
) -> bool {
    forall|j: int|
        0 <= j < nx ==> backup.ensures(
            (
                j as usize,
                next[spec_solve_stencil(j, nx).0],
                next[spec_solve_stencil(j, nx).1],
                spec_solve_stencil(j, nx).2,
                next[j],
            ),
            #[trigger] row[j],
        )
}

/// Level `k` of a grid stored level after level, with `nx` points per level.
pub open spec fn grid_level<V>(values: Seq<V>, nx: int, k: int) -> Seq<V> {
    values.subrange(k * nx, k * nx + nx)
}

/// Level `k` of the grid `values` is computed from level `k + 1` by `backup`.
pub open spec fn level_backed_up<V, B: Fn(usize, V, V, bool, V) -> V>(
    backup: B,
    values: Seq<V>,
    nx: int,
    k: int,
) -> bool {
    backed_up(backup, grid_level(values, nx, k + 1), grid_level(values, nx, k), nx)
}

/// The value at time index `k` and position index `j` of a grid stored level
/// after level, with `nx` points per level.
pub open spec fn sweep_value<V>(values: Seq<V>, nx: int, k: int, j: int) -> V {
    values[k * nx + j]
}

/// Law: a level computed by `backup` from the next level `next` holds, at
/// every position `j`, the backup of position `j` itself, fed with the value
/// of `next` at `j` and at `j`'s neighbours: one-sided forward at the first
/// position, one-sided backward at the last, central in between.
pub proof fn lemma_backed_up_node<V, B: Fn(usize, V, V, bool, V) -> V>(
    backup: B,
    next: Seq<V>,
    row: Seq<V>,
    nx: int,
    j: int,
)
    requires
        backed_up(backup, next, row, nx),
        nx >= 2,
        0 <= j < nx,
    ensures
        j == 0 ==> backup.ensures((0usize, next[1], next[0], false, next[0]), row[0]),
        0 < j < nx - 1 ==> backup.ensures((j as usize, next[j + 1], next[j - 1], true, next[j]), row[j]),
        0 < j && j == nx - 1 ==> backup.ensures((j as usize, next[j], next[j - 1], false, next[j]), row[j]),
{
    assert(backup.ensures(
        (
            j as usize,
            next[spec_solve_stencil(j, nx).0],
            next[spec_solve_stencil(j, nx).1],
            spec_solve_stencil(j, nx).2,
            next[j],
        ),
        row[j],
    ));
}

/// The last level: `terminal(i)` at every point `i`.
fn terminal_level<V: Copy, P: Fn(usize) -> V>(nx: usize, terminal: &P) -> (row: Vec<V>)
    requires
        forall|i: usize| #[trigger] terminal.requires((i,)),
    ensures
        row@.len() == nx,
        forall|j: int| 0 <= j < nx ==> terminal.ensures((j as usize,), #[trigger] row@[j]),
{
    let mut row: Vec<V> = Vec::new();
    let mut i: usize = 0;
    while i < nx
        invariant
            i <= nx,
            row@.len() == i,
            forall|i: usize| #[trigger] terminal.requires((i,)),
            forall|j: int| 0 <= j < i ==> terminal.ensures((j as usize,), #[trigger] row@[j]),
        decreases nx - i,
    {
        row.push(terminal(i));
        i = i + 1;
    }
    row
}

/// One step back in time: the level before `next`.
fn backup_level<V: Copy, B: Fn(usize, V, V, bool, V) -> V>(next: &Vec<V>, backup: &B) -> (row: Vec<V>)
    requires
        next@.len() != 1,
        forall|i: usize, a: V, b: V, c: bool, d: V| #[trigger] backup.requires((i, a, b, c, d)),
    ensures
        row@.len() == next@.len(),
        backed_up(*backup, next@, row@, next@.len() as int),
{
    let nx = next.len();
    let mut row: Vec<V> = Vec::new();
    let mut i: usize = 0;
    while i < nx
        invariant
            nx == next@.len(),
            nx != 1,
            i <= nx,
            row@.len() == i,
            forall|i: usize, a: V, b: V, c: bool, d: V| #[trigger] backup.requires((i, a, b, c, d)),
            forall|j: int|
                0 <= j < i ==> backup.ensures(
                    (
                        j as usize,
                        next@[spec_solve_stencil(j, nx as int).0],
                        next@[spec_solve_stencil(j, nx as int).1],
                        spec_solve_stencil(j, nx as int).2,
                        next@[j],
                    ),
                    #[trigger] row@[j],
                ),
        decreases nx - i,
    {
        let s = solve_stencil(i, nx);
        let v = backup(i, next[s.upper], next[s.lower], s.central, next[i]);
        row.push(v);
        i = i + 1;
    }
    row
}

/// Lays the levels out one after the other, from time index 0 to the last:
/// `levels[m]` is time level `nt - m`.
fn lay_out_levels<V: Copy>(levels: &Vec<Vec<V>>, nx: usize) -> (values: Vec<V>)
    requires
        levels@.len() >= 1,
        forall|r: int| 0 <= r < levels@.len() ==> #[trigger] levels@[r]@.len() == nx,
    ensures
        values@.len() == levels@.len() * nx,
        forall|k: int|
            0 <= k < levels@.len() ==> #[trigger] grid_level(values@, nx as int, k)
                == levels@[levels@.len() - 1 - k]@,
{
    let count = levels.len();
    let mut values: Vec<V> = Vec::new();
    let mut k: usize = 0;
    while k < count
        invariant
            count == levels@.len(),
            count >= 1,
            k <= count,
            forall|r: int| 0 <= r < count ==> #[trigger] levels@[r]@.len() == nx,
            values@.len() == k * nx,
            forall|kk: int| 0 <= kk < k ==> #[trigger] grid_level(values@, nx as int, kk) == levels@[count - 1 - kk]@,
        decreases count - k,
    {
        let level = &levels[count - 1 - k];
        let ghost start = values@;
        let mut i: usize = 0;
        while i < nx
            invariant
                i <= nx,
                level@.len() == nx,
                values@ == start + level@.take(i as int),
            decreases nx - i,
        {
            values.push(level[i]);
            proof {
                assert(start + level@.take(i + 1) =~= (start + level@.take(i as int)).push(level@[i as int]));
            }
            i = i + 1;
        }
        proof {
            assert(level@.take(nx as int) =~= level@);
            assert((k + 1) * nx == k * nx + nx) by (nonlinear_arith);
            assert forall|kk: int| 0 <= kk < k + 1 implies #[trigger] grid_level(values@, nx as int, kk)
                == levels@[count - 1 - kk]@ by {
                if kk < k {
                    assert(kk * nx + nx <= k * nx) by (nonlinear_arith)
                        requires kk < k, nx >= 0;
                    assert(grid_level(values@, nx as int, kk) =~= grid_level(start, nx as int, kk));
                } else {
                    assert(grid_level(values@, nx as int, kk) =~= level@);
                }
            }
        }
        k = k + 1;
    }
    values
}

/// The backward sweep of the dynamic-programming solver on a grid of
/// `nt + 1` time levels of `nx` points, stored level after level.  The last
/// level holds `terminal(i)`; every earlier level `k` is computed point by
/// point, from `nt - 1` down to `0`, as `backup(i, v_upper, v_lower, central,
/// v_here)`, where the values are those of level `k + 1` at the two stencil
/// points of `i` and at `i` itself.
pub fn backward_sweep<V: Copy, P: Fn(usize) -> V, B: Fn(usize, V, V, bool, V) -> V>(
    nx: usize,
    nt: usize,
    terminal: P,
    backup: B,
) -> (values: Vec<V>)
    requires
        nt < usize::MAX,
        (nt + 1) * nx <= usize::MAX,
        nt > 0 ==> nx != 1,
        forall|i: usize| #[trigger] terminal.requires((i,)),
        forall|i: usize, a: V, b: V, c: bool, d: V| #[trigger] backup.requires((i, a, b, c, d)),
    ensures
        values@.len() == (nt + 1) * nx,
        forall|i: int|
            0 <= i < nx ==> terminal.ensures((i as usize,), #[trigger] grid_level(values@, nx as int, nt as int)[i]),
        forall|k: int| 0 <= k < nt ==> #[trigger] level_backed_up(backup, values@, nx as int, k),
        forall|i: int|
            0 <= i < nx ==> terminal.ensures((i as usize,), #[trigger] sweep_value(values@, nx as int, nt as int, i)),
        forall|k: int, j: int|
            #![trigger sweep_value(values@, nx as int, k, j)]
            0 <= k < nt && 0 <= j < nx ==> {
                &&& j == 0 ==> backup.ensures(
                    (
                        0usize,
                        values@[(k + 1) * nx + 1],
                        values@[(k + 1) * nx],
                        false,
                        values@[(k + 1) * nx],
                    ),
                    sweep_value(values@, nx as int, k, j),
                )
                &&& 0 < j < nx - 1 ==> backup.ensures(
                    (
                        j as usize,
                        values@[(k + 1) * nx + j + 1],
                        values@[(k + 1) * nx + j - 1],
                        true,
                        values@[(k + 1) * nx + j],
                    ),
                    sweep_value(values@, nx as int, k, j),
                )
                &&& 0 < j && j == nx - 1 ==> backup.ensures(
                    (
                        j as usize,
                        values@[(k + 1) * nx + j],
                        values@[(k + 1) * nx + j - 1],
                        false,
                        values@[(k + 1) * nx + j],
                    ),
                    sweep_value(values@, nx as int, k, j),
                )
            },
{
    // levels@[m] is time level nt - m.
    let mut levels: Vec<Vec<V>> = Vec::new();
    let last = terminal_level(nx, &terminal);
    levels.push(last);
    let mut m: usize = 0;
    while m < nt
        invariant
            m <= nt,
            nt > 0 ==> nx != 1,
            levels@.len() == m + 1,
            forall|r: int| 0 <= r <= m ==> #[trigger] levels@[r]@.len() == nx,
            forall|j: int| 0 <= j < nx ==> terminal.ensures((j as usize,), #[trigger] levels@[0]@[j]),
            forall|i: usize, a: V, b: V, c: bool, d: V| #[trigger] backup.requires((i, a, b, c, d)),
            forall|r: int|
                1 <= r <= m ==> #[trigger] backed_up(backup, levels@[r - 1]@, levels@[r]@, nx as int),
        decreases nt - m,
    {
        let row = backup_level(&levels[m], &backup);
        let ghost before = levels@;
        levels.push(row);
        proof {
            assert forall|r: int| 1 <= r <= m + 1 implies #[trigger] backed_up(
                backup,
                levels@[r - 1]@,
                levels@[r]@,
                nx as int,
            ) by {
                if r <= m {
                    assert(levels@[r] == before[r]);
                    assert(levels@[r - 1] == before[r - 1]);
                }
            }
        }
        m = m + 1;
    }
    let values = lay_out_levels(&levels, nx);
    proof {
        assert forall|k: int| 0 <= k < nt implies #[trigger] level_backed_up(
            backup,
            values@,
            nx as int,
            k,
        ) by {
            assert(grid_level(values@, nx as int, k) == levels@[nt - k]@);
            assert(grid_level(values@, nx as int, k + 1) == levels@[nt - k - 1]@);
        }
        assert(grid_level(values@, nx as int, nt as int) == levels@[0]@);
        assert((nt + 1) * nx == nt * nx + nx) by (nonlinear_arith);
        assert forall|i: int| 0 <= i < nx implies terminal.ensures(
            (i as usize,),
            #[trigger] sweep_value(values@, nx as int, nt as int, i),
        ) by {
            assert(sweep_value(values@, nx as int, nt as int, i) == grid_level(values@, nx as int, nt as int)[i]);
        }
        assert forall|k: int, j: int| 0 <= k < nt && 0 <= j < nx implies {
            &&& j == 0 ==> backup.ensures(
                (
                    0usize,
                    values@[(k + 1) * nx + 1],
                    values@[(k + 1) * nx],
                    false,
                    values@[(k + 1) * nx],
                ),
                #[trigger] sweep_value(values@, nx as int, k, j),
            )
            &&& 0 < j < nx - 1 ==> backup.ensures(
                (
                    j as usize,
                    values@[(k + 1) * nx + j + 1],
                    values@[(k + 1) * nx + j - 1],
                    true,
                    values@[(k + 1) * nx + j],
                ),
                sweep_value(values@, nx as int, k, j),
            )
            &&& 0 < j && j == nx - 1 ==> backup.ensures(
                (
                    j as usize,
                    values@[(k + 1) * nx + j],
                    values@[(k + 1) * nx + j - 1],
                    false,
                    values@[(k + 1) * nx + j],
                ),
                sweep_value(values@, nx as int, k, j),
            )
        } by {
            assert(level_backed_up(backup, values@, nx as int, k));
            let next = grid_level(values@, nx as int, k + 1);
            let row = grid_level(values@, nx as int, k);
            assert(nx >= 2);
            lemma_backed_up_node(backup, next, row, nx as int, j);
            assert((k + 1) * nx + nx <= (nt + 1) * nx) by (nonlinear_arith)
                requires k < nt, nx >= 0;
            assert((k + 1) * nx == k * nx + nx) by (nonlinear_arith);
            assert(0 <= k * nx) by (nonlinear_arith) requires k >= 0, nx >= 0;
            assert(row[j] == sweep_value(values@, nx as int, k, j));
            assert(next[j] == values@[(k + 1) * nx + j]);
            assert(j + 1 < nx ==> next[j + 1] == values@[(k + 1) * nx + j + 1]);
            assert(j >= 1 ==> next[j - 1] == values@[(k + 1) * nx + j - 1]);
            assert(next[1] == values@[(k + 1) * nx + 1]);
            assert(next[0] == values@[(k + 1) * nx]);
        }
    }
    values
}

} // verus!
