//! The bucket tool's flood fill: the maximal 4-connected region of
//! terrain-empty cells reachable from a seed cell.  The search keeps a
//! visited flag per cell, so it terminates on enclosed regions and lists
//! every reachable cell exactly once; the result is proved to be exactly
//! the reachable set.

use vstd::prelude::*;

verus! {

use crate::level::Level;

/// Whether the two cells share an edge.
pub open spec fn adjacent(ax: int, ay: int, bx: int, by: int) -> bool {
    ||| (ax == bx && (ay == by + 1 || ay + 1 == by))
    ||| (ay == by && (ax == bx + 1 || ax + 1 == bx))
}

/// An in-bounds cell whose terrain layer is empty: the only cells the
/// bucket flows through.
pub open spec fn cell_empty(level: Level, x: int, y: int) -> bool {
    &&& 0 <= x < level.width
    &&& 0 <= y < level.spec_height()
    &&& level.tile_at(x, y).terrain == 0
}

/// The cell `(x, y)` can be reached from the seed within `n` steps,
/// walking only over terrain-empty cells (the seed itself need not be
/// empty).
pub open spec fn flood_reach(level: Level, sx: int, sy: int, x: int, y: int, n: nat) -> bool
    decreases n,
{
    ||| (x == sx && y == sy)
    ||| (n > 0 && cell_empty(level, x, y) && exists|qx: int, qy: int|
        flood_reach(level, sx, sy, qx, qy, (n - 1) as nat) && #[trigger] adjacent(qx, qy, x, y))
}

/// The bucket region: the seed plus every terrain-empty cell 4-connected
/// to it.
pub open spec fn flood_reachable(level: Level, sx: int, sy: int, x: int, y: int) -> bool {
    exists|n: nat| flood_reach(level, sx, sy, x, y, n)
}

/// Whether the list holds the cell `(x, y)`.
pub open spec fn seq_has(s: Seq<(usize, usize)>, x: int, y: int) -> bool {
    exists|i: int| 0 <= i < s.len() && (#[trigger] s[i]).0 == x && s[i].1 == y
}

/// How many entries of `s` are set.
pub open spec fn count_true(s: Seq<bool>) -> int
    decreases s.len(),
{
    if s.len() == 0 {
        0
    } else {
        count_true(s.drop_last()) + if s.last() {
            1int
        } else {
            0int
        }
    }
}

proof fn lemma_count_true_bounds(s: Seq<bool>)
    ensures
        0 <= count_true(s) <= s.len(),
    decreases s.len(),
{
    if s.len() > 0 {
        lemma_count_true_bounds(s.drop_last());
    }
}

proof fn lemma_count_true_set(s: Seq<bool>, i: int)
    requires
        0 <= i < s.len(),
        !s[i],
    ensures
        count_true(s.update(i, true)) == count_true(s) + 1,
    decreases s.len(),
{
    let t = s.update(i, true);
    if i == s.len() - 1 {
        assert(t.drop_last() =~= s.drop_last());
    } else {
        assert(t.drop_last() =~= s.drop_last().update(i, true));
        lemma_count_true_set(s.drop_last(), i);
    }
}

proof fn lemma_seq_has_prefix(s0: Seq<(usize, usize)>, s1: Seq<(usize, usize)>, x: int, y: int)
    requires
        s0.is_prefix_of(s1),
    ensures
        seq_has(s0, x, y) ==> seq_has(s1, x, y),
{
    if seq_has(s0, x, y) {
        let i = choose|i: int| 0 <= i < s0.len() && (#[trigger] s0[i]).0 == x && s0[i].1 == y;
        assert(s1[i] == s0[i]);
    }
}

proof fn lemma_prefix_trans(s0: Seq<(usize, usize)>, s1: Seq<(usize, usize)>, s2: Seq<(usize, usize)>)
    requires
        s0.is_prefix_of(s1),
        s1.is_prefix_of(s2),
    ensures
        s0.is_prefix_of(s2),
{
    assert(s0 =~= s2.subrange(0, s0.len() as int));
}

/// The search's bookkeeping, shared by the loop and the per-neighbor
/// step: the visited flags mirror the result list exactly, the list is
/// duplicate-free, in bounds, and every member is reachable; the
/// frontier holds members of the list, once each.
pub open spec fn fill_inv(
    level: Level,
    sx: int,
    sy: int,
    visited: Seq<bool>,
    count: int,
    tiles: Seq<(usize, usize)>,
    active: Seq<(usize, usize)>,
) -> bool {
    &&& level.wf_grid()
    &&& visited.len() == level.tiles@.len()
    &&& count == count_true(visited)
    &&& 0 <= sx < level.width
    &&& 0 <= sy < level.spec_height()
    &&& seq_has(tiles, sx, sy)
    &&& forall|i: int|
        0 <= i < tiles.len() ==> (#[trigger] tiles[i]).0 < level.width && tiles[i].1
            < level.spec_height()
    &&& forall|i: int, j: int| 0 <= i < j < tiles.len() ==> tiles[i] != tiles[j]
    &&& forall|x: int, y: int|
        0 <= x < level.width && 0 <= y < level.spec_height() ==> (#[trigger] seq_has(tiles, x, y)
            <==> visited[x + y * level.width])
    &&& forall|i: int|
        0 <= i < tiles.len() && !(tiles[i].0 == sx && tiles[i].1 == sy) ==> cell_empty(
            level,
            (#[trigger] tiles[i]).0 as int,
            tiles[i].1 as int,
        )
    &&& forall|i: int|
        0 <= i < tiles.len() ==> flood_reachable(
            level,
            sx,
            sy,
            (#[trigger] tiles[i]).0 as int,
            tiles[i].1 as int,
        )
    &&& forall|j: int|
        0 <= j < active.len() ==> seq_has(tiles, (#[trigger] active[j]).0 as int, active[j].1 as int)
    &&& forall|i: int, j: int| 0 <= i < j < active.len() ==> active[i] != active[j]
}

/// Cells listed since `base` are still on the frontier.
pub open spec fn new_on_frontier(
    base: Seq<(usize, usize)>,
    tiles: Seq<(usize, usize)>,
    active: Seq<(usize, usize)>,
) -> bool {
    forall|x: int, y: int|
        #[trigger] seq_has(tiles, x, y) && !seq_has(base, x, y) ==> seq_has(active, x, y)
}

/// Cells in the list but no longer on the frontier have every empty
/// neighbor in the list already.
pub open spec fn fill_closure(
    level: Level,
    tiles: Seq<(usize, usize)>,
    active: Seq<(usize, usize)>,
) -> bool {
    forall|x: int, y: int|
        #[trigger] seq_has(tiles, x, y) && !seq_has(active, x, y) ==> ({
            &&& (cell_empty(level, x + 1, y) ==> seq_has(tiles, x + 1, y))
            &&& (cell_empty(level, x - 1, y) ==> seq_has(tiles, x - 1, y))
            &&& (cell_empty(level, x, y + 1) ==> seq_has(tiles, x, y + 1))
            &&& (cell_empty(level, x, y - 1) ==> seq_has(tiles, x, y - 1))
        })
}

/// Visits one neighbor `(nx, ny)` of a just-popped cell already known
/// reachable: a not-yet-visited empty cell joins the list, the flags and
/// the frontier together; anything else leaves all three alone.
fn visit_cell(
    level: &Level,
    visited: &mut Vec<bool>,
    count: &mut usize,
    tiles: &mut Vec<(usize, usize)>,
    active: &mut Vec<(usize, usize)>,
    nx: usize,
    ny: usize,
    Ghost(sx): Ghost<int>,
    Ghost(sy): Ghost<int>,
    Ghost(px): Ghost<int>,
    Ghost(py): Ghost<int>,
    Ghost(base): Ghost<Seq<(usize, usize)>>,
)
    requires
        fill_inv(*level, sx, sy, old(visited)@, *old(count) as int, old(tiles)@, old(active)@),
        flood_reachable(*level, sx, sy, px, py),
        adjacent(px, py, nx as int, ny as int),
        base.is_prefix_of(old(tiles)@),
        new_on_frontier(base, old(tiles)@, old(active)@),
    ensures
        fill_inv(*level, sx, sy, final(visited)@, *final(count) as int, final(tiles)@, final(active)@),
        old(tiles)@.is_prefix_of(final(tiles)@),
        old(active)@.is_prefix_of(final(active)@),
        base.is_prefix_of(final(tiles)@),
        new_on_frontier(base, final(tiles)@, final(active)@),
        *final(count) >= *old(count),
        cell_empty(*level, nx as int, ny as int) ==> seq_has(final(tiles)@, nx as int, ny as int),
        *final(count) > *old(count) || (final(tiles)@ == old(tiles)@ && final(active)@ == old(active)@),
        final(visited)@.len() == old(visited)@.len(),
{
    let w = level.width;
    if nx >= w || ny >= level.height() {
        return ;
    }
    // binds the length so its machine bound is in scope for the index
    let total = level.tiles.len();
    proof {
        level.lemma_index_in_range(nx as int, ny as int);
    }
    let k = nx + ny * w;
    if visited[k] {
        proof {
            assert(seq_has(tiles@, nx as int, ny as int));
        }
        return ;
    }
    if level.get_tile(nx, ny).terrain != 0 {
        proof {
            assert(!cell_empty(*level, nx as int, ny as int));
        }
        return ;
    }
    let ghost old_visited = visited@;
    let ghost old_tiles = tiles@;
    let ghost old_active = active@;
    proof {
        lemma_count_true_set(visited@, k as int);
        lemma_count_true_bounds(visited@.update(k as int, true));
    }
    visited.set(k, true);
    *count = *count + 1;
    tiles.push((nx, ny));
    active.push((nx, ny));
    proof {
        let n = choose|n: nat| flood_reach(*level, sx, sy, px, py, n);
        assert(flood_reach(*level, sx, sy, nx as int, ny as int, (n + 1) as nat)) by {
            assert(flood_reach(*level, sx, sy, px, py, n));
            assert(adjacent(px, py, nx as int, ny as int));
        }
        assert(flood_reachable(*level, sx, sy, nx as int, ny as int));
        assert(tiles@[tiles@.len() - 1] == ((nx, ny)));
        assert(seq_has(tiles@, nx as int, ny as int));
        assert(active@[active@.len() - 1] == ((nx, ny)));
        assert(seq_has(active@, nx as int, ny as int));
        // the freshly visited cell was not listed before
        assert(!seq_has(old_tiles, nx as int, ny as int));
        // membership in the grown list, cell by cell
        assert forall|x: int, y: int| #[trigger] seq_has(tiles@, x, y) implies (seq_has(
            old_tiles,
            x,
            y,
        ) || (x == nx as int && y == ny as int)) by {
            let i = choose|i: int|
                0 <= i < tiles@.len() && (#[trigger] tiles@[i]).0 == x && tiles@[i].1 == y;
            if i < old_tiles.len() {
                assert(old_tiles[i] == tiles@[i]);
            }
        }
        assert forall|x: int, y: int| seq_has(old_tiles, x, y) implies #[trigger] seq_has(
            tiles@,
            x,
            y,
        ) by {
            lemma_seq_has_prefix(old_tiles, tiles@, x, y);
        }
        assert forall|x: int, y: int| seq_has(old_active, x, y) implies #[trigger] seq_has(
            active@,
            x,
            y,
        ) by {
            lemma_seq_has_prefix(old_active, active@, x, y);
        }
        // the flag array mirrors the grown list
        assert forall|x: int, y: int|
            0 <= x < level.width && 0 <= y < level.spec_height() implies (#[trigger] seq_has(
            tiles@,
            x,
            y,
        ) <==> visited@[x + y * level.width]) by {
            level.lemma_index_in_range(x, y);
            if !(x == nx as int && y == ny as int) && x + y * level.width == k {
                level.lemma_index_injective(x, y, nx as int, ny as int);
            }
        }
        // the new cell is unvisited, hence not the seed and not a duplicate
        assert(!(nx as int == sx && ny as int == sy));
        assert forall|i: int, j: int| 0 <= i < j < tiles@.len() implies tiles@[i] != tiles@[j] by {
            if j == tiles@.len() - 1 && tiles@[i] == tiles@[j] {
                assert((#[trigger] old_tiles[i]).0 == nx as int && old_tiles[i].1 == ny as int);
            }
        }
        assert forall|i: int, j: int|
            0 <= i < j < active@.len() implies active@[i] != active@[j] by {
            if j == active@.len() - 1 && active@[i] == active@[j] {
                let ax = (#[trigger] active@[i]).0 as int;
                let ay = active@[i].1 as int;
                assert(old_active[i] == active@[i]);
                assert(seq_has(old_tiles, ax, ay));
            }
        }
        // everything the old bookkeeping promised still holds of the
        // untouched entries
        lemma_seq_has_prefix(old_tiles, tiles@, sx, sy);
        assert forall|j: int|
            0 <= j < active@.len() implies seq_has(
            tiles@,
            (#[trigger] active@[j]).0 as int,
            active@[j].1 as int,
        ) by {
            if j < active@.len() - 1 {
                assert(old_active[j] == active@[j]);
                lemma_seq_has_prefix(old_tiles, tiles@, active@[j].0 as int, active@[j].1 as int);
            }
        }
        assert forall|i: int|
            0 <= i < tiles@.len() implies (#[trigger] tiles@[i]).0 < level.width && tiles@[i].1
            < level.spec_height() by {
            if i < old_tiles.len() {
                assert(old_tiles[i] == tiles@[i]);
            }
        }
        assert forall|i: int|
            0 <= i < tiles@.len() && !(tiles@[i].0 == sx && tiles@[i].1 == sy) implies cell_empty(
            *level,
            (#[trigger] tiles@[i]).0 as int,
            tiles@[i].1 as int,
        ) by {
            if i < old_tiles.len() {
                assert(old_tiles[i] == tiles@[i]);
            }
        }
        assert forall|i: int|
            0 <= i < tiles@.len() implies flood_reachable(
            *level,
            sx,
            sy,
            (#[trigger] tiles@[i]).0 as int,
            tiles@[i].1 as int,
        ) by {
            if i < old_tiles.len() {
                assert(old_tiles[i] == tiles@[i]);
            }
        }
    }
}

/// All 4-connected terrain-empty cells reachable from `(tx, ty)`, the
/// seed first: exactly the bucket region, each cell listed once.
#[verifier::rlimit(100)]
pub fn get_connected_tiles(level: &Level, tx: usize, ty: usize) -> (tiles: Vec<(usize, usize)>)
    requires
        level.wf_grid(),
        tx < level.width,
        ty < level.spec_height(),
    ensures
        tiles@.len() >= 1,
        tiles@[0] == ((tx, ty)),
        forall|i: int, j: int| 0 <= i < j < tiles@.len() ==> tiles@[i] != tiles@[j],
        forall|i: int|
            0 <= i < tiles@.len() ==> (#[trigger] tiles@[i]).0 < level.width && tiles@[i].1
                < level.spec_height(),
        forall|i: int|
            1 <= i < tiles@.len() ==> cell_empty(
                *level,
                (#[trigger] tiles@[i]).0 as int,
                tiles@[i].1 as int,
            ),
        forall|x: int, y: int|
            #[trigger] seq_has(tiles@, x, y) <==> flood_reachable(
                *level,
                tx as int,
                ty as int,
                x,
                y,
            ),
{
    let w = level.width;
    let n = level.tiles.len();
    let mut visited: Vec<bool> = Vec::new();
    let mut k: usize = 0;
    while k < n
        invariant
            visited@.len() == k,
            k <= n,
            forall|i: int| 0 <= i < k ==> !visited@[i],
            count_true(visited@) == 0,
        decreases n - k,
    {
        let ghost old_v = visited@;
        visited.push(false);
        proof {
            assert(visited@.drop_last() =~= old_v);
        }
        k = k + 1;
    }
    let mut count: usize = 1;
    let mut tiles: Vec<(usize, usize)> = Vec::new();
    let mut active: Vec<(usize, usize)> = Vec::new();
    tiles.push((tx, ty));
    active.push((tx, ty));
    proof {
        level.lemma_index_in_range(tx as int, ty as int);
        lemma_count_true_set(visited@, tx as int + ty as int * level.width);
    }
    let seed_idx = tx + ty * w;
    visited.set(seed_idx, true);
    proof {
        assert(tiles@[0] == ((tx, ty)));
        assert(seq_has(tiles@, tx as int, ty as int));
        assert(flood_reach(*level, tx as int, ty as int, tx as int, ty as int, 0));
        assert(flood_reachable(*level, tx as int, ty as int, tx as int, ty as int));
        assert forall|x: int, y: int|
            0 <= x < level.width && 0 <= y < level.spec_height() implies (#[trigger] seq_has(
            tiles@,
            x,
            y,
        ) <==> visited@[x + y * level.width]) by {
            level.lemma_index_in_range(x, y);
            if x + y * level.width == seed_idx as int {
                level.lemma_index_injective(x, y, tx as int, ty as int);
            }
        }
    }
    while active.len() > 0
        invariant
            fill_inv(*level, tx as int, ty as int, visited@, count as int, tiles@, active@),
            fill_closure(*level, tiles@, active@),
            tiles@.len() >= 1 && tiles@[0] == ((tx, ty)),
            visited@.len() == n,
            count <= n,
        decreases n - count, active@.len(),
    {
        let ghost pre_active = active@;
        let popped = active.pop();
        let (cx, cy) = match popped {
            Some(p) => p,
            None => {
                proof {
                    assert(false);
                }
                (0, 0)
            },
        };
        let ghost px = cx as int;
        let ghost py = cy as int;
        let ghost tiles0 = tiles@;
        let ghost active0 = active@;
        proof {
            assert(pre_active[pre_active.len() - 1] == ((cx, cy)));
            assert(seq_has(tiles@, px, py));
            let i = choose|i: int|
                0 <= i < tiles@.len() && (#[trigger] tiles@[i]).0 == px && tiles@[i].1 == py;
            assert(flood_reachable(*level, tx as int, ty as int, px, py));
            // the shrunk frontier still lists only listed cells, once each
            assert forall|j: int|
                0 <= j < active@.len() implies seq_has(
                tiles@,
                (#[trigger] active@[j]).0 as int,
                active@[j].1 as int,
            ) by {
                assert(pre_active[j] == active@[j]);
            }
        }
        visit_cell(
            level,
            &mut visited,
            &mut count,
            &mut tiles,
            &mut active,
            cx + 1,
            cy,
            Ghost(tx as int),
            Ghost(ty as int),
            Ghost(px),
            Ghost(py),
            Ghost(tiles0),
        );
        let ghost t1 = tiles@;
        let ghost a1 = active@;
        visit_cell(
            level,
            &mut visited,
            &mut count,
            &mut tiles,
            &mut active,
            cx,
            cy + 1,
            Ghost(tx as int),
            Ghost(ty as int),
            Ghost(px),
            Ghost(py),
            Ghost(tiles0),
        );
        let ghost t2 = tiles@;
        let ghost a2 = active@;
        if cy > 0 {
            visit_cell(
                level,
                &mut visited,
                &mut count,
                &mut tiles,
                &mut active,
                cx,
                cy - 1,
                Ghost(tx as int),
                Ghost(ty as int),
                Ghost(px),
                Ghost(py),
                Ghost(tiles0),
            );
        }
        let ghost t3 = tiles@;
        let ghost a3 = active@;
        if cx > 0 {
            visit_cell(
                level,
                &mut visited,
                &mut count,
                &mut tiles,
                &mut active,
                cx - 1,
                cy,
                Ghost(tx as int),
                Ghost(ty as int),
                Ghost(px),
                Ghost(py),
                Ghost(tiles0),
            );
        }
        proof {
            lemma_count_true_bounds(visited@);
            if cy == 0 {
                assert(t2.is_prefix_of(t3)) by {
                    assert(t2 =~= t3.subrange(0, t2.len() as int));
                }
                assert(a2.is_prefix_of(a3)) by {
                    assert(a2 =~= a3.subrange(0, a2.len() as int));
                }
            }
            if cx == 0 {
                assert(t3.is_prefix_of(tiles@)) by {
                    assert(t3 =~= tiles@.subrange(0, t3.len() as int));
                }
                assert(a3.is_prefix_of(active@)) by {
                    assert(a3 =~= active@.subrange(0, a3.len() as int));
                }
            }
            lemma_prefix_trans(t1, t2, t3);
            lemma_prefix_trans(t1, t3, tiles@);
            lemma_prefix_trans(t2, t3, tiles@);
            lemma_prefix_trans(tiles0, t1, tiles@);
            lemma_prefix_trans(active0, a1, a2);
            lemma_prefix_trans(active0, a2, a3);
            lemma_prefix_trans(active0, a3, active@);
            if py == 0 {
                assert(!cell_empty(*level, px, py - 1));
            }
            if px == 0 {
                assert(!cell_empty(*level, px - 1, py));
            }
            // the popped cell's empty neighbors are all listed now
            lemma_seq_has_prefix(t1, tiles@, px + 1, py);
            lemma_seq_has_prefix(t2, tiles@, px, py + 1);
            lemma_seq_has_prefix(t3, tiles@, px, py - 1);
            lemma_seq_has_prefix(tiles0, tiles@, px, py);
            // the closure keeps holding
            assert forall|x: int, y: int|
                #[trigger] seq_has(tiles@, x, y) && !seq_has(active@, x, y) implies ({
                &&& (cell_empty(*level, x + 1, y) ==> seq_has(tiles@, x + 1, y))
                &&& (cell_empty(*level, x - 1, y) ==> seq_has(tiles@, x - 1, y))
                &&& (cell_empty(*level, x, y + 1) ==> seq_has(tiles@, x, y + 1))
                &&& (cell_empty(*level, x, y - 1) ==> seq_has(tiles@, x, y - 1))
            }) by {
                if x == px && y == py {
                } else if seq_has(tiles0, x, y) {
                    lemma_seq_has_prefix(tiles0, tiles@, x + 1, y);
                    lemma_seq_has_prefix(tiles0, tiles@, x - 1, y);
                    lemma_seq_has_prefix(tiles0, tiles@, x, y + 1);
                    lemma_seq_has_prefix(tiles0, tiles@, x, y - 1);
                    if seq_has(pre_active, x, y) {
                        // its pre-pop frontier slot was not the popped
                        // last slot, so it survived the pop
                        let j = choose|j: int|
                            0 <= j < pre_active.len() && (#[trigger] pre_active[j]).0 == x
                                && pre_active[j].1 == y;
                        assert(j < pre_active.len() - 1);
                        assert(active0[j] == pre_active[j]);
                        assert(seq_has(active0, x, y));
                        lemma_seq_has_prefix(active0, active@, x, y);
                    }
                } else {
                    // listed this iteration: still on the frontier
                    assert(seq_has(active@, x, y));
                }
            }
        }
    }
    proof {
        assert(active@ =~= Seq::<(usize, usize)>::empty());
        assert forall|x: int, y: int| #[trigger] seq_has(tiles@, x, y) implies flood_reachable(
            *level,
            tx as int,
            ty as int,
            x,
            y,
        ) by {
            let i = choose|i: int|
                0 <= i < tiles@.len() && (#[trigger] tiles@[i]).0 == x && tiles@[i].1 == y;
        }
        assert forall|x: int, y: int|
            flood_reachable(*level, tx as int, ty as int, x, y) implies #[trigger] seq_has(
            tiles@,
            x,
            y,
        ) by {
            let n0 = choose|n0: nat| flood_reach(*level, tx as int, ty as int, x, y, n0);
            lemma_reach_in_tiles(*level, tx as int, ty as int, x, y, n0, tiles@);
        }
    }
    tiles
}

/// Every cell reachable from a listed seed is listed, once the list is
/// closed under taking empty neighbors.
proof fn lemma_reach_in_tiles(
    level: Level,
    sx: int,
    sy: int,
    x: int,
    y: int,
    n: nat,
    tiles: Seq<(usize, usize)>,
)
    requires
        flood_reach(level, sx, sy, x, y, n),
        seq_has(tiles, sx, sy),
        fill_closure(level, tiles, Seq::empty()),
    ensures
        seq_has(tiles, x, y),
    decreases n,
{
    if x == sx && y == sy {
    } else {
        let (qx, qy) = choose|qx: int, qy: int|
            flood_reach(level, sx, sy, qx, qy, (n - 1) as nat) && #[trigger] adjacent(qx, qy, x, y);
        lemma_reach_in_tiles(level, sx, sy, qx, qy, (n - 1) as nat, tiles);
        assert(!seq_has(Seq::<(usize, usize)>::empty(), qx, qy));
        assert(cell_empty(level, x, y));
        if qy == y && qx + 1 == x {
            assert(seq_has(tiles, qx + 1, qy));
        } else if qy == y && x + 1 == qx {
            assert(seq_has(tiles, qx - 1, qy));
        } else if qx == x && qy + 1 == y {
            assert(seq_has(tiles, qx, qy + 1));
        } else {
            assert(seq_has(tiles, qx, qy - 1));
        }
    }
}

} // verus!
