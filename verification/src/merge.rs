//! The merge engine: for one directional input it computes which tiles
//! slide one step, which pairs merge, what score events result, where a new
//! tile spawns and whether any legal move remains.

use vstd::prelude::*;

use crate::grid::{
    cell_index, entities_below, entities_distinct, in_range, score_of, sum_scores, Grid, Square,
    GRID_SIZE,
};

verus! {

/// The four directional inputs.
#[derive(Clone, Copy, PartialEq, Eq, Structural, Debug)]
pub enum MovementDirection {
    Up,
    Down,
    Right,
    Left,
}

/// u64 addition that stops at the top of the type's range.
pub open spec fn sat_add(a: u64, b: u64) -> u64 {
    if a + b > u64::MAX {
        u64::MAX
    } else {
        (a + b) as u64
    }
}

/// One-step candidate destination in the movement direction, stopping at
/// the wall (no wraparound). Up increases y, Right increases x.
pub open spec fn step_dest(dir: MovementDirection, x: int, y: int) -> (int, int) {
    match dir {
        MovementDirection::Up => (x, if y + 1 < GRID_SIZE { y + 1 } else { GRID_SIZE - 1 }),
        MovementDirection::Down => (x, if y > 0 { y - 1 } else { 0 }),
        MovementDirection::Right => (if x + 1 < GRID_SIZE { x + 1 } else { GRID_SIZE - 1 }, y),
        MovementDirection::Left => (if x > 0 { x - 1 } else { 0 }, y),
    }
}

/// The k-th cell of the deterministic sweep. Cells nearest the destination
/// wall are processed first, so a tile never skips over one that has not
/// settled yet: lines orthogonal to the motion are walked one by one, and
/// within each line the wall end comes first.
pub open spec fn sweep_cell(dir: MovementDirection, k: int) -> (int, int) {
    let a = k / 4;
    let b = k % 4;
    match dir {
        MovementDirection::Up | MovementDirection::Left => (a, 3 - b),
        MovementDirection::Down | MovementDirection::Right => (3 - a, b),
    }
}

/// Description of a sweep in progress: the board so far, the destinations
/// that received a moved tile, the queued score events in order, the
/// distinct scores of the tiles encountered, and the tiles that a merge
/// removed (in processing order).
pub struct SweepState {
    pub cells: Seq<Option<Square>>,
    pub moved: Seq<(u32, u32)>,
    pub events: Seq<u64>,
    pub seen: Set<u64>,
    pub removed: Seq<Square>,
}

/// Processing of one occupied cell: note its score; compute the one-step
/// destination; stay put at the wall or behind a tile of another score;
/// merge into an equal tile (the mover keeps its identity and takes both
/// scores, the occupant is removed); otherwise relocate into the empty slot.
pub open spec fn sweep_step(st: SweepState, dir: MovementDirection, x: int, y: int) -> SweepState {
    match st.cells[cell_index(x, y)] {
        None => st,
        Some(sq) => {
            let noted = SweepState {
                cells: st.cells,
                moved: st.moved,
                events: st.events,
                seen: st.seen.insert(sq.score),
                removed: st.removed,
            };
            let dest = step_dest(dir, x, y);
            if dest.0 == x && dest.1 == y {
                noted
            } else {
                match st.cells[cell_index(dest.0, dest.1)] {
                    Some(other) => {
                        if other.score != sq.score {
                            noted
                        } else {
                            SweepState {
                                cells: noted.cells.update(cell_index(x, y), None).update(
                                    cell_index(dest.0, dest.1),
                                    Some(Square { entity: sq.entity, score: sat_add(sq.score, other.score) }),
                                ),
                                moved: noted.moved.push((dest.0 as u32, dest.1 as u32)),
                                events: noted.events.push(sat_add(sq.score, other.score)),
                                seen: noted.seen,
                                removed: noted.removed.push(other),
                            }
                        }
                    },
                    None => SweepState {
                        cells: noted.cells.update(cell_index(x, y), None).update(
                            cell_index(dest.0, dest.1),
                            Some(sq),
                        ),
                        moved: noted.moved.push((dest.0 as u32, dest.1 as u32)),
                        events: noted.events,
                        seen: noted.seen,
                        removed: noted.removed,
                    },
                }
            }
        },
    }
}

/// The sweep after its first k cells have been processed.
pub open spec fn sweep_upto(cells: Seq<Option<Square>>, dir: MovementDirection, k: int) -> SweepState
    decreases k,
{
    if k <= 0 {
        SweepState {
            cells,
            moved: Seq::empty(),
            events: Seq::empty(),
            seen: Set::empty(),
            removed: Seq::empty(),
        }
    } else {
        let prev = sweep_upto(cells, dir, k - 1);
        let cell = sweep_cell(dir, k - 1);
        sweep_step(prev, dir, cell.0, cell.1)
    }
}

/// The complete single pass of one directional input over the board.
pub open spec fn sweep(cells: Seq<Option<Square>>, dir: MovementDirection) -> SweepState {
    sweep_upto(cells, dir, 16)
}

/// What one directional input did to the board, short of the spawn.
pub struct MoveResult {
    /// Destinations that received a moved tile, in processing order.
    pub moved: Vec<(u32, u32)>,
    /// One queued score event per merge: the merged tile's summed score.
    pub score_events: Vec<u64>,
    /// The distinct scores of the tiles on the board during the pass,
    /// without duplicates; spawn-value selection is biased by these.
    pub scores_seen: Vec<u64>,
    /// Tiles that a merge removed, for the death animations.
    pub removed: Vec<Square>,
}

/// The k-th sweep cell, executable counterpart of `sweep_cell`.
fn sweep_cell_exec(dir: MovementDirection, k: usize) -> (r: (u32, u32))
    requires
        k < 16,
    ensures
        r.0 == sweep_cell(dir, k as int).0,
        r.1 == sweep_cell(dir, k as int).1,
        r.0 < GRID_SIZE,
        r.1 < GRID_SIZE,
{
    let a = (k / 4) as u32;
    let b = (k % 4) as u32;
    match dir {
        MovementDirection::Up | MovementDirection::Left => (a, 3 - b),
        MovementDirection::Down | MovementDirection::Right => (3 - a, b),
    }
}

/// One-step destination, executable counterpart of `step_dest`.
fn step_dest_exec(dir: MovementDirection, x: u32, y: u32) -> (r: (u32, u32))
    requires
        x < GRID_SIZE,
        y < GRID_SIZE,
    ensures
        r.0 == step_dest(dir, x as int, y as int).0,
        r.1 == step_dest(dir, x as int, y as int).1,
        r.0 < GRID_SIZE,
        r.1 < GRID_SIZE,
{
    match dir {
        MovementDirection::Up => (x, if y + 1 < GRID_SIZE { y + 1 } else { GRID_SIZE - 1 }),
        MovementDirection::Down => (x, if y > 0 { y - 1 } else { 0 }),
        MovementDirection::Right => (if x + 1 < GRID_SIZE { x + 1 } else { GRID_SIZE - 1 }, y),
        MovementDirection::Left => (if x > 0 { x - 1 } else { 0 }, y),
    }
}

/// True when the sequence already holds the value.
fn vec_contains_u64(v: &Vec<u64>, x: u64) -> (r: bool)
    ensures
        r == v@.contains(x),
{
    let mut i: usize = 0;
    while i < v.len()
        invariant
            i <= v@.len(),
            forall|j: int| 0 <= j < i ==> v@[j] != x,
        decreases v@.len() - i,
    {
        if v[i] == x {
            return true;
        }
        i = i + 1;
    }
    false
}

/// Performs the single pass of one directional input on the board: every
/// occupied cell, taken in sweep order, moves at most one step toward the
/// wall, merging into an equal-scored occupant or filling an empty slot.
/// The result records destinations, score events, the distinct scores seen
/// and the removed tiles, exactly as the `sweep` model states.
pub fn apply_move(grid: &mut Grid, dir: MovementDirection) -> (r: MoveResult)
    requires
        old(grid).wf(),
    ensures
        final(grid).wf(),
        final(grid)@ == sweep(old(grid)@, dir).cells,
        r.moved@ == sweep(old(grid)@, dir).moved,
        r.score_events@ == sweep(old(grid)@, dir).events,
        r.removed@ == sweep(old(grid)@, dir).removed,
        r.scores_seen@.no_duplicates(),
        forall|s: u64| #[trigger] r.scores_seen@.contains(s) == sweep(old(grid)@, dir).seen.contains(s),
{
    let ghost orig = grid@;
    let mut moved: Vec<(u32, u32)> = Vec::new();
    let mut score_events: Vec<u64> = Vec::new();
    let mut scores_seen: Vec<u64> = Vec::new();
    let mut removed: Vec<Square> = Vec::new();

    let mut k: usize = 0;
    while k < 16
        invariant
            k <= 16,
            grid.wf(),
            grid@ == sweep_upto(orig, dir, k as int).cells,
            moved@ == sweep_upto(orig, dir, k as int).moved,
            score_events@ == sweep_upto(orig, dir, k as int).events,
            removed@ == sweep_upto(orig, dir, k as int).removed,
            scores_seen@.no_duplicates(),
            forall|s: u64| #[trigger] scores_seen@.contains(s)
                == sweep_upto(orig, dir, k as int).seen.contains(s),
        decreases 16 - k,
    {
        let ghost prev = sweep_upto(orig, dir, k as int);
        let (x, y) = sweep_cell_exec(dir, k);
        let cur = grid.get_at((x, y));
        match cur {
            None => {
                assert(sweep_upto(orig, dir, k as int + 1) == prev);
            },
            Some(sq) => {
                let had = vec_contains_u64(&scores_seen, sq.score);
                let ghost before = scores_seen@;
                if !had {
                    scores_seen.push(sq.score);
                }
                proof {
                    assert forall|s: u64| #[trigger] scores_seen@.contains(s)
                        == prev.seen.insert(sq.score).contains(s) by {
                        if had {
                            assert(scores_seen@ == before);
                        } else {
                            assert(scores_seen@ == before.push(sq.score));
                            if s == sq.score {
                                assert(scores_seen@[before.len() as int] == sq.score);
                                assert(scores_seen@.contains(s));
                            } else if before.contains(s) {
                                let i = choose|i: int| 0 <= i < before.len() && before[i] == s;
                                assert(scores_seen@[i] == s);
                                assert(scores_seen@.contains(s));
                            } else {
                                assert(!scores_seen@.contains(s)) by {
                                    if scores_seen@.contains(s) {
                                        let i = choose|i: int|
                                            0 <= i < scores_seen@.len() && scores_seen@[i] == s;
                                        assert(i < before.len() ==> before[i] == s);
                                    }
                                }
                            }
                        }
                    }
                }
                let (nx, ny) = step_dest_exec(dir, x, y);
                if nx == x && ny == y {
                    // already at the wall: single-step semantics, no slide
                } else {
                    let dest = grid.get_at((nx, ny));
                    match dest {
                        Some(other) => {
                            if other.score == sq.score {
                                let new_score = sq.score.saturating_add(other.score);
                                let _ = grid.take_at((x, y));
                                grid.add_at((nx, ny), Square { entity: sq.entity, score: new_score });
                                moved.push((nx, ny));
                                score_events.push(new_score);
                                removed.push(other);
                            }
                            // a different score blocks the step
                        },
                        None => {
                            let _ = grid.take_at((x, y));
                            grid.add_at((nx, ny), sq);
                            moved.push((nx, ny));
                        },
                    }
                }
            },
        }
        k = k + 1;
    }
    MoveResult { moved, score_events, scores_seen, removed }
}

/// The cell j steps along the spawn edge: new tiles appear on the edge
/// opposite the wall the motion pressed toward.
pub open spec fn edge_cell(dir: MovementDirection, j: int) -> (int, int) {
    match dir {
        MovementDirection::Up => (j, 0),
        MovementDirection::Down => (j, GRID_SIZE - 1),
        MovementDirection::Right => (0, j),
        MovementDirection::Left => (GRID_SIZE - 1, j),
    }
}

/// The empty cells of the first j steps along the spawn edge, in edge order.
pub open spec fn spawn_candidates_upto(
    cells: Seq<Option<Square>>,
    dir: MovementDirection,
    j: int,
) -> Seq<(u32, u32)>
    decreases j,
{
    if j <= 0 {
        Seq::empty()
    } else {
        let prefix = spawn_candidates_upto(cells, dir, j - 1);
        let c = edge_cell(dir, j - 1);
        if cells[cell_index(c.0, c.1)] is None {
            prefix.push((c.0 as u32, c.1 as u32))
        } else {
            prefix
        }
    }
}

/// All empty spawn-edge cells, in edge order.
pub open spec fn spawn_candidates(cells: Seq<Option<Square>>, dir: MovementDirection) -> Seq<
    (u32, u32),
> {
    spawn_candidates_upto(cells, dir, 4)
}

/// The j-th spawn-edge cell, executable counterpart of `edge_cell`.
fn edge_cell_exec(dir: MovementDirection, j: u32) -> (r: (u32, u32))
    requires
        j < GRID_SIZE,
    ensures
        r.0 == edge_cell(dir, j as int).0,
        r.1 == edge_cell(dir, j as int).1,
        r.0 < GRID_SIZE,
        r.1 < GRID_SIZE,
{
    match dir {
        MovementDirection::Up => (j, 0),
        MovementDirection::Down => (j, GRID_SIZE - 1),
        MovementDirection::Right => (0, j),
        MovementDirection::Left => (GRID_SIZE - 1, j),
    }
}

/// Lists the empty cells along the spawn edge, the candidates for the new
/// tile after a move.
pub fn empty_spawn_cells(grid: &Grid, dir: MovementDirection) -> (r: Vec<(u32, u32)>)
    requires
        grid.wf(),
    ensures
        r@ == spawn_candidates(grid@, dir),
        forall|i: int|
            0 <= i < r@.len() ==> in_range(r@[i].0 as int, r@[i].1 as int) && grid.spec_at(
                r@[i].0 as int,
                r@[i].1 as int,
            ) is None,
{
    let mut r: Vec<(u32, u32)> = Vec::new();
    let mut j: u32 = 0;
    while j < GRID_SIZE
        invariant
            j <= GRID_SIZE,
            grid.wf(),
            r@ == spawn_candidates_upto(grid@, dir, j as int),
            forall|i: int|
                0 <= i < r@.len() ==> in_range(r@[i].0 as int, r@[i].1 as int) && grid.spec_at(
                    r@[i].0 as int,
                    r@[i].1 as int,
                ) is None,
        decreases GRID_SIZE - j,
    {
        let c = edge_cell_exec(dir, j);
        if !grid.is_filled(c) {
            r.push(c);
        }
        j = j + 1;
    }
    r
}

/// True when the values appear in non-decreasing order.
pub open spec fn sorted(s: Seq<u64>) -> bool {
    forall|i: int, j: int| 0 <= i < j < s.len() ==> s[i] <= s[j]
}

/// Sorts the values in place (insertion sort), keeping exactly the same
/// values.
pub fn sort_scores(v: &mut Vec<u64>)
    ensures
        sorted(final(v)@),
        final(v)@.to_multiset() == old(v)@.to_multiset(),
        final(v)@.len() == old(v)@.len(),
{
    proof {
        broadcast use vstd::seq_lib::group_to_multiset_ensures;
    }
    let mut i: usize = 1;
    while i < v.len()
        invariant
            1 <= i || v@.len() == 0,
            i <= v@.len() || v@.len() == 0,
            sorted(v@.subrange(0, i as int)) || v@.len() == 0,
            v@.to_multiset() == old(v)@.to_multiset(),
            v@.len() == old(v)@.len(),
        decreases v@.len() - i,
    {
        let ghost pre = v@;
        let x = v.remove(i);
        let mut p: usize = 0;
        while p < i && v[p] <= x
            invariant
                p <= i,
                i < pre.len(),
                v@ == pre.remove(i as int),
                forall|q: int| 0 <= q < p ==> v@[q] <= x,
            decreases i - p,
        {
            p = p + 1;
        }
        v.insert(p, x);
        proof {
            broadcast use vstd::seq_lib::group_to_multiset_ensures;

            assert(pre.remove(i as int).to_multiset() == pre.to_multiset().remove(pre[i as int]));
            assert(v@.to_multiset() == pre.remove(i as int).to_multiset().insert(x));
            assert(pre.to_multiset().contains(x)) by {
                assert(pre.contains(x));
            }
            assert(v@.to_multiset() =~= pre.to_multiset());
            assert(sorted(v@.subrange(0, i as int + 1))) by {
                assert forall|a: int, b: int| #![trigger v@[a], v@[b]]
                    0 <= a < b < i + 1 implies v@[a] <= v@[b] by {
                    let s = pre.remove(i as int);
                    // before the insertion point everything is <= x; the
                    // sorted prefix of s is unchanged around it
                    assert(forall|q: int| 0 <= q < i ==> s[q] == pre.subrange(0, i as int)[q]);
                    if b < p {
                        assert(v@[a] == s[a] && v@[b] == s[b]);
                    } else if a < p && b == p {
                        assert(v@[a] == s[a] && v@[b] == x);
                    } else if a < p && b > p {
                        assert(v@[a] == s[a] && v@[b] == s[b - 1]);
                    } else if a == p && b > p {
                        assert(v@[a] == x && v@[b] == s[b - 1]);
                        assert(p < i ==> s[p as int] > x);
                    } else {
                        assert(v@[a] == s[a - 1] && v@[b] == s[b - 1]);
                    }
                }
            }
        }
        i = i + 1;
    }
    proof {
        if v@.len() > 0 {
            assert(v@.subrange(0, v@.len() as int) =~= v@);
        }
    }
}

/// How many of the distinct scores are kept as spawn-value candidates: the
/// lowest third, and always at least one.
pub open spec fn keep_count(n: int) -> int {
    if n / 3 > 1 {
        n / 3
    } else {
        1
    }
}

/// r lists, in increasing order and without repeats, exactly the
/// keep_count(seen.len()) smallest of the distinct scores `seen`: the
/// truncated candidate set that biases the spawned tile toward low values.
pub open spec fn is_value_candidates(seen: Seq<u64>, r: Seq<u64>) -> bool {
    &&& sorted(r)
    &&& r.no_duplicates()
    &&& r.len() == keep_count(seen.len() as int)
    &&& forall|i: int| 0 <= i < r.len() ==> seen.contains(#[trigger] r[i])
    &&& forall|x: u64, y: u64| #![trigger r.contains(x), seen.contains(y)]
        r.contains(x) && seen.contains(y) && y < x ==> r.contains(y)
}

/// Computes the spawn-value candidates from the distinct scores seen in a
/// move: sorted ascending and cut down to the lowest third (at least one
/// value stays).
pub fn spawn_value_candidates(scores_seen: &Vec<u64>) -> (r: Vec<u64>)
    requires
        scores_seen@.len() > 0,
        scores_seen@.no_duplicates(),
    ensures
        is_value_candidates(scores_seen@, r@),
{
    let mut s: Vec<u64> = scores_seen.clone();
    sort_scores(&mut s);
    proof {
        broadcast use vstd::seq_lib::group_to_multiset_ensures;

        scores_seen@.lemma_multiset_has_no_duplicates();
        s@.lemma_multiset_has_no_duplicates_conv();
        assert(s@.no_duplicates());
    }
    let ghost full = s@;
    let n = s.len();
    let keep = if n / 3 > 1 {
        n / 3
    } else {
        1
    };
    s.truncate(keep);
    proof {
        broadcast use vstd::seq_lib::group_to_multiset_ensures;

        assert(s@ == full.subrange(0, keep as int));
        assert(forall|i: int| 0 <= i < s@.len() ==> s@[i] == full[i]);
        assert forall|i: int| 0 <= i < s@.len() implies scores_seen@.contains(#[trigger] s@[i]) by {
            assert(full.contains(full[i]));
            assert(scores_seen@.to_multiset().contains(full[i]));
        }
        assert forall|x: u64, y: u64| #![trigger s@.contains(x), scores_seen@.contains(y)]
            s@.contains(x) && scores_seen@.contains(y) && y < x implies s@.contains(y) by {
            let i = choose|i: int| 0 <= i < s@.len() && s@[i] == x;
            assert(full.to_multiset().contains(y));
            assert(full.contains(y));
            let j = choose|j: int| 0 <= j < full.len() && full[j] == y;
            // in the sorted full list everything below x sits before it
            assert(j < i) by {
                if j > i {
                    assert(full[i] <= full[j]);
                }
            }
            assert(s@[j] == y);
            assert(s@.contains(y));
        }
    }
    s
}

/// No step or merge is open to the tile at (x, y): the cell is occupied and
/// no axis-adjacent neighbor carries the same score.
pub open spec fn cell_blocked(cells: Seq<Option<Square>>, x: int, y: int) -> bool {
    match cells[cell_index(x, y)] {
        None => false,
        Some(sq) => {
            &&& in_range(x + 1, y) ==> (cells[cell_index(x + 1, y)] matches Some(n) ==> n.score
                != sq.score)
            &&& in_range(x - 1, y) ==> (cells[cell_index(x - 1, y)] matches Some(n) ==> n.score
                != sq.score)
            &&& in_range(x, y + 1) ==> (cells[cell_index(x, y + 1)] matches Some(n) ==> n.score
                != sq.score)
            &&& in_range(x, y - 1) ==> (cells[cell_index(x, y - 1)] matches Some(n) ==> n.score
                != sq.score)
        },
    }
}

/// The game is over: every cell is occupied and no two axis-adjacent tiles
/// carry the same score, so no input can move or merge anything.
pub open spec fn is_terminal(cells: Seq<Option<Square>>) -> bool {
    forall|x: int, y: int| in_range(x, y) ==> #[trigger] cell_blocked(cells, x, y)
}

/// Whether the tile at (x, y) can neither step nor merge.
fn cell_blocked_exec(grid: &Grid, x: u32, y: u32) -> (r: bool)
    requires
        grid.wf(),
        x < GRID_SIZE,
        y < GRID_SIZE,
    ensures
        r == cell_blocked(grid@, x as int, y as int),
{
    match grid.get_at((x, y)) {
        None => false,
        Some(sq) => {
            let neighbors = grid.get_neighbors((x, y));
            let mut blocked = true;
            if let Some(n) = neighbors[0] {
                if n.score == sq.score {
                    blocked = false;
                }
            }
            if let Some(n) = neighbors[1] {
                if n.score == sq.score {
                    blocked = false;
                }
            }
            if let Some(n) = neighbors[2] {
                if n.score == sq.score {
                    blocked = false;
                }
            }
            if let Some(n) = neighbors[3] {
                if n.score == sq.score {
                    blocked = false;
                }
            }
            blocked
        },
    }
}

/// Scans the whole board: the game is over exactly when no cell is empty
/// and no occupied cell has a same-score neighbor.
pub fn no_moves_left(grid: &Grid) -> (r: bool)
    requires
        grid.wf(),
    ensures
        r == is_terminal(grid@),
{
    let mut x: u32 = 0;
    while x < GRID_SIZE
        invariant
            x <= GRID_SIZE,
            grid.wf(),
            forall|a: int, b: int| 0 <= a < x && 0 <= b < GRID_SIZE ==> #[trigger] cell_blocked(
                grid@,
                a,
                b,
            ),
        decreases GRID_SIZE - x,
    {
        let mut y: u32 = 0;
        while y < GRID_SIZE
            invariant
                x < GRID_SIZE,
                y <= GRID_SIZE,
                grid.wf(),
                forall|b: int| 0 <= b < y ==> #[trigger] cell_blocked(grid@, x as int, b),
            decreases GRID_SIZE - y,
        {
            if !cell_blocked_exec(grid, x, y) {
                return false;
            }
            y = y + 1;
        }
        x = x + 1;
    }
    true
}

/// Each destination is recorded only after the mover's score entered the
/// seen set, so a pass that moved anything also saw a score.
proof fn lemma_moved_implies_seen(cells: Seq<Option<Square>>, dir: MovementDirection, k: int)
    ensures
        sweep_upto(cells, dir, k).moved.len() > 0 ==> exists|s: u64|
            sweep_upto(cells, dir, k).seen.contains(s),
    decreases k,
{
    if k > 0 {
        lemma_moved_implies_seen(cells, dir, k - 1);
        let prev = sweep_upto(cells, dir, k - 1);
        let cur = sweep_upto(cells, dir, k);
        if prev.moved.len() > 0 {
            let s = choose|s: u64| prev.seen.contains(s);
            assert(cur.seen.contains(s));
        } else if cur.moved.len() > 0 {
            let cell = sweep_cell(dir, k - 1);
            let sq = prev.cells[cell_index(cell.0, cell.1)]->0;
            assert(cur.seen.contains(sq.score));
        }
    }
}

/// A board that the direction cannot stir: each occupied cell's one-step
/// destination is the cell itself (the wall) or holds a tile of another
/// score (blocked).
pub open spec fn settled(cells: Seq<Option<Square>>, dir: MovementDirection) -> bool {
    forall|x: int, y: int| #![trigger cell_index(x, y)]
        in_range(x, y) && cells[cell_index(x, y)] is Some ==> {
            let dest = step_dest(dir, x, y);
            (dest.0 == x && dest.1 == y) || (cells[cell_index(dest.0, dest.1)] is Some && cells[
                cell_index(dest.0, dest.1)]->0.score != cells[cell_index(x, y)]->0.score)
        }
}

/// An input against a settled board moves nothing: the pass records no
/// moved tile, no score event and no removed tile, and leaves every cell
/// exactly as it was — so, by `resolve_move`, the turn also spawns nothing.
pub proof fn lemma_settled_is_noop(cells: Seq<Option<Square>>, dir: MovementDirection)
    requires
        cells.len() == 16,
        settled(cells, dir),
    ensures
        sweep(cells, dir).cells == cells,
        sweep(cells, dir).moved.len() == 0,
        sweep(cells, dir).events.len() == 0,
        sweep(cells, dir).removed.len() == 0,
{
    lemma_settled_is_noop_upto(cells, dir, 16);
}

proof fn lemma_settled_is_noop_upto(cells: Seq<Option<Square>>, dir: MovementDirection, k: int)
    requires
        cells.len() == 16,
        k <= 16,
        settled(cells, dir),
    ensures
        sweep_upto(cells, dir, k).cells == cells,
        sweep_upto(cells, dir, k).moved.len() == 0,
        sweep_upto(cells, dir, k).events.len() == 0,
        sweep_upto(cells, dir, k).removed.len() == 0,
    decreases k,
{
    if k > 0 {
        lemma_settled_is_noop_upto(cells, dir, k - 1);
        let c = sweep_cell(dir, k - 1);
        assert(0 <= (k - 1) / 4 < 4 && 0 <= (k - 1) % 4 < 4);
        assert(in_range(c.0, c.1));
    }
}

/// A game-over board really is dead: when the scan reports the terminal
/// state, the board is settled for every direction, so (with
/// `lemma_settled_is_noop`) no further input can move, merge or spawn
/// anything.
pub proof fn lemma_terminal_board_is_dead(cells: Seq<Option<Square>>, dir: MovementDirection)
    requires
        cells.len() == 16,
        is_terminal(cells),
    ensures
        settled(cells, dir),
{
    assert forall|x: int, y: int| #![trigger cell_index(x, y)]
        in_range(x, y) && cells[cell_index(x, y)] is Some implies {
        let dest = step_dest(dir, x, y);
        (dest.0 == x && dest.1 == y) || (cells[cell_index(dest.0, dest.1)] is Some && cells[
            cell_index(dest.0, dest.1)]->0.score != cells[cell_index(x, y)]->0.score)
    } by {
        assert(cell_blocked(cells, x, y));
        let dest = step_dest(dir, x, y);
        if !(dest.0 == x && dest.1 == y) {
            assert(in_range(dest.0, dest.1));
            assert(cell_blocked(cells, dest.0, dest.1));
        }
    }
}

/// An input that moves nothing changes nothing: when a pass records no
/// moved tile, the board, the score events and the removed tiles all stay
/// exactly as they were, so the turn is a no-op.
pub proof fn lemma_no_move_no_change(cells: Seq<Option<Square>>, dir: MovementDirection)
    ensures
        sweep(cells, dir).moved.len() == 0 ==> sweep(cells, dir).cells == cells && sweep(
            cells,
            dir,
        ).events.len() == 0 && sweep(cells, dir).removed.len() == 0,
{
    lemma_no_move_no_change_upto(cells, dir, 16);
}

proof fn lemma_no_move_no_change_upto(cells: Seq<Option<Square>>, dir: MovementDirection, k: int)
    ensures
        sweep_upto(cells, dir, k).moved.len() == 0 ==> sweep_upto(cells, dir, k).cells == cells
            && sweep_upto(cells, dir, k).events.len() == 0 && sweep_upto(
            cells,
            dir,
            k,
        ).removed.len() == 0,
    decreases k,
{
    if k > 0 {
        lemma_no_move_no_change_upto(cells, dir, k - 1);
    }
}

/// Changing one slot changes the total by the difference of the scores.
proof fn lemma_sum_update(cells: Seq<Option<Square>>, i: int, v: Option<Square>)
    requires
        0 <= i < cells.len(),
    ensures
        sum_scores(cells.update(i, v)) == sum_scores(cells) - score_of(cells[i]) + score_of(v),
    decreases cells.len(),
{
    if cells.len() > 0 {
        if i == cells.len() - 1 {
            assert(cells.update(i, v).drop_last() =~= cells.drop_last());
        } else {
            lemma_sum_update(cells.drop_last(), i, v);
            assert(cells.update(i, v).drop_last() =~= cells.drop_last().update(i, v));
        }
    }
}

/// Every slot contributes at least zero, so the total is at least any one
/// slot's score.
proof fn lemma_sum_nonneg(cells: Seq<Option<Square>>)
    ensures
        sum_scores(cells) >= 0,
    decreases cells.len(),
{
    if cells.len() > 0 {
        lemma_sum_nonneg(cells.drop_last());
    }
}

proof fn lemma_cell_le_sum(cells: Seq<Option<Square>>, i: int)
    requires
        0 <= i < cells.len(),
    ensures
        score_of(cells[i]) <= sum_scores(cells),
    decreases cells.len(),
{
    if i == cells.len() - 1 {
        lemma_sum_nonneg(cells.drop_last());
    } else {
        lemma_cell_le_sum(cells.drop_last(), i);
    }
}

/// Two different slots together contribute no more than the total.
proof fn lemma_two_cells_le_sum(cells: Seq<Option<Square>>, i: int, j: int)
    requires
        0 <= i < cells.len(),
        0 <= j < cells.len(),
        i != j,
    ensures
        score_of(cells[i]) + score_of(cells[j]) <= sum_scores(cells),
{
    lemma_sum_update(cells, i, None);
    lemma_cell_le_sum(cells.update(i, None), j);
}

/// Score conservation: the pass neither creates nor destroys score. A step
/// into an empty slot only relocates a tile; a merge removes two tiles of
/// score s and leaves one of score 2s. (A board total past the u64 range
/// would saturate the merged score, so it is excluded.)
pub proof fn lemma_score_conservation(cells: Seq<Option<Square>>, dir: MovementDirection)
    requires
        cells.len() == 16,
        sum_scores(cells) <= u64::MAX,
    ensures
        sum_scores(sweep(cells, dir).cells) == sum_scores(cells),
        sweep(cells, dir).cells.len() == 16,
{
    lemma_score_conservation_upto(cells, dir, 16);
}

proof fn lemma_score_conservation_upto(cells: Seq<Option<Square>>, dir: MovementDirection, k: int)
    requires
        cells.len() == 16,
        k <= 16,
        sum_scores(cells) <= u64::MAX,
    ensures
        sum_scores(sweep_upto(cells, dir, k).cells) == sum_scores(cells),
        sweep_upto(cells, dir, k).cells.len() == 16,
    decreases k,
{
    if k > 0 {
        lemma_score_conservation_upto(cells, dir, k - 1);
        let prev = sweep_upto(cells, dir, k - 1);
        let c = sweep_cell(dir, k - 1);
        let src = cell_index(c.0, c.1);
        assert(0 <= src < 16) by {
            assert(0 <= (k - 1) / 4 < 4 && 0 <= (k - 1) % 4 < 4);
        }
        match prev.cells[src] {
            None => {},
            Some(sq) => {
                let dest = step_dest(dir, c.0, c.1);
                let dst = cell_index(dest.0, dest.1);
                if dest.0 == c.0 && dest.1 == c.1 {
                } else {
                    assert(0 <= dst < 16);
                    assert(src != dst);
                    match prev.cells[dst] {
                        Some(other) => {
                            if other.score == sq.score {
                                lemma_two_cells_le_sum(prev.cells, src, dst);
                                lemma_sum_update(prev.cells, src, None);
                                lemma_sum_update(
                                    prev.cells.update(src, None),
                                    dst,
                                    Some(
                                        Square {
                                            entity: sq.entity,
                                            score: sat_add(sq.score, other.score),
                                        },
                                    ),
                                );
                            }
                        },
                        None => {
                            lemma_sum_update(prev.cells, src, None);
                            lemma_sum_update(prev.cells.update(src, None), dst, Some(sq));
                        },
                    }
                }
            },
        }
    }
}

/// A spawn adds exactly the spawned tile's score to the board total.
pub proof fn lemma_spawn_adds_exactly(cells: Seq<Option<Square>>, x: int, y: int, sq: Square)
    requires
        cells.len() == 16,
        in_range(x, y),
        cells[cell_index(x, y)] is None,
    ensures
        sum_scores(cells.update(cell_index(x, y), Some(sq))) == sum_scores(cells) + sq.score,
{
    lemma_sum_update(cells, cell_index(x, y), Some(sq));
}

proof fn lemma_spawn_candidates_empty_upto(
    cells: Seq<Option<Square>>,
    dir: MovementDirection,
    j: int,
)
    requires
        j <= 4,
    ensures
        forall|i: int| #![trigger spawn_candidates_upto(cells, dir, j)[i]]
            0 <= i < spawn_candidates_upto(cells, dir, j).len() ==> {
                let c = spawn_candidates_upto(cells, dir, j)[i];
                in_range(c.0 as int, c.1 as int) && cells[cell_index(
                    c.0 as int,
                    c.1 as int,
                )] is None
            },
    decreases j,
{
    if j > 0 {
        lemma_spawn_candidates_empty_upto(cells, dir, j - 1);
    }
}

/// A spawn candidate is always an empty cell on the board.
pub proof fn lemma_spawn_candidate_cell(
    cells: Seq<Option<Square>>,
    dir: MovementDirection,
    c: (u32, u32),
)
    requires
        spawn_candidates(cells, dir).contains(c),
    ensures
        in_range(c.0 as int, c.1 as int),
        cells[cell_index(c.0 as int, c.1 as int)] is None,
{
    lemma_spawn_candidates_empty_upto(cells, dir, 4);
    let i = choose|i: int|
        0 <= i < spawn_candidates(cells, dir).len() && spawn_candidates(cells, dir)[i] == c;
}

/// Score conservation across one whole resolved turn: the pass leaves the
/// board total unchanged, and the spawn that may follow it adds exactly the
/// spawned tile's score — no other value appears or disappears.
pub proof fn lemma_turn_score(
    cells: Seq<Option<Square>>,
    dir: MovementDirection,
    c: (u32, u32),
    v: u64,
    id: u64,
)
    requires
        cells.len() == 16,
        sum_scores(cells) <= u64::MAX,
        spawn_candidates(sweep(cells, dir).cells, dir).contains(c),
    ensures
        sum_scores(sweep(cells, dir).cells) == sum_scores(cells),
        sum_scores(
            sweep(cells, dir).cells.update(
                cell_index(c.0 as int, c.1 as int),
                Some(Square { entity: id, score: v }),
            ),
        ) == sum_scores(cells) + v,
{
    lemma_score_conservation(cells, dir);
    lemma_spawn_candidate_cell(sweep(cells, dir).cells, dir, c);
    lemma_spawn_adds_exactly(
        sweep(cells, dir).cells,
        c.0 as int,
        c.1 as int,
        Square { entity: id, score: v },
    );
}

/// A tile with the given identity stands somewhere on the board.
pub open spec fn has_entity(cells: Seq<Option<Square>>, e: u64) -> bool {
    exists|i: int| #![trigger cells[i]]
        0 <= i < cells.len() && cells[i] is Some && cells[i]->0.entity == e
}

/// The pass never duplicates a tile and never invents one: identities stay
/// pairwise distinct, and every identity present after the pass was on the
/// board before it. (A merge keeps the mover's identity and drops the
/// occupant's; a step only relocates.)
pub proof fn lemma_sweep_preserves_entities(
    cells: Seq<Option<Square>>,
    dir: MovementDirection,
    k: int,
)
    requires
        cells.len() == 16,
        k <= 16,
        entities_distinct(cells),
    ensures
        sweep_upto(cells, dir, k).cells.len() == 16,
        entities_distinct(sweep_upto(cells, dir, k).cells),
        forall|e: u64| #[trigger] has_entity(sweep_upto(cells, dir, k).cells, e) ==> has_entity(
            cells,
            e,
        ),
    decreases k,
{
    if k > 0 {
        lemma_sweep_preserves_entities(cells, dir, k - 1);
        let prev = sweep_upto(cells, dir, k - 1).cells;
        let cur = sweep_upto(cells, dir, k).cells;
        let c = sweep_cell(dir, k - 1);
        let src = cell_index(c.0, c.1);
        assert(0 <= src < 16) by {
            assert(0 <= (k - 1) / 4 < 4 && 0 <= (k - 1) % 4 < 4);
        }
        match prev[src] {
            None => {},
            Some(sq) => {
                let dest = step_dest(dir, c.0, c.1);
                let dst = cell_index(dest.0, dest.1);
                if dest.0 == c.0 && dest.1 == c.1 {
                } else {
                    assert(0 <= dst < 16);
                    assert(src != dst);
                    let stepped = !(prev[dst] matches Some(o) && o.score != sq.score);
                    if stepped {
                        // cur = prev with src emptied and dst carrying sq's identity
                        assert(cur[dst] is Some && cur[dst]->0.entity == sq.entity);
                        assert(entities_distinct(cur)) by {
                            assert forall|i: int, j: int|
                                0 <= i < cur.len() && 0 <= j < cur.len() && i != j && cur[i] is Some
                                    && cur[j] is Some implies cur[i]->0.entity
                                != cur[j]->0.entity by {
                                if i == dst {
                                    assert(cur[j] == prev[j]);
                                    assert(prev[src]->0.entity != prev[j]->0.entity);
                                } else if j == dst {
                                    assert(cur[i] == prev[i]);
                                    assert(prev[src]->0.entity != prev[i]->0.entity);
                                } else {
                                    assert(cur[i] == prev[i] && cur[j] == prev[j]);
                                }
                            }
                        }
                        assert forall|e: u64| #[trigger] has_entity(cur, e) implies has_entity(
                            cells,
                            e,
                        ) by {
                            let i = choose|i: int| #![trigger cur[i]]
                                0 <= i < cur.len() && cur[i] is Some && cur[i]->0.entity == e;
                            if i == dst {
                                assert(prev[src] matches Some(o) && o.entity == e);
                                assert(has_entity(prev, e));
                            } else {
                                assert(cur[i] == prev[i]);
                                assert(has_entity(prev, e));
                            }
                        }
                    }
                }
            },
        }
    }
}

/// Every identity below a bound before the pass is below it after.
pub proof fn lemma_sweep_entities_below(
    cells: Seq<Option<Square>>,
    dir: MovementDirection,
    bound: u64,
)
    requires
        cells.len() == 16,
        entities_distinct(cells),
        entities_below(cells, bound),
    ensures
        entities_below(sweep(cells, dir).cells, bound),
{
    lemma_sweep_preserves_entities(cells, dir, 16);
    let cur = sweep(cells, dir).cells;
    assert forall|i: int|
        0 <= i < cur.len() && cur[i] is Some implies cur[i]->0.entity < bound by {
        let e = cur[i]->0.entity;
        assert(cur[i] matches Some(sq) && sq.entity == e);
        assert(has_entity(cur, e));
        assert(has_entity(cells, e));
        let j = choose|j: int| #![trigger cells[j]]
            0 <= j < cells.len() && cells[j] is Some && cells[j]->0.entity == e;
        assert(cells[j]->0.entity < bound);
    }
}

/// The position in the sweep at which cell (x, y) is processed.
pub open spec fn sweep_index(dir: MovementDirection, x: int, y: int) -> int {
    match dir {
        MovementDirection::Up | MovementDirection::Left => 4 * x + 3 - y,
        MovementDirection::Down | MovementDirection::Right => 4 * (3 - x) + y,
    }
}

/// The tile standing at (x, y) after the pass stood, before it, at (x, y)
/// itself or at a cell whose single step lands on (x, y): no tile crosses
/// more than one cell per input.
pub open spec fn single_step_origin(
    cells: Seq<Option<Square>>,
    dir: MovementDirection,
    x: int,
    y: int,
    e: u64,
) -> bool {
    ||| (cells[cell_index(x, y)] matches Some(o) && o.entity == e)
    ||| exists|a: int, b: int| #![trigger cell_index(a, b)]
        in_range(a, b) && step_dest(dir, a, b) == (x, y) && (cells[cell_index(a, b)] matches Some(o)
            && o.entity == e)
}

#[verifier::rlimit(60)]
proof fn lemma_single_step_upto(cells: Seq<Option<Square>>, dir: MovementDirection, k: int)
    requires
        cells.len() == 16,
        0 <= k <= 16,
    ensures
        sweep_upto(cells, dir, k).cells.len() == 16,
        forall|x: int, y: int| #![trigger cell_index(x, y)]
            in_range(x, y) && sweep_index(dir, x, y) >= k ==> sweep_upto(cells, dir, k).cells[
                cell_index(x, y)] == cells[cell_index(x, y)],
        forall|x: int, y: int| #![trigger cell_index(x, y)]
            in_range(x, y) && sweep_upto(cells, dir, k).cells[cell_index(x, y)] is Some
                ==> single_step_origin(
                cells,
                dir,
                x,
                y,
                sweep_upto(cells, dir, k).cells[cell_index(x, y)]->0.entity,
            ),
    decreases k,
{
    if k > 0 {
        lemma_single_step_upto(cells, dir, k - 1);
        let prev = sweep_upto(cells, dir, k - 1).cells;
        let cur = sweep_upto(cells, dir, k).cells;
        let c = sweep_cell(dir, k - 1);
        assert(0 <= (k - 1) / 4 < 4 && 0 <= (k - 1) % 4 < 4);
        assert(in_range(c.0, c.1));
        assert(sweep_index(dir, c.0, c.1) == k - 1);
        let src = cell_index(c.0, c.1);
        match prev[src] {
            None => {},
            Some(sq) => {
                let dest = step_dest(dir, c.0, c.1);
                let dst = cell_index(dest.0, dest.1);
                if dest.0 == c.0 && dest.1 == c.1 {
                } else {
                    assert(in_range(dest.0, dest.1));
                    assert(sweep_index(dir, dest.0, dest.1) < k - 1);
                    assert(src != dst);
                    let stepped = !(prev[dst] matches Some(o) && o.score != sq.score);
                    if stepped {
                        // the source cell was still untouched, so the mover
                        // is an original tile one step from its new cell
                        assert(prev[src] == cells[src]);
                        assert forall|x: int, y: int| #![trigger cell_index(x, y)]
                            in_range(x, y) && cur[cell_index(x, y)] is Some
                                implies single_step_origin(
                            cells,
                            dir,
                            x,
                            y,
                            cur[cell_index(x, y)]->0.entity,
                        ) by {
                            let p = cell_index(x, y);
                            if p == dst {
                                assert(cells[cell_index(c.0, c.1)] matches Some(o) && o.entity
                                    == cur[p]->0.entity);
                                assert(in_range(c.0, c.1) && step_dest(dir, c.0, c.1) == (x, y));
                            } else if p == src {
                                assert(cur[p] is None);
                            } else {
                                assert(cur[p] == prev[p]);
                            }
                        }
                    }
                }
            },
        }
    }
}

/// Single-step semantics: one directional input moves each tile at most one
/// cell. Every tile on the board after the pass was, before it, either at
/// the same cell or at the one adjacent cell whose step lands there —
/// never further away, so no slide cascades within one input.
pub proof fn lemma_single_step(cells: Seq<Option<Square>>, dir: MovementDirection)
    requires
        cells.len() == 16,
    ensures
        forall|x: int, y: int| #![trigger cell_index(x, y)]
            in_range(x, y) && sweep(cells, dir).cells[cell_index(x, y)] is Some
                ==> single_step_origin(
                cells,
                dir,
                x,
                y,
                sweep(cells, dir).cells[cell_index(x, y)]->0.entity,
            ),
{
    lemma_single_step_upto(cells, dir, 16);
}

/// The spawned score is admissible for the given distinct scores: some
/// candidate list of the lowest third holds it.
pub open spec fn spawn_value_allowed(seen: Seq<u64>, v: u64) -> bool {
    exists|cands: Seq<u64>| #[trigger] is_value_candidates(seen, cands) && cands.contains(v)
}

/// A turn without a spawn: nothing moved, or the spawn edge opposite the
/// motion's origin wall is fully occupied after the sweep.
pub open spec fn no_spawn_turn(cells: Seq<Option<Square>>, dir: MovementDirection) -> bool {
    sweep(cells, dir).moved.len() == 0 || spawn_candidates(sweep(cells, dir).cells, dir).len() == 0
}

/// What one directional input did to the session's board.
pub struct MoveOutcome {
    /// The sweep's record: moved destinations, score events, distinct
    /// scores seen, removed tiles.
    pub result: MoveResult,
    /// The spawned tile's cell and score, already placed on the board; None
    /// when nothing moved or the spawn edge was full.
    pub spawn: Option<((u32, u32), u64)>,
    /// True when the board was scanned and no legal move remains. The scan
    /// runs only on turns without a spawn.
    pub game_over: bool,
}

/// Resolves one directional input completely: the sweep; then, when a tile
/// actually moved and the edge opposite the motion's origin wall has an
/// empty cell, the spawn of one new tile under the fresh identity
/// `next_id`, placed on a random empty edge cell with a score drawn from
/// the lowest third of the scores seen; and otherwise the end-of-game scan.
pub fn resolve_move(grid: &mut Grid, dir: MovementDirection, next_id: u64) -> (o: MoveOutcome)
    requires
        old(grid).wf(),
    ensures
        final(grid).wf(),
        o.result.moved@ == sweep(old(grid)@, dir).moved,
        o.result.score_events@ == sweep(old(grid)@, dir).events,
        o.result.removed@ == sweep(old(grid)@, dir).removed,
        o.result.scores_seen@.no_duplicates(),
        forall|s: u64| #[trigger] o.result.scores_seen@.contains(s) == sweep(
            old(grid)@,
            dir,
        ).seen.contains(s),
        no_spawn_turn(old(grid)@, dir) ==> o.spawn is None,
        no_spawn_turn(old(grid)@, dir) ==> final(grid)@ == sweep(old(grid)@, dir).cells,
        no_spawn_turn(old(grid)@, dir) ==> o.game_over == is_terminal(sweep(old(grid)@, dir).cells),
        !no_spawn_turn(old(grid)@, dir) ==> o.game_over == false && o.spawn is Some,
        !no_spawn_turn(old(grid)@, dir) ==> spawn_candidates(
            sweep(old(grid)@, dir).cells,
            dir,
        ).contains((o.spawn->0).0),
        !no_spawn_turn(old(grid)@, dir) ==> final(grid)@ == sweep(old(grid)@, dir).cells.update(
            cell_index(((o.spawn->0).0).0 as int, ((o.spawn->0).0).1 as int),
            Some(Square { entity: next_id, score: (o.spawn->0).1 }),
        ),
        !no_spawn_turn(old(grid)@, dir) ==> spawn_value_allowed(
            o.result.scores_seen@,
            (o.spawn->0).1,
        ),
{
    let ghost orig = grid@;
    let result = apply_move(grid, dir);
    let mut spawn: Option<((u32, u32), u64)> = None;
    let mut game_over = false;
    if result.moved.len() > 0 {
        let cands = empty_spawn_cells(grid, dir);
        if cands.len() > 0 {
            let ci = crate::rng::random_index(cands.len());
            let cell = cands[ci];
            proof {
                assert(spawn_candidates(grid@, dir).contains(cell));
                lemma_moved_implies_seen(orig, dir, 16);
                let s = choose|s: u64| sweep(orig, dir).seen.contains(s);
                assert(result.scores_seen@.contains(s));
            }
            let values = spawn_value_candidates(&result.scores_seen);
            let vi = crate::rng::random_index(values.len());
            let value = values[vi];
            proof {
                assert(values@.contains(value));
            }
            grid.add_at(cell, Square { entity: next_id, score: value });
            spawn = Some((cell, value));
            proof {
                assert(values@.contains(value));
                assert(spawn_value_allowed(result.scores_seen@, value));
            }
        } else {
            game_over = no_moves_left(grid);
        }
    } else {
        game_over = no_moves_left(grid);
    }
    MoveOutcome { result, spawn, game_over }
}

} // verus!

