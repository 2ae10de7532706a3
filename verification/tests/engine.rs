use squares::grid::{Grid, Square, GRID_SIZE};
use squares::merge::{apply_move, no_moves_left, resolve_move, spawn_value_candidates, MovementDirection};

fn sq(entity: u64, score: u64) -> Square {
    Square { entity, score }
}

fn sum_of(grid: &Grid) -> u128 {
    let mut total: u128 = 0;
    for x in 0..GRID_SIZE {
        for y in 0..GRID_SIZE {
            if let Some(s) = grid.get_at((x, y)) {
                total += s.score as u128;
            }
        }
    }
    total
}

#[test]
fn grid_add_get_take() {
    let mut g = Grid::new();
    assert_eq!(g.get_at((0, 0)), None);
    g.add_at((1, 2), sq(5, 8));
    assert_eq!(g.get_at((1, 2)), Some(sq(5, 8)));
    assert!(g.is_filled((1, 2)));
    assert!(!g.is_filled((2, 1)));
    // reads are total: off the board is simply empty
    assert_eq!(g.get_at((7, 0)), None);
    assert_eq!(g.take_at((9, 9)), None);
    let taken = g.take_at((1, 2));
    assert_eq!(taken, Some(sq(5, 8)));
    assert!(!g.is_filled((1, 2)));
}

#[test]
fn grid_move_overwrites_destination() {
    let mut g = Grid::new();
    g.add_at((0, 0), sq(1, 2));
    let moved = g.take_at((0, 0)).unwrap();
    g.move_to(moved, (3, 3));
    assert_eq!(g.get_at((0, 0)), None);
    assert_eq!(g.get_at((3, 3)), Some(sq(1, 2)));
}

#[test]
fn grid_neighbors_at_corner_and_center() {
    let mut g = Grid::new();
    g.add_at((1, 1), sq(1, 2));
    g.add_at((2, 1), sq(2, 4));
    g.add_at((0, 1), sq(3, 8));
    g.add_at((1, 2), sq(4, 16));
    g.add_at((1, 0), sq(5, 32));
    let n = g.get_neighbors((1, 1));
    assert_eq!(n[0], Some(sq(2, 4))); // right
    assert_eq!(n[1], Some(sq(3, 8))); // left
    assert_eq!(n[2], Some(sq(4, 16))); // above
    assert_eq!(n[3], Some(sq(5, 32))); // below
    let corner = g.get_neighbors((0, 0));
    assert_eq!(corner[1], None); // boundary neighbor is empty, not a fault
    assert_eq!(corner[3], None);
}

#[test]
fn grid_clear_empties_every_cell() {
    let mut g = Grid::new();
    g.add_at((2, 3), sq(1, 2));
    g.clear();
    for x in 0..GRID_SIZE {
        for y in 0..GRID_SIZE {
            assert_eq!(g.get_at((x, y)), None);
        }
    }
}

#[test]
fn adjacent_equal_tiles_merge_in_one_tick() {
    // [A, B, _, _] with equal scores, moving toward A: one input merges
    let mut g = Grid::new();
    g.add_at((0, 0), sq(0, 2));
    g.add_at((1, 0), sq(1, 2));
    let r = apply_move(&mut g, MovementDirection::Left);
    assert_eq!(g.get_at((0, 0)), Some(sq(1, 4))); // the mover keeps its identity
    assert_eq!(g.get_at((1, 0)), None);
    assert_eq!(r.moved, vec![(0, 0)]);
    assert_eq!(r.score_events, vec![4]);
    assert_eq!(r.removed, vec![sq(0, 2)]);
}

#[test]
fn distant_tile_steps_once_not_a_cascade() {
    // [A, _, _, B] moving toward A: B advances one cell only
    let mut g = Grid::new();
    g.add_at((0, 0), sq(0, 2));
    g.add_at((3, 0), sq(1, 2));
    let r = apply_move(&mut g, MovementDirection::Left);
    assert_eq!(g.get_at((0, 0)), Some(sq(0, 2)));
    assert_eq!(g.get_at((2, 0)), Some(sq(1, 2)));
    assert_eq!(g.get_at((3, 0)), None);
    assert_eq!(r.moved, vec![(2, 0)]);
    assert_eq!(r.score_events, Vec::<u64>::new());
}

#[test]
fn blocked_tile_of_other_score_stays() {
    let mut g = Grid::new();
    g.add_at((0, 0), sq(0, 2));
    g.add_at((1, 0), sq(1, 4));
    let r = apply_move(&mut g, MovementDirection::Left);
    assert_eq!(g.get_at((0, 0)), Some(sq(0, 2)));
    assert_eq!(g.get_at((1, 0)), Some(sq(1, 4)));
    assert!(r.moved.is_empty());
}

#[test]
fn vacated_cell_is_refilled_in_the_same_pass() {
    // [2, 2, 2, _] moving left: the pair at the wall merges and the third
    // tile advances into the vacated cell, but merges no further
    let mut g = Grid::new();
    g.add_at((0, 0), sq(0, 2));
    g.add_at((1, 0), sq(1, 2));
    g.add_at((2, 0), sq(2, 2));
    let r = apply_move(&mut g, MovementDirection::Left);
    assert_eq!(g.get_at((0, 0)), Some(sq(1, 4)));
    assert_eq!(g.get_at((1, 0)), Some(sq(2, 2)));
    assert_eq!(g.get_at((2, 0)), None);
    assert_eq!(r.score_events, vec![4]);
    assert_eq!(r.moved, vec![(0, 0), (1, 0)]);
}

#[test]
fn merge_conserves_total_score() {
    let mut g = Grid::new();
    g.add_at((0, 1), sq(0, 8));
    g.add_at((1, 1), sq(1, 8));
    g.add_at((3, 1), sq(2, 2));
    let before = sum_of(&g);
    let _ = apply_move(&mut g, MovementDirection::Left);
    assert_eq!(sum_of(&g), before);
}

#[test]
fn spawn_adds_exactly_one_tile_of_its_score() {
    let mut g = Grid::new();
    g.add_at((2, 0), sq(0, 2));
    g.add_at((3, 0), sq(1, 2));
    let before = sum_of(&g);
    let out = resolve_move(&mut g, MovementDirection::Left, 99);
    let (cell, value) = out.spawn.expect("a tile moved and the right edge is open");
    assert_eq!(cell.0, GRID_SIZE - 1); // moving left spawns on the right edge
    assert_eq!(sum_of(&g), before + value as u128);
    assert_eq!(g.get_at(cell), Some(sq(99, value)));
}

#[test]
fn no_op_input_spawns_nothing_and_queues_nothing() {
    // a fully packed, already-settled column: moving toward its wall moves
    // nothing, so the board is unchanged and there is no spawn and no event
    let mut g = Grid::new();
    g.add_at((0, 3), sq(0, 2));
    g.add_at((0, 2), sq(1, 4));
    g.add_at((0, 1), sq(2, 8));
    g.add_at((0, 0), sq(3, 16));
    let snapshot: Vec<Option<Square>> =
        (0..16).map(|i| g.get_at((i % 4, i / 4))).collect();
    let out = resolve_move(&mut g, MovementDirection::Up, 50);
    let after: Vec<Option<Square>> =
        (0..16).map(|i| g.get_at((i % 4, i / 4))).collect();
    assert_eq!(snapshot, after);
    assert!(out.spawn.is_none());
    assert!(out.result.moved.is_empty());
    assert!(out.result.score_events.is_empty());
    assert!(!out.game_over); // empty cells remain, so the game goes on
}

fn full_board_no_adjacent_equal() -> Grid {
    // alternating scores: no two axis-adjacent cells match
    let mut g = Grid::new();
    let mut id = 0;
    for x in 0..GRID_SIZE {
        for y in 0..GRID_SIZE {
            let score = if (x + y) % 2 == 0 { 2 } else { 4 };
            g.add_at((x, y), sq(id, score));
            id += 1;
        }
    }
    g
}

#[test]
fn full_board_without_pairs_is_terminal() {
    let g = full_board_no_adjacent_equal();
    assert!(no_moves_left(&g));
}

#[test]
fn full_board_with_one_pair_is_not_terminal() {
    let mut g = full_board_no_adjacent_equal();
    // make (0,0) and (1,0) an equal pair
    let right = g.get_at((1, 0)).unwrap();
    g.add_at((0, 0), sq(77, right.score));
    assert!(!no_moves_left(&g));
}

#[test]
fn board_with_an_empty_cell_is_not_terminal() {
    let mut g = full_board_no_adjacent_equal();
    let _ = g.take_at((2, 2));
    assert!(!no_moves_left(&g));
}

#[test]
fn dead_full_board_signals_game_over_on_input() {
    let mut g = full_board_no_adjacent_equal();
    let out = resolve_move(&mut g, MovementDirection::Down, 50);
    assert!(out.result.moved.is_empty());
    assert!(out.spawn.is_none());
    assert!(out.game_over);
}

#[test]
fn spawn_value_candidates_keep_the_lowest_third() {
    // {2, 4, 8} distinct: a third of three is one, so only 2 stays
    let seen = vec![8, 2, 4];
    assert_eq!(spawn_value_candidates(&seen), vec![2]);
    // six distinct values keep two
    let seen6 = vec![64, 4, 16, 2, 32, 8];
    assert_eq!(spawn_value_candidates(&seen6), vec![2, 4]);
    // a single value always stays
    assert_eq!(spawn_value_candidates(&vec![32]), vec![32]);
}

#[test]
fn spawned_value_is_biased_low() {
    // scores {2, 4, 8} take part in the move, so the spawn must be a 2
    let mut g = Grid::new();
    g.add_at((2, 0), sq(0, 2));
    g.add_at((3, 0), sq(1, 2));
    g.add_at((3, 1), sq(2, 4));
    g.add_at((3, 2), sq(3, 8));
    let out = resolve_move(&mut g, MovementDirection::Left, 9);
    let (_, value) = out.spawn.expect("tiles moved and the right edge is open");
    assert_eq!(value, 2);
}

#[test]
fn spawn_lands_on_the_edge_opposite_the_motion() {
    for _ in 0..8 {
        let mut g = Grid::new();
        g.add_at((1, 2), sq(0, 2));
        let out = resolve_move(&mut g, MovementDirection::Up, 9);
        let (cell, _) = out.spawn.expect("the tile moved up and row 0 is open");
        assert_eq!(cell.1, 0); // moving up opens spawn candidates along y = 0
        assert!(cell.0 < GRID_SIZE);
    }
}
