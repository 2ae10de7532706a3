use squares::grid::{Grid, Square, GRID_SIZE};
use squares::merge::MovementDirection;
use squares::session::{GameSession, RunningGameState, ScoreChange};

fn sq(entity: u64, score: u64) -> Square {
    Square { entity, score }
}

fn occupied(g: &Grid) -> Vec<((u32, u32), Square)> {
    let mut v = Vec::new();
    for x in 0..GRID_SIZE {
        for y in 0..GRID_SIZE {
            if let Some(s) = g.get_at((x, y)) {
                v.push(((x, y), s));
            }
        }
    }
    v
}

#[test]
fn new_session_seeds_the_two_fixed_tiles() {
    let s = GameSession::new();
    assert_eq!(s.grid.get_at((1, 2)), Some(sq(0, 1)));
    assert_eq!(s.grid.get_at((2, 1)), Some(sq(1, 2)));
    assert_eq!(occupied(&s.grid).len(), 2);
    assert_eq!(s.score, 0);
    assert_eq!(s.prev_score, None);
    assert_eq!(s.state, RunningGameState::Running);
    assert!(s.score_queue.is_empty());
}

#[test]
fn tile_identities_stay_distinct_across_play() {
    // the occupancy invariant: one tile per cell (by construction of the
    // table) and no identity on two cells at once
    let mut s = GameSession::new();
    let dirs = [
        MovementDirection::Up,
        MovementDirection::Left,
        MovementDirection::Down,
        MovementDirection::Right,
    ];
    for round in 0..40 {
        let _ = s.move_squares(dirs[round % 4]);
        let mut ids: Vec<u64> = occupied(&s.grid).iter().map(|(_, t)| t.entity).collect();
        let n = ids.len();
        ids.sort();
        ids.dedup();
        assert_eq!(ids.len(), n, "a tile identity appeared twice");
        s.drain_score_events();
    }
}

#[test]
fn merge_queues_the_summed_score_and_drain_applies_it() {
    let mut s = GameSession::new();
    s.grid.clear();
    s.grid.add_at((0, 0), sq(0, 2));
    s.grid.add_at((1, 0), sq(1, 2));
    s.next_id = 2;
    let out = s.move_squares(MovementDirection::Left).expect("running");
    assert_eq!(out.result.score_events, vec![4]);
    assert_eq!(s.score_queue, vec![ScoreChange::Add(4)]);
    assert_eq!(s.score, 0); // queued, not applied immediately
    s.drain_score_events();
    assert_eq!(s.score, 4);
    assert_eq!(s.prev_score, Some(0)); // the pre-drain total, for one tick
    assert!(s.score_queue.is_empty());
    s.drain_score_events();
    assert_eq!(s.prev_score, None); // the window lasts exactly one tick
    assert_eq!(s.score, 4);
}

#[test]
fn input_is_ignored_while_game_over() {
    let mut s = GameSession::new();
    s.grid.clear();
    let mut id = 0;
    for x in 0..GRID_SIZE {
        for y in 0..GRID_SIZE {
            let score = if (x + y) % 2 == 0 { 2 } else { 4 };
            s.grid.add_at((x, y), sq(id, score));
            id += 1;
        }
    }
    s.next_id = id;
    let out = s.move_squares(MovementDirection::Left).expect("first input runs");
    assert!(out.game_over);
    assert_eq!(s.state, RunningGameState::GameOver);
    let snapshot = occupied(&s.grid);
    let ignored = s.move_squares(MovementDirection::Right);
    assert!(ignored.is_none());
    assert_eq!(occupied(&s.grid), snapshot);
    assert_eq!(s.state, RunningGameState::GameOver);
}

#[test]
fn restart_reseeds_and_resets_the_score() {
    let mut s = GameSession::new();
    let _ = s.move_squares(MovementDirection::Left);
    s.drain_score_events();
    s.state = RunningGameState::GameOver;
    s.restart();
    assert_eq!(s.state, RunningGameState::Running);
    assert_eq!(s.grid.get_at((1, 2)), Some(sq(0, 1)));
    assert_eq!(s.grid.get_at((2, 1)), Some(sq(1, 2)));
    assert_eq!(occupied(&s.grid).len(), 2);
    assert_eq!(s.score_queue.last(), Some(&ScoreChange::Reset));
    let pre_drain = s.score;
    s.drain_score_events();
    assert_eq!(s.score, 0); // the reset lands when the queue drains
    assert_eq!(s.prev_score, Some(pre_drain));
}

#[test]
fn score_events_apply_in_order() {
    let mut s = GameSession::new();
    s.score_queue.push(ScoreChange::Add(10));
    s.score_queue.push(ScoreChange::Reset);
    s.score_queue.push(ScoreChange::Add(3));
    s.drain_score_events();
    assert_eq!(s.score, 3);
}

#[test]
fn a_no_op_direction_is_a_silent_turn() {
    let mut s = GameSession::new();
    s.grid.clear();
    // a settled full left column, pushed further left
    s.grid.add_at((0, 0), sq(0, 2));
    s.grid.add_at((0, 1), sq(1, 4));
    s.grid.add_at((0, 2), sq(2, 8));
    s.grid.add_at((0, 3), sq(3, 16));
    s.next_id = 4;
    let before = occupied(&s.grid);
    let out = s.move_squares(MovementDirection::Left).expect("running");
    assert!(out.result.moved.is_empty());
    assert!(out.spawn.is_none());
    assert!(s.score_queue.is_empty());
    assert_eq!(occupied(&s.grid), before);
    assert_eq!(s.state, RunningGameState::Running);
}
