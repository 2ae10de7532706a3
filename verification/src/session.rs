//! The game session: the board, the running score with its event queue,
//! and the running/game-over state machine.

use vstd::prelude::*;

use crate::grid::{cell_index, entities_below, entities_distinct, Grid, Square};
use crate::merge::{
    is_terminal, no_spawn_turn, resolve_move, sat_add, spawn_candidates, spawn_value_allowed,
    sweep, MoveOutcome, MovementDirection,
};

verus! {

/// Whether play continues. GameOver is left only through a restart.
#[derive(Clone, Copy, PartialEq, Eq, Structural, Debug)]
pub enum RunningGameState {
    Running,
    GameOver,
}

/// A queued change to the running score, applied once per tick.
#[derive(Clone, Copy, PartialEq, Eq, Structural, Debug)]
pub enum ScoreChange {
    Add(u64),
    Reset,
}

/// The score total after a queue of changes has been applied in order.
pub open spec fn apply_events(total: u64, events: Seq<ScoreChange>) -> u64
    decreases events.len(),
{
    if events.len() == 0 {
        total
    } else {
        let t = match events[0] {
            ScoreChange::Add(d) => sat_add(total, d),
            ScoreChange::Reset => 0u64,
        };
        apply_events(t, events.drop_first())
    }
}

/// The two fixed starting tiles: score 1 at (1, 2) and score 2 at (2, 1),
/// under the first two identities.
pub open spec fn initial_cells() -> Seq<Option<Square>> {
    Seq::new(16, |i: int| None::<Square>).update(
        cell_index(1, 2),
        Some(Square { entity: 0, score: 1 }),
    ).update(cell_index(2, 1), Some(Square { entity: 1, score: 2 }))
}

/// One running game: the board, the score state and the state machine.
/// Score changes queue up and are drained once per tick, so the
/// presentation layer can animate the old total toward the new one.
pub struct GameSession {
    /// The occupancy table.
    pub grid: Grid,
    /// The running total.
    pub score: u64,
    /// The total as it stood before the latest drain, kept for exactly one
    /// tick; None on ticks that drained nothing.
    pub prev_score: Option<u64>,
    /// Running or game over.
    pub state: RunningGameState,
    /// Score changes queued by merges and restarts, drained once per tick.
    pub score_queue: Vec<ScoreChange>,
    /// The next fresh tile identity.
    pub next_id: u64,
}

impl GameSession {
    /// Every tile identity is unique and below the fresh-identity counter.
    pub open spec fn wf(&self) -> bool {
        &&& self.grid.wf()
        &&& entities_distinct(self.grid@)
        &&& entities_below(self.grid@, self.next_id)
    }

    /// Places the two fixed starting tiles on an empty board.
    fn seed_board() -> (g: Grid)
        ensures
            g.wf(),
            g@ == initial_cells(),
    {
        let mut g = Grid::new();
        g.add_at((1, 2), Square { entity: 0, score: 1 });
        g.add_at((2, 1), Square { entity: 1, score: 2 });
        proof {
            assert(g@ =~= initial_cells());
        }
        g
    }

    /// A fresh session: the two starting tiles, score zero, running.
    pub fn new() -> (s: GameSession)
        ensures
            s.wf(),
            s.grid@ == initial_cells(),
            s.score == 0,
            s.prev_score is None,
            s.state == RunningGameState::Running,
            s.score_queue@ == Seq::<ScoreChange>::empty(),
            s.next_id == 2,
    {
        let grid = Self::seed_board();
        GameSession {
            grid,
            score: 0,
            prev_score: None,
            state: RunningGameState::Running,
            score_queue: Vec::new(),
            next_id: 2,
        }
    }

    /// Restart: the one way out of GameOver. Clears the board, reseeds the
    /// two starting tiles, returns to Running and queues a score reset (so
    /// the displayed total can animate down on the next drain).
    pub fn restart(&mut self)
        ensures
            final(self).wf(),
            final(self).grid@ == initial_cells(),
            final(self).state == RunningGameState::Running,
            final(self).score_queue@ == old(self).score_queue@.push(ScoreChange::Reset),
            final(self).next_id == 2,
            final(self).score == old(self).score,
            final(self).prev_score == old(self).prev_score,
    {
        self.grid = Self::seed_board();
        self.state = RunningGameState::Running;
        self.score_queue.push(ScoreChange::Reset);
        self.next_id = 2;
    }

    /// Handles one directional input. While GameOver the input is ignored
    /// (no error, nothing changes). While Running it resolves the move: the
    /// sweep, one Add event queued per merge, the spawn when a tile moved
    /// and the spawn edge had room, and the transition to GameOver when the
    /// scan finds no legal move.
    pub fn move_squares(&mut self, dir: MovementDirection) -> (o: Option<MoveOutcome>)
        requires
            old(self).wf(),
            old(self).next_id < u64::MAX,
        ensures
            final(self).wf(),
            final(self).score == old(self).score,
            final(self).prev_score == old(self).prev_score,
            old(self).state == RunningGameState::GameOver ==> o is None && *final(self) == *old(
                self,
            ),
            old(self).state == RunningGameState::Running ==> o is Some && {
                let m = sweep(old(self).grid@, dir);
                let out = o->0;
                &&& out.result.moved@ == m.moved
                &&& out.result.score_events@ == m.events
                &&& out.result.removed@ == m.removed
                &&& out.result.scores_seen@.no_duplicates()
                &&& forall|v: u64| #[trigger] out.result.scores_seen@.contains(v)
                    == m.seen.contains(v)
                &&& final(self).score_queue@ == old(self).score_queue@ + m.events.map_values(
                    |d: u64| ScoreChange::Add(d),
                )
                &&& final(self).state == (if out.game_over {
                    RunningGameState::GameOver
                } else {
                    RunningGameState::Running
                })
            },
            old(self).state == RunningGameState::Running && no_spawn_turn(old(self).grid@, dir)
                ==> {
                let m = sweep(old(self).grid@, dir);
                &&& o->0.spawn is None
                &&& final(self).grid@ == m.cells
                &&& o->0.game_over == is_terminal(m.cells)
                &&& final(self).next_id == old(self).next_id
            },
            old(self).state == RunningGameState::Running && !no_spawn_turn(old(self).grid@, dir)
                ==> {
                let m = sweep(old(self).grid@, dir);
                let spawned = (o->0.spawn)->0;
                &&& o->0.game_over == false
                &&& o->0.spawn is Some
                &&& spawn_candidates(m.cells, dir).contains(spawned.0)
                &&& final(self).grid@ == m.cells.update(
                    cell_index((spawned.0).0 as int, (spawned.0).1 as int),
                    Some(Square { entity: old(self).next_id, score: spawned.1 }),
                )
                &&& final(self).next_id == old(self).next_id + 1
                &&& spawn_value_allowed(o->0.result.scores_seen@, spawned.1)
            },
    {
        match self.state {
            RunningGameState::GameOver => None,
            RunningGameState::Running => {
                let ghost pre = self.grid@;
                let outcome = resolve_move(&mut self.grid, dir, self.next_id);
                proof {
                    crate::merge::lemma_sweep_preserves_entities(pre, dir, 16);
                    crate::merge::lemma_sweep_entities_below(pre, dir, self.next_id);
                }
                if outcome.spawn.is_some() {
                    self.next_id = self.next_id + 1;
                }
                proof {
                    if outcome.spawn is Some {
                        let m = sweep(pre, dir);
                        let cellv = outcome.spawn->0;
                        crate::merge::lemma_spawn_candidate_cell(m.cells, dir, cellv.0);
                        let idx = cell_index((cellv.0).0 as int, (cellv.0).1 as int);
                        let g = self.grid@;
                        let fresh = (self.next_id - 1) as u64;
                        assert(entities_below(m.cells, fresh));
                        assert(entities_distinct(g)) by {
                            assert forall|i: int, j: int|
                                0 <= i < g.len() && 0 <= j < g.len() && i != j && g[i] is Some
                                    && g[j] is Some implies g[i]->0.entity != g[j]->0.entity by {
                                if i == idx {
                                    assert(g[j] == m.cells[j]);
                                    assert(m.cells[j]->0.entity < fresh);
                                } else if j == idx {
                                    assert(g[i] == m.cells[i]);
                                    assert(m.cells[i]->0.entity < fresh);
                                } else {
                                    assert(g[i] == m.cells[i] && g[j] == m.cells[j]);
                                }
                            }
                        }
                        assert(entities_below(g, self.next_id)) by {
                            assert forall|i: int|
                                0 <= i < g.len() && g[i] is Some implies g[i]->0.entity
                                < self.next_id by {
                                if i != idx {
                                    assert(g[i] == m.cells[i]);
                                }
                            }
                        }
                    }
                }
                let ghost queued = self.score_queue@;
                let ghost settled = *self;
                proof {
                    assert(self.score_queue@ == queued + outcome.result.score_events@.take(
                        0,
                    ).map_values(|d: u64| ScoreChange::Add(d))) by {
                        assert(outcome.result.score_events@.take(0).map_values(
                            |d: u64| ScoreChange::Add(d),
                        ) =~= Seq::<ScoreChange>::empty());
                        assert(queued + Seq::<ScoreChange>::empty() =~= queued);
                    }
                }
                let mut i: usize = 0;
                while i < outcome.result.score_events.len()
                    invariant
                        i <= outcome.result.score_events@.len(),
                        self.score_queue@ == queued + outcome.result.score_events@.take(
                            i as int,
                        ).map_values(|d: u64| ScoreChange::Add(d)),
                        self.grid == settled.grid,
                        self.score == settled.score,
                        self.prev_score == settled.prev_score,
                        self.state == settled.state,
                        self.next_id == settled.next_id,
                    decreases outcome.result.score_events@.len() - i,
                {
                    let d = outcome.result.score_events[i];
                    self.score_queue.push(ScoreChange::Add(d));
                    proof {
                        assert(outcome.result.score_events@.take(i + 1) =~= outcome.result.score_events@.take(
                            i as int,
                        ).push(d));
                        assert(outcome.result.score_events@.take(i + 1).map_values(
                            |d: u64| ScoreChange::Add(d),
                        ) =~= outcome.result.score_events@.take(i as int).map_values(
                            |d: u64| ScoreChange::Add(d),
                        ).push(ScoreChange::Add(d)));
                    }
                    i = i + 1;
                }
                proof {
                    assert(outcome.result.score_events@.take(outcome.result.score_events@.len() as int)
                        =~= outcome.result.score_events@);
                }
                if outcome.game_over {
                    self.state = RunningGameState::GameOver;
                }
                Some(outcome)
            },
        }
    }

    /// Drains the queued score changes, once per tick: applies them in
    /// order to the running total and keeps the pre-drain total for exactly
    /// one tick (None when nothing was queued).
    pub fn drain_score_events(&mut self)
        ensures
            final(self).score == apply_events(old(self).score, old(self).score_queue@),
            final(self).score_queue@ == Seq::<ScoreChange>::empty(),
            old(self).score_queue@.len() > 0 ==> final(self).prev_score == Some(old(self).score),
            old(self).score_queue@.len() == 0 ==> final(self).prev_score is None,
            final(self).grid == old(self).grid,
            final(self).state == old(self).state,
            final(self).next_id == old(self).next_id,
            final(self).wf() == old(self).wf(),
    {
        let had_events = self.score_queue.len() > 0;
        let old_total = self.score;
        proof {
            assert(self.score_queue@.skip(0) =~= self.score_queue@);
        }
        let mut i: usize = 0;
        while i < self.score_queue.len()
            invariant
                i <= self.score_queue@.len(),
                self.score_queue == old(self).score_queue,
                apply_events(old(self).score, old(self).score_queue@) == apply_events(
                    self.score,
                    self.score_queue@.skip(i as int),
                ),
                self.grid == old(self).grid,
                self.state == old(self).state,
                self.next_id == old(self).next_id,
                self.prev_score == old(self).prev_score,
            decreases self.score_queue@.len() - i,
        {
            let ghost before = self.score_queue@.skip(i as int);
            match self.score_queue[i] {
                ScoreChange::Add(d) => {
                    self.score = self.score.saturating_add(d);
                },
                ScoreChange::Reset => {
                    self.score = 0;
                },
            }
            proof {
                assert(before.drop_first() =~= self.score_queue@.skip(i + 1));
            }
            i = i + 1;
        }
        proof {
            assert(self.score_queue@.skip(self.score_queue@.len() as int)
                =~= Seq::<ScoreChange>::empty());
        }
        self.score_queue.clear();
        self.prev_score = if had_events {
            Some(old_total)
        } else {
            None
        };
    }
}

} // verus!
