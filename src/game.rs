//! A play session: phases, frame pacing, steering and entering a name for the table.

use vstd::prelude::*;
use crate::body::{Segment, SegmentKind};
use crate::grid::{opposite_spec, Direction, Grid, Position};
use crate::leaderboard::{qualifies, recorded, Leaderboard};
use crate::placer::{random_draws, PlacementError};
use crate::simulation::{seed_spec, tick, Outcome, SimState, Simulation, DRAWS_PER_STEP};

verus! {

/// Grid width of a session.
pub const WIDTH: i32 = 30;

/// Grid height of a session.
pub const HEIGHT: i32 = 20;

/// Frames per simulation step.
pub const SNAKE_SPEED: u64 = 15;

/// Longest name that can be entered.
pub const MAX_NAME_LEN: usize = 10;

/// Where a session is in its life.
#[derive(Clone, Copy, Debug, PartialEq, Eq, Structural)]
pub enum Phase {
    NotStarted,
    Running,
    GameOver,
}

/// One session of play with its score table.
pub struct Game {
    pub sim: Simulation,
    pub phase: Phase,
    pub frame_count: u64,
    pub high_scores: Leaderboard,
    pub entering_name: bool,
    pub player_name: Vec<char>,
    /// The direction of the last step taken, or the starting direction before any.
    pub heading: Direction,
}

pub open spec fn printable(c: char) -> bool {
    ' ' <= c <= '~'
}

/// The simulation a session starts from.
pub open spec fn start_state() -> SimState {
    SimState {
        grid: Grid { width: WIDTH, height: HEIGHT, wrap_around: true },
        body: seq![Segment { position: Position { x: (WIDTH / 2) as i32, y: (HEIGHT / 2) as i32 }, kind: SegmentKind::Head }],
        direction: Direction::Right,
        foods: Seq::empty(),
        score: 0,
    }
}

/// What one frame does, with `draws` as the candidate cells for any food placed.
pub open spec fn frame_spec(pre: Game, post: Game, draws: Seq<Position>, r: Result<(), PlacementError>) -> bool {
    let due = pre.phase == Phase::Running && post.frame_count % SNAKE_SPEED == 0;
    let (next, res) = tick(pre.sim@, draws);
    let over = res matches Ok(Outcome::GameOver(_));
    &&& post.wf()
    &&& post.frame_count == pre.frame_count.wrapping_add(1)
    &&& post.high_scores.view() == pre.high_scores.view()
    &&& !due ==> {
        &&& r is Ok
        &&& post.sim@ == pre.sim@
        &&& post.phase == pre.phase
        &&& post.entering_name == pre.entering_name
        &&& post.player_name@ == pre.player_name@
        &&& post.heading == pre.heading
    }
    &&& due ==> {
        &&& post.sim@ == next
        &&& post.heading == pre.sim.direction
        &&& (r is Err <==> res is Err)
        &&& post.phase == if over { Phase::GameOver } else { Phase::Running }
        &&& post.entering_name == (over && qualifies(pre.high_scores.view(), next.score))
        &&& post.player_name@ == if over && qualifies(pre.high_scores.view(), next.score) {
            Seq::<char>::empty()
        } else {
            pre.player_name@
        }
    }
}

impl Game {
    pub open spec fn wf(&self) -> bool {
        &&& self.sim@.wf()
        &&& self.high_scores.wf()
        &&& self.player_name@.len() <= MAX_NAME_LEN
        &&& self.phase != Phase::GameOver ==> !self.entering_name
    }

    /// A session that has not started yet, with the given score table.
    pub fn new(high_scores: Leaderboard) -> (r: Game)
        requires
            high_scores.wf(),
        ensures
            r.wf(),
            r.sim@ == start_state(),
            r.phase == Phase::NotStarted,
            r.frame_count == 0,
            r.high_scores.view() == high_scores.view(),
            !r.entering_name,
            r.player_name@.len() == 0,
            r.heading == Direction::Right,
    {
        let grid = Grid { width: WIDTH, height: HEIGHT, wrap_around: true };
        let sim = Simulation::new(grid, Position { x: WIDTH / 2, y: HEIGHT / 2 }, Direction::Right);
        proof {
            assert(sim@.body =~= start_state().body);
            assert(sim@.foods =~= start_state().foods);
        }
        Game {
            sim,
            phase: Phase::NotStarted,
            frame_count: 0,
            high_scores,
            entering_name: false,
            player_name: Vec::new(),
            heading: Direction::Right,
        }
    }

    /// Starts name entry when the final score earns a place in the table.
    pub fn check_high_score(&mut self)
        requires
            old(self).wf(),
            old(self).phase == Phase::GameOver,
        ensures
            final(self).wf(),
            final(self).entering_name == (old(self).entering_name || qualifies(old(self).high_scores.view(), old(self).sim.score)),
            qualifies(old(self).high_scores.view(), old(self).sim.score) ==> final(self).player_name@.len() == 0,
            !qualifies(old(self).high_scores.view(), old(self).sim.score) ==> final(self).player_name@ == old(self).player_name@,
            final(self).sim@ == old(self).sim@,
            final(self).phase == old(self).phase,
            final(self).frame_count == old(self).frame_count,
            final(self).high_scores.view() == old(self).high_scores.view(),
            final(self).heading == old(self).heading,
    {
        if self.high_scores.is_high_score(self.sim.score) {
            self.entering_name = true;
            self.player_name.clear();
        }
    }

    /// A direction key. Before the start it sets the heading, seeds the foods from
    /// `draws` and starts play; during play it turns the snake unless that would
    /// reverse the direction of its last step; after the end it does nothing.
    pub fn on_direction(&mut self, d: Direction, draws: &Vec<Position>) -> (r: Result<(), PlacementError>)
        requires
            old(self).wf(),
        ensures
            final(self).wf(),
            final(self).frame_count == old(self).frame_count,
            final(self).high_scores.view() == old(self).high_scores.view(),
            final(self).entering_name == old(self).entering_name,
            final(self).player_name@ == old(self).player_name@,
            final(self).heading == if old(self).phase == Phase::NotStarted { d } else { old(self).heading },
            old(self).phase == Phase::NotStarted ==> match seed_spec(old(self).sim.grid, old(self).sim.body@, draws@) {
                Some(f) => r is Ok && final(self).phase == Phase::Running
                    && final(self).sim@ == (SimState { direction: d, foods: f, ..old(self).sim@ }),
                None => r is Err && final(self).phase == Phase::NotStarted
                    && final(self).sim@ == (SimState { direction: d, ..old(self).sim@ }),
            },
            old(self).phase == Phase::Running ==> r is Ok && final(self).phase == Phase::Running
                && final(self).sim@ == (SimState {
                    direction: if d == opposite_spec(old(self).heading) { old(self).sim.direction } else { d },
                    ..old(self).sim@
                }),
            old(self).phase == Phase::GameOver ==> r is Ok && final(self).phase == Phase::GameOver
                && final(self).sim@ == old(self).sim@,
    {
        match self.phase {
            Phase::NotStarted => {
                self.sim.direction = d;
                self.heading = d;
                match self.sim.spawn_foods(draws) {
                    Ok(()) => {
                        self.phase = Phase::Running;
                        Ok(())
                    },
                    Err(e) => Err(e),
                }
            },
            Phase::Running => {
                if d != self.heading.opposite() {
                    self.sim.direction = d;
                }
                Ok(())
            },
            Phase::GameOver => Ok(()),
        }
    }

    /// One frame, with `draws` as candidate cells for any food placed. Every
    /// `SNAKE_SPEED`-th frame of play steps the simulation; a step that ends the game
    /// moves to the game-over phase and checks the score against the table.
    pub fn update_with(&mut self, draws: &Vec<Position>) -> (r: Result<(), PlacementError>)
        requires
            old(self).wf(),
        ensures
            frame_spec(*old(self), *final(self), draws@, r),
    {
        self.frame_count = self.frame_count.wrapping_add(1);
        if self.phase != Phase::Running || self.frame_count % SNAKE_SPEED != 0 {
            return Ok(());
        }
        self.heading = self.sim.direction;
        match self.sim.step_with(draws) {
            Err(e) => Err(e),
            Ok(Outcome::Continue) => Ok(()),
            Ok(Outcome::GameOver(_)) => {
                self.phase = Phase::GameOver;
                self.check_high_score();
                proof {
                    if self.player_name@.len() == 0 {
                        assert(self.player_name@ =~= Seq::<char>::empty());
                    }
                }
                Ok(())
            },
        }
    }

    /// One frame, with food placed at random cells.
    pub fn update(&mut self) -> (r: Result<(), PlacementError>)
        requires
            old(self).wf(),
        ensures
            final(self).wf(),
            exists|draws: Seq<Position>| frame_spec(*old(self), *final(self), draws, r),
    {
        let draws = random_draws(&self.sim.grid, DRAWS_PER_STEP);
        self.update_with(&draws)
    }

    /// The confirm key. While a name is entered, records a non-empty name with the
    /// score and returns `true`; after the end otherwise, starts a new session with
    /// the same table.
    pub fn on_confirm(&mut self) -> (r: bool)
        requires
            old(self).wf(),
        ensures
            final(self).wf(),
            r == (old(self).phase == Phase::GameOver && old(self).entering_name && old(self).player_name@.len() > 0),
            r ==> final(self).high_scores.view() == recorded(old(self).high_scores.view(), (old(self).player_name@, old(self).sim.score))
                && !final(self).entering_name && final(self).phase == Phase::GameOver,
            !r ==> final(self).high_scores.view() == old(self).high_scores.view(),
            old(self).phase == Phase::GameOver && !old(self).entering_name ==> final(self).phase == Phase::NotStarted
                && final(self).sim@ == start_state() && final(self).frame_count == 0 && final(self).player_name@.len() == 0
                && !final(self).entering_name && final(self).heading == Direction::Right,
            !(old(self).phase == Phase::GameOver && !old(self).entering_name) ==> {
                &&& final(self).sim@ == old(self).sim@
                &&& final(self).phase == old(self).phase
                &&& final(self).frame_count == old(self).frame_count
                &&& final(self).heading == old(self).heading
                &&& final(self).player_name@ == old(self).player_name@
                &&& final(self).entering_name == (old(self).entering_name && !r)
            },
    {
        if self.phase != Phase::GameOver {
            return false;
        }
        if self.entering_name {
            if self.player_name.len() == 0 {
                return false;
            }
            let name = self.player_name.clone();
            proof {
                assert(name@ =~= self.player_name@);
            }
            self.high_scores.add_high_score(name, self.sim.score);
            self.entering_name = false;
            true
        } else {
            let grid = Grid { width: WIDTH, height: HEIGHT, wrap_around: true };
            self.sim = Simulation::new(grid, Position { x: WIDTH / 2, y: HEIGHT / 2 }, Direction::Right);
            proof {
                assert(self.sim@.body =~= start_state().body);
                assert(self.sim@.foods =~= start_state().foods);
            }
            self.phase = Phase::NotStarted;
            self.frame_count = 0;
            self.player_name = Vec::new();
            self.heading = Direction::Right;
            false
        }
    }

    /// The backspace key: removes the last character of the name being entered.
    pub fn on_backspace(&mut self)
        requires
            old(self).wf(),
        ensures
            final(self).wf(),
            old(self).phase == Phase::GameOver && old(self).entering_name && old(self).player_name@.len() > 0
                ==> final(self).player_name@ == old(self).player_name@.drop_last(),
            !(old(self).phase == Phase::GameOver && old(self).entering_name)
                ==> final(self).player_name@ == old(self).player_name@,
            final(self).sim@ == old(self).sim@,
            final(self).phase == old(self).phase,
            final(self).entering_name == old(self).entering_name,
            final(self).high_scores.view() == old(self).high_scores.view(),
            final(self).frame_count == old(self).frame_count,
            final(self).heading == old(self).heading,
    {
        if self.phase == Phase::GameOver && self.entering_name {
            self.player_name.pop();
        }
    }

    /// A character key: appends a printable character to the name being entered,
    /// up to `MAX_NAME_LEN` characters.
    pub fn on_character(&mut self, c: char)
        requires
            old(self).wf(),
        ensures
            final(self).wf(),
            final(self).player_name@ == if old(self).phase == Phase::GameOver && old(self).entering_name
                && printable(c) && old(self).player_name@.len() < MAX_NAME_LEN {
                old(self).player_name@.push(c)
            } else {
                old(self).player_name@
            },
            final(self).sim@ == old(self).sim@,
            final(self).phase == old(self).phase,
            final(self).entering_name == old(self).entering_name,
            final(self).high_scores.view() == old(self).high_scores.view(),
            final(self).frame_count == old(self).frame_count,
            final(self).heading == old(self).heading,
    {
        if self.phase == Phase::GameOver && self.entering_name && ' ' <= c && c <= '~'
            && self.player_name.len() < MAX_NAME_LEN {
            self.player_name.push(c);
        }
    }
}

} // verus!
