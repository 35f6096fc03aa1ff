//! What holds of every game that is only ever ticked: its counters agree with
//! each other, and progress within a run is never lost.

use vstd::prelude::*;

use crate::{ledger, maze, model, soundness};
use crate::maze::Pellet;
use crate::model::GameView;
use crate::rules::{Input, Phase, EXTRA_LIFE_SCORE, MAX_LEVEL};

verus! {

impl GameView {
    /// The most that the run can still score: the pellets and the fruit of this
    /// level, the ghosts of the power cycle in effect, and the levels to come.
    pub open spec fn outlook(self) -> int {
        ledger::worth_on(self.maze.pellets) + (if self.fruit.spawned && !self.fruit.active {
            0int
        } else {
            5000
        }) + self.reserve() + (20 - self.level) * 19070
    }

    /// The counters of a game that is only ever ticked agree with each other.
    pub open spec fn consistent(self) -> bool {
        self.consistent_with(0)
    }

    /// The counters of a game agree with each other that is ticked and was given
    /// so many points besides.
    #[verifier::opaque]
    pub open spec fn consistent_with(self, given: int) -> bool {
        &&& given >= 0
        // The counter of pellets is the number of pellets on the board.
        &&& self.remaining_pellets == maze::pellets_on(
            self.maze.pellets,
        )
        // Runs end with their stats committed, and only then.
        &&& self.stats_committed <==> self.phase != Phase::Playing
        &&& self.end_frame is Some <==> self.phase != Phase::Playing
        &&& self.phase != Phase::Playing ==> self.best_score + given >= self.score
            && !self.confirm_restart
        // The banner of a run that has ended does not expire.
        &&& self.phase != Phase::Playing ==> self.info_until is None
        // A run is lost without lives, and won on an empty last board.
        &&& self.lives >= 0
        &&& self.phase == Phase::Lost <==> self.lives == 0
        &&& self.phase == Phase::Won ==> self.level == MAX_LEVEL && self.remaining_pellets
            == 0
        // The extra life goes to runs that reach its price.
        &&& self.extra_life_granted <==> self.score >= EXTRA_LIFE_SCORE
        // One fruit per level.
        &&& self.fruit.active ==> self.fruit.spawned
        &&& self.collected_fruits.len() <= self.level - 1 + if self.fruit.spawned
            && !self.fruit.active {
            1int
        } else {
            0
        }
        // Clocks.
        &&& self.run_start_frame <= self.level_start_frame <= self.frame
        &&& self.end_frame matches Some(f) ==> self.run_start_frame <= f <= self.frame
        &&& self.power_until <= self.frame + 360
        // No run scores more than 384400 points by itself.
        &&& self.score >= 0
        &&& self.score + self.outlook() <= 384_400 + given
    }

    /// The counters agree, and no question waits for an answer.
    spec fn in_play(self, given: int) -> bool {
        self.consistent_with(given) && !self.confirm_restart
    }

    /// `next` continues this game within the same run.
    #[verifier::opaque]
    pub open spec fn continues_to(self, next: GameView) -> bool {
        &&& next.score >= self.score
        &&& next.best_score >= self.best_score
        &&& next.level >= self.level
        &&& next.run_start_frame == self.run_start_frame
        &&& self.extra_life_granted ==> next.extra_life_granted
        &&& self.collected_fruits.len() <= next.collected_fruits.len()
        &&& next.collected_fruits.take(self.collected_fruits.len() as int)
            =~= self.collected_fruits
        &&& self.phase != Phase::Playing ==> next.phase == self.phase && next.score == self.score
            && next.lives == self.lives && next.best_score == self.best_score
        &&& next.phase == Phase::Playing ==> next.best_score == self.best_score
        &&& self.phase == Phase::Playing && next.phase != Phase::Playing ==> next.best_score == if next.score
            > self.best_score {
            next.score
        } else {
            self.best_score
        }
        &&& next.level == self.level ==> next.remaining_pellets <= self.remaining_pellets
    }

    proof fn continues_to_itself(self)
        ensures
            self.continues_to(self),
    {
        reveal(GameView::continues_to);
    }

    proof fn continues_further(self, mid: GameView, last: GameView)
        requires
            self.continues_to(mid),
            mid.continues_to(last),
        ensures
            self.continues_to(last),
    {
        reveal(GameView::continues_to);
        let n = self.collected_fruits.len() as int;
        assert(last.collected_fruits.take(n) =~= last.collected_fruits.take(
            mid.collected_fruits.len() as int,
        ).take(n));
    }

    /// What a level start keeps.
    proof fn level_start_history(self, given: int)
        requires
            self.sound(),
            self.in_play(given),
            self.phase == Phase::Playing,
            self.remaining_pellets == 0,
            self.level < MAX_LEVEL,
        ensures
            self.level_started(self.level + 1).in_play(given),
            self.continues_to(self.level_started(self.level + 1)),
    {
        reveal(GameView::consistent_with);
        reveal(GameView::continues_to);
        self.level_start_is_sound(self.level + 1);
        maze::native_maze_holds_191_pellets();
        ledger::native_maze_is_worth_14070();
        ledger::worth_is_not_negative(self.maze.pellets, self.maze.pellets.len() as int);
        let next = self.level_started(self.level + 1);
        assert(next.maze.pellets == maze::native_maze().pellets);
        assert(next.collected_fruits.take(self.collected_fruits.len() as int)
            =~= self.collected_fruits);
    }

    /// A new run starts consistent, whatever came before it.
    pub proof fn run_start_history(self, given: int)
        requires
            self.frame >= 0,
            self.power_eaten.len() == 4,
            self.power_chain == model::flags_up(self.power_eaten, 4),
            self.power_until <= self.frame + 360,
            given >= 0,
        ensures
            self.run_started().consistent_with(given),
            self.run_started().best_score == self.best_score,
    {
        reveal(GameView::consistent_with);
        reveal(GameView::run_started);
        self.run_start_is_valid();
        soundness::flag_down(self.power_eaten, 0, 4);
        maze::native_maze_holds_191_pellets();
        ledger::native_maze_is_worth_14070();
        let next = self.run_started();
        assert(next.maze.pellets == maze::native_maze().pellets);
        assert(next.reserve() <= 3000);
    }

    proof fn pellet_history(self, given: int)
        requires
            self.sound(),
            self.in_play(given),
            self.phase == Phase::Playing,
            self.remaining_pellets >= 1,
        ensures
            self.pellet_eaten().in_play(given),
            self.continues_to(self.pellet_eaten()),
    {
        reveal(GameView::consistent_with);
        reveal(GameView::continues_to);
        let p = self.player.pos;
        let next = self.pellet_eaten();
        soundness::flag_down(self.power_eaten, 0, 4);
        soundness::none_eaten_counts_zero();
        assert(self.maze.pellets[p.0].len() == self.maze.layout.cols);
        if self.maze.pellets[p.0][p.1] != Pellet::Empty {
            ledger::taking_a_pellet(self.maze.pellets, p.0, p.1);
            assert(next.maze.pellets == ledger::without(self.maze.pellets, p.0, p.1));
        }
        assert(next.collected_fruits.take(self.collected_fruits.len() as int)
            =~= self.collected_fruits);
    }

    proof fn fruit_history(self, given: int)
        requires
            self.sound(),
            self.in_play(given),
            self.phase == Phase::Playing,
        ensures
            self.fruit_eaten().in_play(given),
            self.continues_to(self.fruit_eaten()),
    {
        reveal(GameView::consistent_with);
        reveal(GameView::continues_to);
        let next = self.fruit_eaten();
        assert(next.collected_fruits.take(self.collected_fruits.len() as int)
            =~= self.collected_fruits);
    }

    proof fn level_check_history(self, given: int)
        requires
            self.sound(),
            self.in_play(given),
            self.phase == Phase::Playing,
        ensures
            self.level_checked().in_play(given),
            self.continues_to(self.level_checked()),
    {
        let next = self.level_checked();
        if self.remaining_pellets != 0 {
            self.continues_to_itself();
        } else if self.level >= MAX_LEVEL {
            reveal(GameView::consistent_with);
            reveal(GameView::continues_to);
            assert(next.collected_fruits.take(self.collected_fruits.len() as int)
                =~= self.collected_fruits);
        } else {
            self.level_start_history(given);
            reveal(GameView::consistent_with);
            reveal(GameView::continues_to);
        }
    }

    proof fn consuming_history(self, given: int)
        requires
            self.sound(),
            self.in_play(given),
            self.phase == Phase::Playing,
            self.lives >= 1,
            self.remaining_pellets >= 1,
        ensures
            self.cell_consumed().in_play(given),
            self.continues_to(self.cell_consumed()),
    {
        reveal(GameView::cell_consumed);
        let fed = self.pellet_eaten();
        self.pellet_eating_is_sound();
        self.pellet_history(given);
        let treated = fed.fruit_eaten();
        assert(treated.sound() && treated.phase == Phase::Playing);
        fed.fruit_history(given);
        treated.level_check_history(given);
        self.continues_further(fed, treated);
        self.continues_further(treated, treated.level_checked());
    }

    proof fn player_step_history(self, given: int)
        requires
            self.wf(),
            self.in_play(given),
            self.phase == Phase::Playing,
        ensures
            self.player_stepped().in_play(given),
            self.continues_to(self.player_stepped()),
    {
        self.continues_to_itself();
        if self.frame >= self.player.next_step_at {
            let dir = if self.player_can_go(self.player.next_dir) {
                self.player.next_dir
            } else {
                self.player.dir
            };
            let turned = GameView {
                player: model::PlayerView { dir, next_step_at: self.frame + 12, ..self.player },
                ..self
            };
            let moved = GameView {
                player: model::PlayerView {
                    pos: self.maze.layout.step(self.player.pos, dir),
                    ..turned.player
                },
                ..turned
            };
            assert(turned.in_play(given) && moved.in_play(given)) by {
                reveal(GameView::consistent_with);
            }
            assert(self.continues_to(turned) && self.continues_to(moved)) by {
                reveal(GameView::continues_to);
            }
            if turned.player_can_go(dir) {
                moved.consuming_history(given);
                self.continues_further(moved, moved.cell_consumed());
            }
        }
    }

    proof fn meeting_history(self, i: int, given: int)
        requires
            self.wf(),
            self.in_play(given),
            self.frame >= 0,
            0 <= i < 4,
        ensures
            self.met(i).in_play(given),
            self.continues_to(self.met(i)),
    {
        reveal(GameView::met);
        self.continues_to_itself();
        let g = self.ghosts[i];
        let next = self.met(i);
        if self.powered() {
            self.eating_ghost_is_valid(i);
        }
        soundness::flag_down(self.power_eaten, 0, 4);
        reveal(GameView::consistent_with);
        reveal(GameView::continues_to);
        assert(next.collected_fruits.take(self.collected_fruits.len() as int)
            =~= self.collected_fruits);
    }

    proof fn meetings_history(self, i: int, given: int)
        requires
            self.wf(),
            self.in_play(given),
            self.frame >= 0,
            0 <= i,
        ensures
            self.met_from(i).in_play(given),
            self.continues_to(self.met_from(i)),
        decreases 4 - i,
    {
        if i >= 4 {
            self.continues_to_itself();
        } else {
            let m = self.met(i);
            self.meeting_is_valid(i);
            self.meeting_history(i, given);
            if m.phase == Phase::Playing {
                m.meetings_history(i + 1, given);
                self.continues_further(m, m.met_from(i + 1));
            }
        }
    }

    proof fn ghost_move_history(self, i: int, given: int)
        requires
            self.wf(),
            self.in_play(given),
            0 <= i < 4,
        ensures
            self.ghost_moved(i).in_play(given),
            self.continues_to(self.ghost_moved(i)),
    {
        reveal(GameView::ghost_moved);
        reveal(GameView::ghost_stepped);
        reveal(GameView::consistent_with);
        reveal(GameView::continues_to);
    }

    proof fn moves_history(self, i: int, given: int)
        requires
            self.wf(),
            self.in_play(given),
            self.frame >= 0,
            0 <= i,
        ensures
            self.moved_from(i).in_play(given),
            self.continues_to(self.moved_from(i)),
        decreases 4 - i,
    {
        if i >= 4 {
            self.continues_to_itself();
        } else {
            let moved = self.ghost_moved(i);
            let m = moved.met(i);
            self.ghost_move_is_valid(i);
            self.ghost_move_history(i, given);
            moved.meeting_is_valid(i);
            moved.meeting_history(i, given);
            self.continues_further(moved, m);
            if m.phase == Phase::Playing {
                m.moves_history(i + 1, given);
                self.continues_further(m, m.moved_from(i + 1));
            }
        }
    }

    proof fn player_update_history(self, given: int)
        requires
            self.wf(),
            self.in_play(given),
            self.frame >= 0,
        ensures
            self.player_updated().in_play(given),
            self.continues_to(self.player_updated()),
    {
        reveal(GameView::player_updated);
        self.continues_to_itself();
        if self.phase == Phase::Playing && self.countdown_left() <= 0 {
            self.player_step_is_valid();
            self.player_step_history(given);
            let m = self.player_stepped();
            m.meetings_history(0, given);
            self.continues_further(m, m.met_from(0));
        }
    }

    proof fn ghosts_update_history(self, given: int)
        requires
            self.wf(),
            self.in_play(given),
            self.frame >= 0,
        ensures
            self.ghosts_updated().in_play(given),
            self.continues_to(self.ghosts_updated()),
    {
        reveal(GameView::ghosts_updated);
        let calm = self.moods_updated();
        self.moods_are_valid();
        assert(calm.in_play(given)) by {
            reveal(GameView::consistent_with);
        }
        assert(self.continues_to(calm)) by {
            reveal(GameView::continues_to);
        }
        calm.moves_history(0, given);
        self.continues_further(calm, calm.moved_from(0));
    }

    proof fn play_history(self, given: int)
        requires
            self.wf(),
            self.consistent_with(given),
            self.frame >= 0,
        ensures
            self.played().consistent_with(given),
            self.continues_to(self.played()),
    {
        reveal(GameView::played);
        self.continues_to_itself();
        if !self.confirm_restart && self.phase == Phase::Playing {
            let checked = self.power_checked();
            let ready = checked.fruit_checked();
            self.power_check_is_sound();
            assert(ready.in_play(given)) by {
                reveal(GameView::consistent_with);
                soundness::flag_down(self.power_eaten, 0, 4);
            }
            assert(self.continues_to(ready)) by {
                reveal(GameView::continues_to);
            }
            ready.player_update_is_valid();
            ready.player_update_history(given);
            let m = ready.player_updated();
            self.continues_further(ready, m);
            if m.phase == Phase::Playing {
                m.ghosts_update_history(given);
                self.continues_further(m, m.ghosts_updated());
            }
        }
    }

    /// A frame keeps the counters in agreement. Unless it starts a new run, it
    /// continues the run: points, levels, fruits and the best score are never
    /// lost, no pellet comes back within a level, and a run that has ended
    /// stays ended.
    pub proof fn tick_keeps_counters(self, input: Input, given: int)
        requires
            self.wf(),
            self.consistent_with(given),
            self.frame >= 0,
        ensures
            self.ticked(input).consistent_with(given),
            self.ticked(input).best_score >= self.best_score,
            !self.restarts_on(input) ==> self.continues_to(self.ticked(input)),
    {
        let taken = self.input_taken(input);
        let ready = taken.info_checked();
        self.input_is_valid(input);
        assert(ready.consistent_with(given) && (!self.restarts_on(input) ==> self.continues_to(ready))
            && ready.best_score >= self.best_score) by {
            reveal(GameView::input_taken);
            if self.restarts_on(input) {
                assert(self.power_until <= self.frame + 360 && given >= 0) by {
                    reveal(GameView::consistent_with);
                }
                self.run_start_history(given);
                assert(taken == self.run_started());
                reveal(GameView::consistent_with);
            } else {
                reveal(GameView::consistent_with);
                reveal(GameView::continues_to);
            }
        }
        ready.play_is_valid();
        ready.play_history(given);
        if !self.restarts_on(input) {
            self.continues_further(ready, ready.played());
        }
        let last = self.ticked(input);
        assert(last.consistent_with(given)) by {
            reveal(GameView::consistent_with);
            soundness::flag_down(last.power_eaten, 0, 4);
        }
        reveal(GameView::continues_to);
    }

    /// A frame keeps the counters in agreement, and unless it starts a new run it
    /// continues the run.
    pub proof fn tick_keeps_history(self, input: Input)
        requires
            self.wf(),
            self.consistent(),
            self.frame >= 0,
        ensures
            self.ticked(input).consistent(),
            self.ticked(input).best_score >= self.best_score,
            !self.restarts_on(input) ==> self.continues_to(self.ticked(input)),
    {
        self.tick_keeps_counters(input, 0);
    }

    /// Whether points given now would bring a life to a run that is lost.
    pub open spec fn revives(self, delta: int) -> bool {
        self.phase == Phase::Lost && !self.extra_life_granted && self.score + delta
            >= EXTRA_LIFE_SCORE
    }

    /// Points keep the game valid and the counters in agreement, unless they
    /// bring a life to a run that is lost.
    pub proof fn points_keep_counters(self, delta: int, given: int)
        requires
            self.wf(),
            self.consistent_with(given),
            delta >= 0,
            !self.revives(delta),
        ensures
            self.with_points(delta).wf(),
            self.with_points(delta).consistent_with(given + delta),
    {
        reveal(GameView::consistent_with);
    }

    /// A new game is consistent.
    pub proof fn new_game_is_consistent(best_score: int)
        ensures
            GameView::blank(best_score).run_started().wf(),
            GameView::blank(best_score).run_started().consistent(),
    {
        soundness::none_eaten_counts_zero();
        GameView::blank(best_score).run_start_is_valid();
        GameView::blank(best_score).run_start_history(0);
    }
}

} // verus!
