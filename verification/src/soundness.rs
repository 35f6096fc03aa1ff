//! Every event keeps a game valid, and no frame scores more than a fixed
//! number of points.

use vstd::prelude::*;

use crate::{maze, model, rules, walk};
use crate::maze::{Layout, Spot};
use crate::model::{GameView, GhostView};
use crate::rules::{GhostState, Input, Phase, MAX_LEVEL};
use crate::walk::Dir;

verus! {

/// Raising a flag that is down counts for one.
proof fn flag_raised(flags: Seq<bool>, i: int, n: int)
    requires
        0 <= i < flags.len(),
        !flags[i],
        0 <= n <= flags.len(),
    ensures
        model::flags_up(flags.update(i, true), n) == model::flags_up(flags, n) + if i < n {
            1int
        } else {
            0int
        },
    decreases n,
{
    if n > 0 {
        flag_raised(flags, i, n - 1);
    }
}

/// With a flag down not all are up.
pub proof fn flag_down(flags: Seq<bool>, i: int, n: int)
    requires
        0 <= n <= flags.len(),
    ensures
        0 <= model::flags_up(flags, n) <= n,
        0 <= i < n && !flags[i] ==> model::flags_up(flags, n) < n,
    decreases n,
{
    if n > 0 {
        flag_down(flags, i, n - 1);
    }
}

/// No flags, no count.
pub proof fn none_eaten_counts_zero()
    ensures
        model::flags_up(model::none_eaten(), 4) == 0,
{
    reveal_with_fuel(model::flags_up, 5);
}

/// Every way out of a cell is walkable and follows one of the directions.
pub proof fn exits_lead_on(l: Layout, pos: Spot, n: int, i: int)
    requires
        0 <= n <= 4,
        0 <= i < model::exits(l, pos, n).len(),
    ensures
        l.walkable(model::exits(l, pos, n)[i].0),
        model::exits(l, pos, n)[i].0 == l.step(pos, model::exits(l, pos, n)[i].1),
        model::exits(l, pos, n)[i].1.rank() < n,
    decreases n,
{
    if n > 0 {
        walk::ranks_follow_dirs(n - 1);
        let before = model::exits(l, pos, n - 1);
        if i < before.len() {
            exits_lead_on(l, pos, n - 1, i);
        }
    }
}

/// What is left when turning back is left out was there before, and does not
/// turn back.
pub proof fn avoiding_keeps(ways: Seq<(Spot, Dir)>, back: Dir, n: int, i: int)
    requires
        0 <= n <= ways.len(),
        0 <= i < model::avoiding(ways, back, n).len(),
    ensures
        model::avoiding(ways, back, n)[i].1 != back,
        exists|j: int| 0 <= j < n && #[trigger] ways[j] == model::avoiding(ways, back, n)[i],
    decreases n,
{
    if n > 0 {
        let before = model::avoiding(ways, back, n - 1);
        if i < before.len() {
            avoiding_keeps(ways, back, n - 1, i);
            let j = choose|j: int| 0 <= j < n - 1 && #[trigger] ways[j] == before[i];
            assert(ways[j] == model::avoiding(ways, back, n)[i]);
        } else {
            assert(ways[n - 1] == model::avoiding(ways, back, n)[i]);
        }
    }
}

/// The ways a ghost considers are walkable neighbours of its cell.
pub proof fn considered_lead_on(l: Layout, pos: Spot, dir: Dir, i: int)
    requires
        0 <= i < model::considered(l, pos, dir).len(),
    ensures
        l.walkable(model::considered(l, pos, dir)[i].0),
        model::considered(l, pos, dir)[i].0 == l.step(pos, model::considered(l, pos, dir)[i].1),
{
    reveal(model::considered);
    let ways = model::exits(l, pos, 4);
    let onward = model::avoiding(ways, dir.reversed(), ways.len() as int);
    if ways.len() > 1 && onward.len() > 0 {
        avoiding_keeps(ways, dir.reversed(), ways.len() as int, i);
        let j = choose|j: int| 0 <= j < ways.len() && #[trigger] ways[j] == onward[i];
        exits_lead_on(l, pos, 4, j);
    } else {
        exits_lead_on(l, pos, 4, i);
    }
}

/// A list that is not empty has a first least value, and only one.
pub proof fn first_least_exists(values: Seq<int>)
    requires
        values.len() > 0,
    ensures
        model::is_first_least(values, model::first_least(values)),
    decreases values.len(),
{
    let front = values.drop_last();
    let last = values.len() - 1;
    if front.len() == 0 {
        assert(model::is_first_least(values, 0));
    } else {
        first_least_exists(front);
        let i = model::first_least(front);
        assert(front[i] == values[i]);
        if values[last] < values[i] {
            assert forall|j: int| 0 <= j < values.len() implies values[last]
                <= #[trigger] values[j] by {
                if j < last {
                    assert(front[j] == values[j]);
                }
            }
            assert forall|j: int| 0 <= j < last implies values[last] < #[trigger] values[j] by {
                assert(front[j] == values[j]);
            }
            assert(model::is_first_least(values, last));
        } else {
            assert forall|j: int| 0 <= j < values.len() implies values[i] <= #[trigger] values[j] by {
                if j < last {
                    assert(front[j] == values[j]);
                }
            }
            assert forall|j: int| 0 <= j < i implies values[i] < #[trigger] values[j] by {
                assert(front[j] == values[j]);
            }
            assert(model::is_first_least(values, i));
        }
    }
}

/// There is only one first least place.
pub proof fn first_least_is(values: Seq<int>, i: int)
    requires
        model::is_first_least(values, i),
    ensures
        model::first_least(values) == i,
{
    let k = model::first_least(values);
    assert(model::is_first_least(values, k));
    assert(values[i] <= values[k] && values[k] <= values[i]);
}

impl GameView {
    /// Points that the ghosts of the power cycle in effect still stand for.
    pub open spec fn reserve(self) -> int {
        if !self.powered() {
            0
        } else if self.power_chain <= 0 {
            3000
        } else if self.power_chain == 1 {
            2800
        } else if self.power_chain == 2 {
            2400
        } else if self.power_chain == 3 {
            1600
        } else {
            0
        }
    }

    /// Ghosts stay valid as long as they keep their names and homes and stand on
    /// walkable cells.
    pub proof fn ghosts_stay_valid(self, next: GameView)
        requires
            self.ghosts_valid(),
            next.ghosts.len() == 4,
            forall|i: int|
                0 <= i < 4 ==> (#[trigger] next.ghosts[i]).id == self.ghosts[i].id
                    && next.ghosts[i].home == self.ghosts[i].home && next.maze.layout.walkable(
                    next.ghosts[i].pos,
                ),
        ensures
            next.ghosts_valid(),
    {
        assert forall|i: int| 0 <= i < 4 implies (#[trigger] next.ghosts[i]).id.place() == i
            && next.ghosts[i].home == model::home_of(next.ghosts[i].id) by {
            assert(self.ghosts[i].id.place() == i);
        }
    }

    /// On the template's board the player starts at row 9, column 18, the
    /// ghosts at row 10, column 12, and fruit at row 10, column 14.
    pub proof fn native_places(self)
        requires
            self.on_native_board(),
        ensures
            self.placed().player_start == (9int, 18int),
            self.placed().ghost_spawn == (10int, 12int),
            self.placed().fruit.pos == (10int, 14int),
    {
        maze::native_layout_is_valid();
        walk::open_is_nearest_to_itself(maze::native_layout(), (9, 18));
        walk::open_is_nearest_to_itself(maze::native_layout(), (10, 12));
        walk::open_is_nearest_to_itself(maze::native_layout(), (10, 14));
    }

    /// What a new level keeps and sets.
    pub proof fn level_start_is_sound(self, level: int)
        requires
            1 <= level <= MAX_LEVEL,
            self.lives <= 3 + if self.extra_life_granted {
                1int
            } else {
                0int
            },
            self.power_eaten.len() == 4,
            self.power_chain == model::flags_up(self.power_eaten, 4),
        ensures
            ({
                let next = self.level_started(level);
                &&& next.sound()
                &&& next.remaining_pellets == 191
                &&& next.total_pellets == 191
                &&& next.level == level
                &&& next.phase == self.phase
                &&& next.lives == self.lives
                &&& next.score == self.score
                &&& next.frame == self.frame
                &&& next.reserve() == self.reserve()
                &&& next.player.pos == (9int, 18int)
                &&& next.ghosts == model::housed_ghosts((10, 12), self.frame)
            }),
    {
        maze::native_layout_is_valid();
        maze::native_maze_holds_191_pellets();
        let fresh = GameView {
            level,
            level_start_frame: self.frame,
            maze: maze::native_maze(),
            ..self
        };
        fresh.native_places();
    }

    pub proof fn run_start_is_valid(self)
        requires
            self.power_eaten.len() == 4,
            self.power_chain == model::flags_up(self.power_eaten, 4),
        ensures
            self.run_started().wf(),
            self.run_started().phase == Phase::Playing,
            self.run_started().score == 0,
            self.run_started().lives == 3,
            self.run_started().level == 1,
            self.run_started().frame == self.frame,
            self.run_started().confirm_restart == false,
    {
        reveal(GameView::run_started);
        let m = GameView {
            score: 0,
            lives: 3,
            extra_life_granted: false,
            phase: Phase::Playing,
            run_start_frame: self.frame,
            end_frame: None,
            stats_committed: false,
            confirm_restart: false,
            collected_fruits: Seq::empty(),
            ..self
        };
        m.level_start_is_sound(1);
    }

    pub proof fn power_check_is_sound(self)
        requires
            self.sound(),
        ensures
            self.power_checked().sound(),
            self.with_power_over().sound(),
    {
        none_eaten_counts_zero();
        let next = self.with_power_over();
        self.ghosts_stay_valid(next);
    }

    pub proof fn pellet_eating_is_sound(self)
        requires
            self.sound(),
            self.remaining_pellets >= 1,
        ensures
            ({
                let next = self.pellet_eaten();
                &&& next.sound()
                &&& next.score <= self.score + 50
                &&& next.score + next.reserve() <= self.score + 50 + 3000
                &&& next.phase == self.phase
                &&& next.frame == self.frame
                &&& next.level == self.level
                &&& self.remaining_pellets - 1 <= next.remaining_pellets <= self.remaining_pellets
                &&& self.lives <= next.lives
            }),
    {
        none_eaten_counts_zero();
        flag_down(self.power_eaten, 0, 4);
        let p = self.player.pos;
        let next = self.pellet_eaten();
        assert(maze::is_grid(next.maze.pellets, next.maze.layout.rows, next.maze.layout.cols)) by {
            assert forall|i: int| 0 <= i < next.maze.layout.rows implies (
            #[trigger] next.maze.pellets[i]).len() == next.maze.layout.cols by {
                assert(self.maze.pellets[i].len() == self.maze.layout.cols);
                assert(self.maze.pellets[p.0].len() == self.maze.layout.cols);
            }
        }
        self.ghosts_stay_valid(next);
    }

    pub proof fn consuming_is_valid(self)
        requires
            self.sound(),
            self.phase == Phase::Playing,
            self.lives >= 1,
            self.remaining_pellets >= 1,
        ensures
            ({
                let next = self.cell_consumed();
                &&& next.wf()
                &&& next.score <= self.score + 5050
                &&& next.score + next.reserve() <= self.score + 8050
                &&& next.frame == self.frame
            }),
    {
        reveal(GameView::cell_consumed);
        self.pellet_eating_is_sound();
        let fed = self.pellet_eaten();
        let treated = fed.fruit_eaten();
        assert(treated.sound());
        assert(treated.score <= fed.score + 5000);
        assert(treated.reserve() == fed.reserve());
        if treated.remaining_pellets == 0 && treated.level < MAX_LEVEL {
            treated.level_start_is_sound(treated.level + 1);
        }
    }

    pub proof fn player_step_is_valid(self)
        requires
            self.wf(),
            self.phase == Phase::Playing,
        ensures
            ({
                let next = self.player_stepped();
                &&& next.wf()
                &&& next.score <= self.score + 5050
                &&& next.score + next.reserve() <= self.score + 8050
                &&& next.frame == self.frame
            }),
    {
        flag_down(self.power_eaten, 0, 4);
        if self.frame >= self.player.next_step_at {
            let dir = if self.player_can_go(self.player.next_dir) {
                self.player.next_dir
            } else {
                self.player.dir
            };
            let turned = GameView {
                player: model::PlayerView { dir, next_step_at: self.frame + 12, ..self.player },
                ..self
            };
            if turned.player_can_go(dir) {
                let moved = GameView {
                    player: model::PlayerView {
                        pos: self.maze.layout.step(self.player.pos, dir),
                        ..turned.player
                    },
                    ..turned
                };
                assert(moved.sound());
                moved.consuming_is_valid();
            }
        }
    }

    pub proof fn eating_ghost_is_valid(self, i: int)
        requires
            self.wf(),
            self.powered(),
            0 <= i < 4,
        ensures
            ({
                let next = self.ghost_eaten(i);
                &&& next.wf()
                &&& next.score + next.reserve() <= self.score + self.reserve()
                &&& self.score <= next.score <= self.score + 1600
                &&& next.frame == self.frame
                &&& next.phase == self.phase
            }),
    {
        let g = self.ghosts[i];
        if g.state == GhostState::Frightened && !self.power_eaten[g.id.place()] {
            flag_raised(self.power_eaten, g.id.place(), 4);
            flag_down(self.power_eaten, g.id.place(), 4);
            let next = self.ghost_eaten(i);
            self.ghosts_stay_valid(next);
        }
    }

    pub proof fn losing_life_is_valid(self)
        requires
            self.wf(),
            self.phase == Phase::Playing,
            self.frame >= 0,
        ensures
            ({
                let next = self.life_lost();
                &&& next.wf()
                &&& next.score == self.score
                &&& next.reserve() <= self.reserve()
                &&& next.frame == self.frame
            }),
    {
        none_eaten_counts_zero();
        flag_down(self.power_eaten, 0, 4);
        let next = self.life_lost();
        if self.lives > 1 {
            self.ghosts_stay_valid(next);
        }
    }

    pub proof fn meeting_is_valid(self, i: int)
        requires
            self.wf(),
            0 <= i < 4,
            self.frame >= 0,
        ensures
            ({
                let next = self.met(i);
                &&& next.wf()
                &&& next.score + next.reserve() <= self.score + self.reserve()
                &&& self.score <= next.score
                &&& next.frame == self.frame
            }),
    {
        reveal(GameView::met);
        if self.powered() {
            self.eating_ghost_is_valid(i);
        }
        if self.phase == Phase::Playing {
            self.losing_life_is_valid();
        }
    }

    pub proof fn meetings_are_valid(self, i: int)
        requires
            self.wf(),
            0 <= i,
            self.frame >= 0,
        ensures
            ({
                let next = self.met_from(i);
                &&& next.wf()
                &&& next.score + next.reserve() <= self.score + self.reserve()
                &&& self.score <= next.score
                &&& next.frame == self.frame
            }),
        decreases 4 - i,
    {
        if i < 4 {
            self.meeting_is_valid(i);
            self.met(i).meetings_are_valid(i + 1);
        }
    }

    pub proof fn ghost_move_is_valid(self, i: int)
        requires
            self.wf(),
            0 <= i < 4,
        ensures
            ({
                let next = self.ghost_moved(i);
                &&& next.wf()
                &&& next.score == self.score
                &&& next.reserve() == self.reserve()
                &&& next.frame == self.frame
                &&& next.phase == self.phase
            }),
    {
        reveal(GameView::ghost_stepped);
        reveal(GameView::ghost_moved);
        let g = self.ghosts[i];
        let l = self.maze.layout;
        let ways = model::considered(l, g.pos, g.dir);
        if ways.len() > 0 {
            let x = rules::xorshift(self.rng);
            considered_lead_on(l, g.pos, g.dir, x as int % ways.len() as int);
            let timed = self.with_ghost(
                i,
                GhostView { next_step_at: self.frame + self.step_interval(g), ..g },
            );
            let far = model::ways_to(l, ways, timed.target_of(timed.ghosts[i]));
            first_least_exists(far);
            considered_lead_on(l, g.pos, g.dir, model::first_least(far));
        }
        let next = self.ghost_moved(i);
        self.ghosts_stay_valid(next);
    }

    pub proof fn moods_are_valid(self)
        requires
            self.wf(),
        ensures
            ({
                let next = self.moods_updated();
                &&& next.wf()
                &&& next.score == self.score
                &&& next.reserve() == self.reserve()
                &&& next.frame == self.frame
                &&& next.phase == self.phase
            }),
    {
        let next = self.moods_updated();
        self.ghosts_stay_valid(next);
    }

    pub proof fn moves_are_valid(self, i: int)
        requires
            self.wf(),
            0 <= i,
            self.frame >= 0,
        ensures
            ({
                let next = self.moved_from(i);
                &&& next.wf()
                &&& next.score + next.reserve() <= self.score + self.reserve()
                &&& self.score <= next.score
                &&& next.frame == self.frame
            }),
        decreases 4 - i,
    {
        if i < 4 {
            self.ghost_move_is_valid(i);
            self.ghost_moved(i).meeting_is_valid(i);
            self.ghost_moved(i).met(i).moves_are_valid(i + 1);
        }
    }

    pub proof fn player_update_is_valid(self)
        requires
            self.wf(),
            self.frame >= 0,
        ensures
            ({
                let next = self.player_updated();
                &&& next.wf()
                &&& next.score + next.reserve() <= self.score + 8050
                &&& next.frame == self.frame
            }),
    {
        reveal(GameView::player_updated);
        flag_down(self.power_eaten, 0, 4);
        if self.phase == Phase::Playing && self.countdown_left() <= 0 {
            self.player_step_is_valid();
            self.player_stepped().meetings_are_valid(0);
        }
    }

    pub proof fn ghosts_update_is_valid(self)
        requires
            self.wf(),
            self.frame >= 0,
        ensures
            ({
                let next = self.ghosts_updated();
                &&& next.wf()
                &&& next.score + next.reserve() <= self.score + self.reserve()
                &&& self.score <= next.score
                &&& next.frame == self.frame
            }),
    {
        reveal(GameView::ghosts_updated);
        self.moods_are_valid();
        self.moods_updated().moves_are_valid(0);
    }

    /// A frame that only waits scores nothing and leaves the run where it is.
    pub proof fn waiting_frames(self, input: Input)
        ensures
            !self.stirs_on(input) ==> self.ticked(input).score == self.score
                && !self.input_taken(input).under_way(),
            self.input_taken(input).under_way() ==> self.stirs_on(input),
    {
        reveal(GameView::input_taken);
        reveal(GameView::played);
    }

    /// Inputs that mean nothing: every key but the two that restart while the run
    /// is over, and an answer while nothing was asked.
    pub proof fn idle_inputs(self, input: Input)
        ensures
            self.phase != Phase::Playing && self.info_until is None && input != Input::Restart
                && input != Input::Yes ==> self.ticked(input) == (GameView {
                frame: self.frame + 1,
                ..self
            }),
            self.phase == Phase::Playing && !self.confirm_restart && (input == Input::Yes || input
                == Input::No) ==> self.ticked(input) == self.ticked(Input::Idle),
    {
        reveal(GameView::input_taken);
        reveal(GameView::played);
    }

    pub proof fn input_is_valid(self, input: Input)
        requires
            self.wf(),
        ensures
            self.input_taken(input).info_checked().wf(),
            self.input_taken(input).info_checked().frame == self.frame,
            self.input_taken(input).info_checked().score == self.score || self.input_taken(
                input,
            ).info_checked().score == 0,
    {
        reveal(GameView::input_taken);
        self.run_start_is_valid();
    }

    pub proof fn play_is_valid(self)
        requires
            self.wf(),
            self.frame >= 0,
        ensures
            self.played().wf(),
            self.played().frame == self.frame,
            self.played().score <= self.score + 8050,
    {
        reveal(GameView::played);
        self.power_check_is_sound();
        let ready = self.power_checked().fruit_checked();
        ready.player_update_is_valid();
        let m = ready.player_updated();
        flag_down(m.power_eaten, 0, 4);
        m.ghosts_update_is_valid();
    }

    /// A frame keeps the game valid, takes one step of time, and scores at most
    /// 8050 points: a power pellet, the key, and the four ghosts of one power
    /// cycle.
    pub proof fn tick_is_valid(self, input: Input)
        requires
            self.wf(),
            self.frame >= 0,
            self.score >= 0,
        ensures
            self.ticked(input).wf(),
            self.ticked(input).frame == self.frame + 1,
            self.ticked(input).score <= self.score + 8050,
    {
        self.input_is_valid(input);
        let ready = self.input_taken(input).info_checked();
        ready.play_is_valid();
        let played = ready.played();
        assert(GameView { frame: played.frame + 1, ..played }.wf());
    }
}

} // verus!
