//! What is eaten and what that brings: pellets, power, fruit, points, levels and
//! the end of a run.

use vstd::prelude::*;

use crate::{conduct, laws, maze, model, rules, soundness, walk};
use crate::maze::{Pellet, Spot};
use crate::model::{GameView, PlayerView};
use crate::rules::{Banner, BannerColor, GhostState, Input, Phase};
use crate::walk::{Dir, Passage};

verus! {

/// What a pellet is worth.
pub open spec fn pellet_worth(pellet: Pellet) -> int {
    match pellet {
        Pellet::Dot => 10,
        Pellet::Power => 50,
        Pellet::Empty => 0,
    }
}

/// What the first `n` ghosts of a power cycle bring together.
pub open spec fn cycle_worth(n: int) -> int {
    if n <= 0 {
        0
    } else if n == 1 {
        200
    } else if n == 2 {
        600
    } else if n == 3 {
        1400
    } else {
        3000
    }
}

/// The fruit of each level, from the first to the last: its symbol and its
/// points.
pub open spec fn menu() -> Seq<(char, int)> {
    seq![
        ('%', 100int),
        ('U', 300int),
        ('O', 500int),
        ('O', 500int),
        ('Q', 700int),
        ('Q', 700int),
        ('§', 1000int),
        ('§', 1000int),
        ('W', 2000int),
        ('W', 2000int),
        ('?', 3000int),
        ('?', 3000int),
        ('!', 5000int),
        ('!', 5000int),
        ('!', 5000int),
        ('!', 5000int),
        ('!', 5000int),
        ('!', 5000int),
        ('!', 5000int),
        ('!', 5000int),
    ]
}

/// Every level has its fruit, and no later one is worth less.
pub proof fn fruit_follows_the_menu(level: int, later: int)
    requires
        1 <= level <= later <= 20,
    ensures
        rules::fruit_of(level) == menu()[level - 1],
        rules::fruit_of(level).1 <= rules::fruit_of(later).1,
{
}

/// Power lasts six seconds on level 1, five on level 2, four up to level 10, three
/// up to level 16, and two from then on; it never lasts longer on a later level.
pub proof fn power_wears_off_sooner(level: int, later: int)
    requires
        1 <= level <= later,
    ensures
        level == 1 ==> rules::power_seconds(level) == 6,
        level == 2 ==> rules::power_seconds(level) == 5,
        3 <= level <= 10 ==> rules::power_seconds(level) == 4,
        11 <= level <= 16 ==> rules::power_seconds(level) == 3,
        17 <= level ==> rules::power_seconds(level) == 2,
        rules::power_seconds(later) <= rules::power_seconds(level),
{
}

impl GameView {
    /// The pellet on a cell.
    pub open spec fn pellet_at(self, p: Spot) -> Pellet {
        self.maze.pellets[p.0][p.1]
    }

    /// Whether the player lies in reach of an active fruit: on its cell.
    pub open spec fn at_fruit(self) -> bool {
        self.fruit.active && self.fruit.pos == self.player.pos
    }

    // ---- entering a cell -------------------------------------------------

    /// Entering a cell eats what lies there and nothing else: the pellet's and
    /// the fruit's points are added, only that pellet is gone, and the fruit is
    /// listed and no longer there.
    pub proof fn entering_a_cell_eats_what_lies_there(self, p: Spot)
        requires
            self.sound(),
            self.phase == Phase::Playing,
            self.remaining_pellets >= 2 || self.pellet_at(self.player.pos) == Pellet::Empty
                && self.remaining_pellets >= 1,
            0 <= p.0 < 21,
            0 <= p.1 < 26,
        ensures
            ({
                let next = self.cell_consumed();
                let pellet = self.pellet_at(self.player.pos);
                &&& next.score == self.score + pellet_worth(pellet) + if self.at_fruit() {
                    menu()[self.level - 1].1
                } else {
                    0
                }
                &&& next.remaining_pellets == self.remaining_pellets - if pellet == Pellet::Empty {
                    0int
                } else {
                    1
                }
                &&& next.pellet_at(p) == if p == self.player.pos {
                    Pellet::Empty
                } else {
                    self.pellet_at(p)
                }
                &&& next.maze.layout == self.maze.layout
                &&& next.collected_fruits == if self.at_fruit() {
                    self.collected_fruits.push(menu()[self.level - 1].0)
                } else {
                    self.collected_fruits
                }
                &&& next.fruit.active == (self.fruit.active && !self.at_fruit())
                &&& next.fruit.spawned == self.fruit.spawned
                &&& next.fruit.pos == self.fruit.pos
                &&& next.player == self.player
                &&& next.level == self.level
                &&& next.phase == Phase::Playing
                &&& next.spare() == self.spare()
            }),
    {
        reveal(GameView::cell_consumed);
        fruit_follows_the_menu(self.level, self.level);
        assert(self.maze.pellets[self.player.pos.0].len() == self.maze.layout.cols);
        assert(self.maze.pellets[p.0].len() == self.maze.layout.cols);
    }

    /// A power pellet starts a power cycle: every ghost that is out and not just
    /// eyes is frightened, none counts as eaten, and the banner says so for three
    /// seconds. Any other cell leaves the power as it is.
    pub proof fn power_pellets_bring_power(self, i: int)
        requires
            self.sound(),
            self.phase == Phase::Playing,
            self.remaining_pellets >= 2 || self.pellet_at(self.player.pos) == Pellet::Empty
                && self.remaining_pellets >= 1,
            0 <= i < 4,
        ensures
            ({
                let next = self.cell_consumed();
                let power = self.pellet_at(self.player.pos) == Pellet::Power;
                let out = self.ghosts[i].state == GhostState::Normal || self.ghosts[i].state
                    == GhostState::Frightened;
                &&& power ==> next.power_until == self.frame + 60 * rules::power_seconds(
                    self.level,
                ) && next.power_chain == 0 && !next.power_eaten[i]
                &&& !power ==> next.power_until == self.power_until && next.power_chain
                    == self.power_chain && next.power_eaten == self.power_eaten
                &&& next.ghosts[i].state == if power && out {
                    GhostState::Frightened
                } else {
                    self.ghosts[i].state
                }
                &&& next.ghosts[i].pos == self.ghosts[i].pos
                &&& next.ghosts[i].next_step_at == self.ghosts[i].next_step_at
                &&& power && !self.at_fruit() ==> next.info == Banner::Power && next.info_color
                    == BannerColor::Cyan && next.info_until == Some(self.frame + 180)
                &&& self.at_fruit() ==> next.info == Banner::Fruit && next.info_color
                    == BannerColor::Magenta && next.info_until == Some(self.frame + 180)
                &&& !power && !self.at_fruit() ==> next.info == self.info && next.info_color
                    == self.info_color && next.info_until == self.info_until
            }),
    {
        reveal(GameView::cell_consumed);
    }

    /// The last pellet ends the level: the next one starts in order and is
    /// announced for three seconds; after level 20 the run is won.
    pub proof fn the_last_pellet_ends_the_level(self)
        requires
            self.sound(),
            self.phase == Phase::Playing,
            self.lives >= 1,
            !self.stats_committed,
            self.remaining_pellets == 1,
            self.pellet_at(self.player.pos) != Pellet::Empty,
        ensures
            ({
                let next = self.cell_consumed();
                &&& next.score == self.score + pellet_worth(self.pellet_at(self.player.pos))
                    + if self.at_fruit() {
                    menu()[self.level - 1].1
                } else {
                    0
                }
                &&& next.spare() == self.spare()
                &&& self.level < 20 ==> {
                    &&& next.level == self.level + 1
                    &&& next.phase == Phase::Playing
                    &&& next.remaining_pellets == 191
                    &&& next.maze == maze::native_maze()
                    &&& next.player.pos == (9int, 18int)
                    &&& next.countdown_until == self.frame + 180
                    &&& next.info == Banner::LevelClear((self.level + 1) as u8)
                    &&& next.info_color == BannerColor::Green
                    &&& next.info_until == Some(self.frame + 180)
                }
                &&& self.level == 20 ==> {
                    &&& next.level == 20
                    &&& next.phase == Phase::Won
                    &&& next.end_frame == Some(self.frame)
                    &&& next.stats_committed
                    &&& next.best_score >= next.score
                    &&& next.best_score == next.score || next.best_score == self.best_score
                    &&& next.info == Banner::Won
                    &&& next.info_color == BannerColor::Green
                    &&& next.info_until is None
                }
            }),
    {
        reveal(GameView::cell_consumed);
        fruit_follows_the_menu(self.level, self.level);
        let fed = self.pellet_eaten().fruit_eaten();
        self.pellet_eating_is_sound();
        if self.level < 20 {
            fed.level_start_is_sound(self.level + 1);
            fed.a_level_starts_in_order(self.level + 1);
        }
    }

    /// Points add up; the life that comes with 100000 of them comes once.
    pub proof fn points_add_up(self, delta: int, more: int)
        requires
            delta >= 0,
            more >= 0,
        ensures
            ({
                let next = self.with_points(delta);
                &&& next.score == self.score + delta
                &&& next.lives == self.lives + if !self.extra_life_granted && self.score + delta
                    >= 100_000 {
                    1int
                } else {
                    0
                }
                &&& next.extra_life_granted == (self.extra_life_granted || self.score + delta
                    >= 100_000)
                &&& next.with_points(more) == self.with_points(delta + more)
            }),
    {
    }

    /// When the time of a power cycle has come, no ghost counts as frightened or
    /// eaten any more; until then it stays as it is.
    pub proof fn power_runs_out(self, i: int)
        requires
            self.sound(),
            0 <= i < 4,
        ensures
            ({
                let next = self.power_checked();
                let over = 0 < self.power_until <= self.frame;
                &&& !over ==> next == self
                &&& over ==> next.power_until == 0 && next.power_chain == 0 && !next.power_eaten[i]
                &&& over ==> next.ghosts[i].state == if self.ghosts[i].state
                    == GhostState::Frightened {
                    GhostState::Normal
                } else {
                    self.ghosts[i].state
                }
                &&& next.ghosts[i].pos == self.ghosts[i].pos
                &&& next.score == self.score
            }),
    {
    }

    // ---- a whole frame ---------------------------------------------------

    /// Meetings bring points only for ghosts that are eaten.
    proof fn meeting_pays_the_bounty(self, i: int)
        requires
            self.wf(),
            self.frame >= 0,
            0 <= i < 4,
        ensures
            self.met(i).spare() == self.spare() ==> self.met(i).score - cycle_worth(
                self.met(i).power_chain,
            ) == self.score - cycle_worth(self.power_chain),
    {
        reveal(GameView::met);
        assert(self.ghosts[i].id.place() == i);
        soundness::flag_down(self.power_eaten, i, 4);
    }

    proof fn meetings_pay_the_bounty(self, i: int)
        requires
            self.wf(),
            self.frame >= 0,
            0 <= i <= 4,
        ensures
            self.met_from(i).spare() == self.spare() ==> self.met_from(i).score - cycle_worth(
                self.met_from(i).power_chain,
            ) == self.score - cycle_worth(self.power_chain),
        decreases 4 - i,
    {
        if i < 4 {
            let m = self.met(i);
            self.meeting_pays_the_bounty(i);
            self.meeting_is_valid(i);
            self.meeting_disturbs_by_death_only(i);
            if m.phase == Phase::Playing {
                m.meetings_pay_the_bounty(i + 1);
                m.meetings_disturb_by_death_only(i + 1);
            }
        }
    }

    proof fn moves_pay_the_bounty(self, i: int)
        requires
            self.wf(),
            self.frame >= 0,
            0 <= i <= 4,
        ensures
            self.moved_from(i).spare() == self.spare() ==> self.moved_from(i).score - cycle_worth(
                self.moved_from(i).power_chain,
            ) == self.score - cycle_worth(self.power_chain),
        decreases 4 - i,
    {
        if i < 4 {
            let moved = self.ghost_moved(i);
            let m = moved.met(i);
            self.ghost_moves_disturb_nobody(i);
            self.ghost_move_is_valid(i);
            assert(moved.score == self.score && moved.power_chain == self.power_chain) by {
                reveal(GameView::ghost_moved);
                reveal(GameView::ghost_stepped);
            }
            moved.meeting_pays_the_bounty(i);
            moved.meeting_is_valid(i);
            moved.meeting_disturbs_by_death_only(i);
            if m.phase == Phase::Playing {
                m.moves_pay_the_bounty(i + 1);
                m.moves_disturb_by_death_only(i + 1);
            }
        }
    }

    /// What the player's part of a frame does to board, power, fruit and points,
    /// while the level goes on and nobody dies.
    proof fn the_players_part(self, p: Spot)
        requires
            self.wf(),
            self.frame >= 0,
            self.phase == Phase::Playing,
            self.player_updated().spare() == self.spare(),
            self.player_updated().level == self.level,
            self.player_updated().phase == Phase::Playing,
            0 <= p.0 < 21,
            0 <= p.1 < 26,
        ensures
            ({
                let next = self.player_updated();
                let moved = next.player.pos != self.player.pos;
                let pellet = if moved {
                    self.pellet_at(next.player.pos)
                } else {
                    Pellet::Empty
                };
                let treat = moved && self.fruit.active && self.fruit.pos == next.player.pos;
                let chain = if pellet == Pellet::Power {
                    0
                } else {
                    self.power_chain
                };
                &&& next.pellet_at(p) == if moved && p == next.player.pos {
                    Pellet::Empty
                } else {
                    self.pellet_at(p)
                }
                &&& next.remaining_pellets == self.remaining_pellets - if pellet == Pellet::Empty {
                    0int
                } else {
                    1
                }
                &&& next.total_pellets == self.total_pellets
                &&& next.fruit.active == (self.fruit.active && !treat)
                &&& next.fruit.spawned == self.fruit.spawned
                &&& next.fruit.pos == self.fruit.pos
                &&& next.collected_fruits == if treat {
                    self.collected_fruits.push(menu()[self.level - 1].0)
                } else {
                    self.collected_fruits
                }
                &&& next.power_until == if pellet == Pellet::Power {
                    self.frame + 60 * rules::power_seconds(self.level)
                } else {
                    self.power_until
                }
                &&& next.score - cycle_worth(next.power_chain) == self.score - cycle_worth(chain)
                    + pellet_worth(pellet) + if treat {
                    menu()[self.level - 1].1
                } else {
                    0
                }
                &&& next.frame == self.frame
            }),
    {
        reveal(GameView::player_updated);
        maze::native_layout_is_valid();
        if self.countdown_left() <= 0 {
            self.player_step_is_valid();
            self.stepping_costs_no_life();
            let stepped = self.player_stepped();
            stepped.meetings_disturb_by_death_only(0);
            stepped.meetings_pay_the_bounty(0);
            stepped.meetings_are_valid(0);
            if self.frame >= self.player.next_step_at {
                let dir = if self.player_can_go(self.player.next_dir) {
                    self.player.next_dir
                } else {
                    self.player.dir
                };
                let turned = GameView {
                    player: PlayerView { dir, next_step_at: self.frame + 12, ..self.player },
                    ..self
                };
                if turned.player_can_go(dir) {
                    conduct::steps_lead_beside(self.player.pos, dir);
                    let there = GameView {
                        player: PlayerView {
                            pos: self.maze.layout.step(self.player.pos, dir),
                            ..turned.player
                        },
                        ..turned
                    };
                    assert(there.player.pos != self.player.pos);
                    there.the_level_goes_on();
                    there.entering_a_cell_eats_what_lies_there(p);
                    there.power_pellets_bring_power(0);
                }
            }
        }
    }

    /// A level that goes on after a cell was entered had another pellet.
    proof fn the_level_goes_on(self)
        requires
            self.sound(),
            self.phase == Phase::Playing,
            self.remaining_pellets >= 1,
            self.cell_consumed().level == self.level,
            self.cell_consumed().phase == Phase::Playing,
        ensures
            self.remaining_pellets >= 2 || self.pellet_at(self.player.pos) == Pellet::Empty,
    {
        reveal(GameView::cell_consumed);
    }

    /// A frame of play in which the level goes on and nobody dies. Only the cell
    /// that the player has entered loses its pellet. Fruit comes as soon as at
    /// most seven tenths of the pellets are left, once per level, and is eaten
    /// where the player enters its cell. Power runs out when its time has come,
    /// and starts anew with a power pellet. All points are accounted for: 10 for
    /// a dot, 50 for a power pellet, the level's fruit, and 200, 400, 800 and 1600
    /// for the ghosts of a power cycle.
    pub proof fn a_frame_of_play(self, input: Input, p: Spot)
        requires
            self.wf(),
            self.frame >= 0,
            self.under_way(),
            input != Input::Restart,
            self.ticked(input).spare() == self.spare(),
            self.ticked(input).level == self.level,
            self.ticked(input).phase == Phase::Playing,
            0 <= p.0 < 21,
            0 <= p.1 < 26,
        ensures
            ({
                let next = self.ticked(input);
                let moved = next.player.pos != self.player.pos;
                let pellet = if moved {
                    self.pellet_at(next.player.pos)
                } else {
                    Pellet::Empty
                };
                let due = !self.fruit.spawned && 10 * self.remaining_pellets <= 7
                    * self.total_pellets;
                let ripe = self.fruit.active || due;
                let treat = moved && ripe && self.fruit.pos == next.player.pos;
                let over = 0 < self.power_until <= self.frame;
                let chain = if over || pellet == Pellet::Power {
                    0
                } else {
                    self.power_chain
                };
                &&& next.pellet_at(p) == if moved && p == next.player.pos {
                    Pellet::Empty
                } else {
                    self.pellet_at(p)
                }
                &&& next.remaining_pellets == self.remaining_pellets - if pellet == Pellet::Empty {
                    0int
                } else {
                    1
                }
                &&& next.fruit.spawned == (self.fruit.spawned || due)
                &&& next.fruit.active == (ripe && !treat)
                &&& next.fruit.pos == self.fruit.pos
                &&& next.collected_fruits == if treat {
                    self.collected_fruits.push(menu()[self.level - 1].0)
                } else {
                    self.collected_fruits
                }
                &&& next.power_until == if pellet == Pellet::Power {
                    self.frame + 60 * rules::power_seconds(self.level)
                } else if over {
                    0
                } else {
                    self.power_until
                }
                &&& next.score - self.score == pellet_worth(pellet) + (if treat {
                    menu()[self.level - 1].1
                } else {
                    0
                }) + cycle_worth(next.power_chain) - cycle_worth(chain)
            }),
    {
        self.frame_splits(input);
        let taken = self.input_taken(input).info_checked();
        let ready = taken.power_checked().fruit_checked();
        let stepped = ready.player_updated();
        assert(taken.fruit == self.fruit && taken.maze == self.maze && taken.power_until
            == self.power_until && taken.power_chain == self.power_chain && taken.score
            == self.score && taken.remaining_pellets == self.remaining_pellets
            && taken.total_pellets == self.total_pellets && taken.collected_fruits
            == self.collected_fruits && taken.frame == self.frame) by {
            reveal(GameView::input_taken);
        }
        ready.the_players_part(p);
        stepped.moods_are_valid();
        let calm = stepped.moods_updated();
        calm.moves_disturb_by_death_only(0);
        calm.moves_pay_the_bounty(0);
        reveal(GameView::ghosts_updated);
    }

    // ---- banners and clocks ----------------------------------------------

    /// A banner goes when its time has come, and stays until then; one without a
    /// time stays.
    pub proof fn banners_go_on_time(self)
        ensures
            ({
                let next = self.info_checked();
                &&& self.info_until is None ==> next == self
                &&& self.info_until matches Some(until) ==> {
                    &&& self.frame < until ==> next == self
                    &&& self.frame >= until ==> next.info == Banner::Blank && next.info_until is None
                        && next.info_color == self.info_color && next.score == self.score
                        && next.player == self.player && next.ghosts == self.ghosts
                }
            }),
    {
    }

    /// What the banner shows: the question if one is open, else the countdown
    /// while one runs, else the last message.
    pub proof fn the_question_comes_first(self)
        requires
            self.countdown_until - self.frame <= 180,
        ensures
            self.confirm_restart ==> self.shown_banner() == (
                Banner::ConfirmRestart,
                BannerColor::Yellow,
            ),
            !self.confirm_restart && self.phase == Phase::Playing && self.countdown_until
                > self.frame ==> self.shown_banner() == (
                Banner::Countdown(
                    (if self.countdown_until - self.frame > 120 {
                        3int
                    } else if self.countdown_until - self.frame > 60 {
                        2
                    } else {
                        1
                    }) as u32,
                ),
                BannerColor::Yellow,
            ),
            !self.confirm_restart && (self.phase != Phase::Playing || self.countdown_until
                <= self.frame) ==> self.shown_banner() == (self.info, self.info_color),
    {
    }

    /// The seconds of power on show are the time left, rounded up to whole
    /// seconds of sixty frames.
    pub proof fn power_seconds_are_rounded_up(self)
        requires
            self.power_until - self.frame <= 60 * 0xffff_ffff,
        ensures
            self.power_until <= self.frame ==> self.power_left() == 0,
            self.power_until > self.frame ==> 60 * (self.power_left() - 1) < self.power_until
                - self.frame <= 60 * self.power_left(),
    {
    }

    /// The time on show is that since the run started, in whole seconds of sixty
    /// frames, and stops when the run ends.
    pub proof fn elapsed_time_is_rounded_down(self)
        requires
            self.run_start_frame <= self.frame,
            self.end_frame matches Some(end) ==> self.run_start_frame <= end,
        ensures
            ({
                let passed = (match self.end_frame {
                    Some(end) => end,
                    None => self.frame,
                }) - self.run_start_frame;
                60 * self.elapsed() <= passed < 60 * (self.elapsed() + 1)
            }),
    {
    }

    /// The mode on show is fright while power is in effect, else that of the
    /// schedule after the whole seconds since the level started.
    pub proof fn the_mode_on_show(self)
        ensures
            self.power_until > self.frame ==> self.shown_mode() == rules::Mode::Frightened,
            self.power_until <= self.frame ==> self.shown_mode() == self.chase_mode(),
            self.chase_mode() == rules::mode_at(
                rules::schedule(self.level),
                (self.frame - self.level_start_frame) / 60,
            ),
    {
    }

    /// A new run takes over the best score, the clock, the power in effect, the
    /// player's heading and timer, and the random state; it counts its time from
    /// now, and its level starts in order.
    pub proof fn what_a_new_run_takes_over(self)
        ensures
            ({
                let next = self.run_started();
                &&& next.best_score == self.best_score
                &&& next.frame == self.frame
                &&& next.run_start_frame == self.frame
                &&& next.level_start_frame == self.frame
                &&& next.end_frame is None
                &&& next.power_until == self.power_until
                &&& next.power_chain == self.power_chain
                &&& next.power_eaten == self.power_eaten
                &&& next.player.dir == self.player.dir
                &&& next.player.next_dir == self.player.next_dir
                &&& next.player.next_step_at == self.player.next_step_at
                &&& next.rng == self.rng
                &&& next.player.pos == (9int, 18int)
                &&& next.ghosts == model::housed_ghosts((10, 12), self.frame)
                &&& next.maze == maze::native_maze()
                &&& next.remaining_pellets == 191
                &&& next.countdown_until == self.frame + 180
                &&& next.global_pause_until >= self.frame + 180
                &&& next.global_pause_until == self.global_pause_until || next.global_pause_until
                    == self.frame + 180
                &&& next.info == Banner::Ready
                &&& next.info_color == BannerColor::Yellow
                &&& next.info_until == Some(self.frame + 180)
            }),
    {
        reveal(GameView::run_started);
        let blank = GameView {
            score: 0,
            lives: 3,
            extra_life_granted: false,
            phase: Phase::Playing,
            run_start_frame: self.frame,
            end_frame: None,
            stats_committed: false,
            confirm_restart: false,
            collected_fruits: Seq::empty(),
            ..self
        };
        blank.a_level_starts_in_order(1);
    }
}

impl GameView {
    /// A new game starts at frame 0 with the player heading left, ready to step, no
    /// power in effect, and always with the same random state: given the same
    /// inputs, two games with the same best score are the same.
    pub proof fn a_new_game(best_score: int)
        ensures
            ({
                let game = GameView::blank(best_score).run_started();
                &&& game.frame == 0
                &&& game.best_score == best_score
                &&& game.player.dir.offset() == (0int, -1int)
                &&& game.player.next_dir.offset() == (0int, -1int)
                &&& game.player.next_step_at == 0
                &&& game.power_until == 0
                &&& game.power_chain == 0
                &&& game.power_eaten == seq![false, false, false, false]
                &&& game.rng == 0x9E37_79B9_7F4A_7C15
                &&& game.global_pause_until == 180
            }),
    {
        GameView::blank(best_score).what_a_new_run_takes_over();
    }

    // ---- where fruit may lie ---------------------------------------------

    /// Whether fruit may be laid on a cell: a free cell of the pellet track whose
    /// pellet is gone, which the player can reach, which does not lie in the ghost
    /// house, and which is neither's starting cell.
    pub open spec fn may_hold_fruit(self, p: Spot) -> bool {
        let l = self.maze.layout;
        let ch = l.base[p.0][p.1];
        &&& 0 <= p.0 < l.rows && 0 <= p.1 < l.cols
        &&& ch == '·' || ch == '*'
        &&& self.pellet_at(p) == Pellet::Empty
        &&& p != self.player_start && p != self.ghost_spawn
        &&& exists|way: Seq<Dir>|
            walk::leads(l, Passage::OpenToPlayer, self.player_start, p, way)
        &&& forall|way: Seq<Dir>|
            !walk::leads(l, Passage::OpenToPlayer, self.ghost_spawn, p, way)
    }

    /// Fruit is laid on a cell that may hold it, drawn among all of these in reading
    /// order by the next random number; where there is none, it stays where it was
    /// and no number is drawn.
    pub proof fn fruit_is_laid_on_the_empty_track(self)
        requires
            self.maze.wf(),
            self.maze.layout.open_to_player(self.player_start),
            self.maze.layout.walkable(self.ghost_spawn),
        ensures
            ({
                let next = self.with_fruit_drawn();
                let cells = self.fruit_spots(self.maze.layout.rows);
                &&& forall|p: Spot| #[trigger] self.may_hold_fruit(p) <==> cells.contains(p)
                &&& forall|i: int, j: int|
                    0 <= i < j < cells.len() ==> (#[trigger] cells[i]).0 < (#[trigger] cells[j]).0
                        || cells[i].0 == cells[j].0 && cells[i].1 < cells[j].1
                &&& cells.len() == 0 ==> next == self
                &&& cells.len() > 0 ==> next.rng == rules::xorshift(self.rng) && next.fruit.pos
                    == cells[next.rng as int % cells.len() as int] && next.fruit.active
                    == self.fruit.active && next.fruit.spawned == self.fruit.spawned
            }),
    {
        let cells = self.fruit_spots(self.maze.layout.rows);
        assert forall|p: Spot| #[trigger] self.may_hold_fruit(p) <==> cells.contains(p) by {
            self.fruit_spots_are_listed(self.maze.layout.rows, p);
            self.fruit_spots_may_hold_fruit(p);
        }
        assert forall|i: int, j: int| 0 <= i < j < cells.len() implies (#[trigger] cells[i]).0 < (
        #[trigger] cells[j]).0 || cells[i].0 == cells[j].0 && cells[i].1 < cells[j].1 by {
            self.fruit_spots_in_order(self.maze.layout.rows, i, j);
        }
    }

    proof fn fruit_spots_may_hold_fruit(self, p: Spot)
        requires
            self.maze.wf(),
            self.maze.layout.open_to_player(self.player_start),
            self.maze.layout.walkable(self.ghost_spawn),
        ensures
            self.fruit_spot(p) <==> self.may_hold_fruit(p),
    {
        let l = self.maze.layout;
        laws::walls_are_box_characters(l.at(p));
        if self.may_hold_fruit(p) {
            let way = choose|way: Seq<Dir>|
                walk::leads(l, Passage::OpenToPlayer, self.player_start, p, way);
            assert(walk::reaches(l, Passage::OpenToPlayer, self.player_start, p));
            if walk::reaches(l, Passage::OpenToPlayer, self.ghost_spawn, p) {
                let other = choose|way: Seq<Dir>|
                    walk::leads(l, Passage::OpenToPlayer, self.ghost_spawn, p, way);
                assert(!walk::leads(l, Passage::OpenToPlayer, self.ghost_spawn, p, other));
            }
        }
    }

    proof fn fruit_spots_in_row_are_listed(self, r: int, n: int, p: Spot)
        requires
            n >= 0,
        ensures
            self.fruit_spots_in_row(r, n).contains(p) <==> p.0 == r && 0 <= p.1 < n
                && self.fruit_spot(p),
        decreases n,
    {
        if n > 0 {
            self.fruit_spots_in_row_are_listed(r, n - 1, p);
            let before = self.fruit_spots_in_row(r, n - 1);
            let list = self.fruit_spots_in_row(r, n);
            if self.fruit_spot((r, n - 1)) {
                assert(list[before.len() as int] == (r, n - 1));
                if before.contains(p) {
                    let i = choose|i: int| 0 <= i < before.len() && before[i] == p;
                    assert(list[i] == p);
                }
                if list.contains(p) && p != (r, n - 1) {
                    let i = choose|i: int| 0 <= i < list.len() && list[i] == p;
                    assert(before[i] == p);
                }
            }
        }
    }

    proof fn fruit_spots_are_listed(self, n: int, p: Spot)
        requires
            n >= 0,
            self.maze.layout.cols >= 0,
        ensures
            self.fruit_spots(n).contains(p) <==> 0 <= p.0 < n && self.fruit_spot(p),
        decreases n,
    {
        if n > 0 {
            let cols = self.maze.layout.cols;
            self.fruit_spots_are_listed(n - 1, p);
            self.fruit_spots_in_row_are_listed(n - 1, cols, p);
            let above = self.fruit_spots(n - 1);
            let row = self.fruit_spots_in_row(n - 1, cols);
            let list = self.fruit_spots(n);
            if above.contains(p) {
                let i = choose|i: int| 0 <= i < above.len() && above[i] == p;
                assert(list[i] == p);
            }
            if row.contains(p) {
                let i = choose|i: int| 0 <= i < row.len() && row[i] == p;
                assert(list[above.len() + i] == p);
            }
            if list.contains(p) {
                let i = choose|i: int| 0 <= i < list.len() && list[i] == p;
                if i < above.len() {
                    assert(above[i] == p);
                } else {
                    assert(row[i - above.len()] == p);
                }
            }
        }
    }

    proof fn fruit_spots_in_row_in_order(self, r: int, n: int, i: int, j: int)
        requires
            0 <= i < j < self.fruit_spots_in_row(r, n).len(),
        ensures
            self.fruit_spots_in_row(r, n)[i].1 < self.fruit_spots_in_row(r, n)[j].1,
        decreases n,
    {
        if n > 0 {
            let before = self.fruit_spots_in_row(r, n - 1);
            if j < before.len() {
                self.fruit_spots_in_row_in_order(r, n - 1, i, j);
            } else {
                self.fruit_spots_in_row_are_listed(r, n - 1, before[i]);
                assert(before.contains(before[i]));
            }
        }
    }

    proof fn fruit_spots_in_order(self, n: int, i: int, j: int)
        requires
            self.maze.layout.cols >= 0,
            0 <= i < j < self.fruit_spots(n).len(),
        ensures
            ({
                let a = self.fruit_spots(n)[i];
                let b = self.fruit_spots(n)[j];
                a.0 < b.0 || a.0 == b.0 && a.1 < b.1
            }),
        decreases n,
    {
        if n > 0 {
            let cols = self.maze.layout.cols;
            let above = self.fruit_spots(n - 1);
            let row = self.fruit_spots_in_row(n - 1, cols);
            let m = above.len() as int;
            if j < m {
                self.fruit_spots_in_order(n - 1, i, j);
            } else {
                let b = row[j - m];
                assert(row.contains(b));
                self.fruit_spots_in_row_are_listed(n - 1, cols, b);
                if i < m {
                    assert(above.contains(above[i]));
                    self.fruit_spots_are_listed(n - 1, above[i]);
                } else {
                    assert(row.contains(row[i - m]));
                    self.fruit_spots_in_row_are_listed(n - 1, cols, row[i - m]);
                    self.fruit_spots_in_row_in_order(n - 1, cols, i - m, j - m);
                }
            }
        }
    }
}

} // verus!
