//! The game as a mathematical state, and what each event does to it.
//!
//! [`GameView`] is what a [`Game`](crate::engine::Game) stands for. Frames,
//! scores and coordinates are unbounded integers here. Each operation of the
//! engine is stated as the function of this module that it computes.

use vstd::prelude::*;

use crate::{maze, rules, walk};
use crate::maze::{Layout, MazeView, Pellet, Spot};
use crate::maze::{PELLET, POWER};
use crate::rules::{Banner, BannerColor, GhostId, GhostState, Input, Mode};
use crate::rules::{Phase, EXTRA_LIFE_SCORE, MAX_LEVEL};
use crate::walk::{Dir, Passage, DIRS};

verus! {

#[verifier::ext_equal]
pub struct PlayerView {
    pub pos: Spot,
    pub dir: Dir,
    pub next_dir: Dir,
    pub next_step_at: int,
}

#[verifier::ext_equal]
pub struct GhostView {
    pub id: GhostId,
    pub pos: Spot,
    pub dir: Dir,
    pub state: GhostState,
    pub release_at: int,
    pub next_step_at: int,
    pub home: Spot,
}

#[verifier::ext_equal]
pub struct FruitModel {
    pub active: bool,
    pub spawned: bool,
    pub pos: Spot,
}

#[verifier::ext_equal]
pub struct GameView {
    pub maze: MazeView,
    pub total_pellets: int,
    pub remaining_pellets: int,
    pub player: PlayerView,
    pub player_start: Spot,
    pub ghosts: Seq<GhostView>,
    pub ghost_spawn: Spot,
    pub global_pause_until: int,
    pub fruit: FruitModel,
    pub level: int,
    pub score: int,
    pub best_score: int,
    pub lives: int,
    pub extra_life_granted: bool,
    pub power_until: int,
    pub power_chain: int,
    pub power_eaten: Seq<bool>,
    pub phase: Phase,
    pub frame: int,
    pub run_start_frame: int,
    pub level_start_frame: int,
    pub end_frame: Option<int>,
    pub stats_committed: bool,
    pub confirm_restart: bool,
    pub countdown_until: int,
    pub info: Banner,
    pub info_color: BannerColor,
    pub info_until: Option<int>,
    pub collected_fruits: Seq<char>,
    pub rng: u64,
}

/// Whole seconds that `frames` frames take, rounded up, as far as a 32-bit
/// counter goes.
pub open spec fn seconds_up(frames: int) -> int {
    if (frames + 59) / 60 > u32::MAX {
        u32::MAX as int
    } else {
        (frames + 59) / 60
    }
}

/// No ghost eaten yet.
pub open spec fn none_eaten() -> Seq<bool> {
    seq![false, false, false, false]
}

/// How many of the first `n` flags are up.
pub open spec fn flags_up(flags: Seq<bool>, n: int) -> int
    decreases n,
{
    if n <= 0 {
        0
    } else {
        flags_up(flags, n - 1) + if flags[n - 1] {
            1int
        } else {
            0int
        }
    }
}

/// The corner that a ghost returns to while it scatters.
pub open spec fn home_of(id: GhostId) -> Spot {
    match id {
        GhostId::Blinky => (19, 1),
        GhostId::Pinky => (1, 1),
        GhostId::Inky => (19, 24),
        GhostId::Clyde => (1, 24),
    }
}

/// The cells that a ghost on `pos` can step to, the first `n` directions tried
/// in order.
pub open spec fn exits(l: Layout, pos: Spot, n: int) -> Seq<(Spot, Dir)>
    decreases n,
{
    if n <= 0 {
        Seq::empty()
    } else {
        let to = l.step(pos, DIRS@[n - 1]);
        if l.walkable(to) {
            exits(l, pos, n - 1).push((to, DIRS@[n - 1]))
        } else {
            exits(l, pos, n - 1)
        }
    }
}

/// Those of the first `n` ways out that do not go in direction `back`.
pub open spec fn avoiding(ways: Seq<(Spot, Dir)>, back: Dir, n: int) -> Seq<(Spot, Dir)>
    decreases n,
{
    if n <= 0 {
        Seq::empty()
    } else if ways[n - 1].1 != back {
        avoiding(ways, back, n - 1).push(ways[n - 1])
    } else {
        avoiding(ways, back, n - 1)
    }
}

/// The ways a ghost considers: where it has more than one, turning back is left
/// out, unless that leaves none.
#[verifier::opaque]
pub open spec fn considered(l: Layout, pos: Spot, dir: Dir) -> Seq<(Spot, Dir)> {
    let ways = exits(l, pos, 4);
    let onward = avoiding(ways, dir.reversed(), ways.len() as int);
    if ways.len() > 1 && onward.len() > 0 {
        onward
    } else {
        ways
    }
}

/// How far a ghost has to go from `from` to `to`; 9999 where no way leads.
pub open spec fn ghost_distance(l: Layout, from: Spot, to: Spot) -> int {
    if from == to {
        0
    } else if l.in_bounds(from) && walk::reaches(l, Passage::Walkable, from, to) {
        walk::distance(l, Passage::Walkable, from, to)
    } else {
        9999
    }
}

/// `i` is the first place where `values` is least.
pub open spec fn is_first_least(values: Seq<int>, i: int) -> bool {
    &&& 0 <= i < values.len()
    &&& forall|j: int| 0 <= j < values.len() ==> values[i] <= #[trigger] values[j]
    &&& forall|j: int| 0 <= j < i ==> values[i] < #[trigger] values[j]
}

/// The first place where `values` is least.
pub open spec fn first_least(values: Seq<int>) -> int {
    choose|i: int| is_first_least(values, i)
}

/// The distance from each way out to the target.
pub open spec fn ways_to(l: Layout, ways: Seq<(Spot, Dir)>, target: Spot) -> Seq<int> {
    Seq::new(ways.len(), |i: int| ghost_distance(l, ways[i].0, target))
}

/// `x`, or the nearer end of `low..=high` where it lies outside.
pub open spec fn clamped(x: int, low: int, high: int) -> int {
    if x < low {
        low
    } else if x > high {
        high
    } else {
        x
    }
}

/// The cell at most `n` steps ahead of `pos`, up to the first wall.
pub open spec fn ahead(l: Layout, pos: Spot, dir: Dir, n: int) -> Spot
    decreases n,
{
    if n <= 0 || !l.walkable(l.step(pos, dir)) {
        pos
    } else {
        ahead(l, l.step(pos, dir), dir, n - 1)
    }
}

/// Distance counted in rows plus columns.
pub open spec fn city_distance(p: Spot, q: Spot) -> int {
    (if p.0 < q.0 {
        q.0 - p.0
    } else {
        p.0 - q.0
    }) + (if p.1 < q.1 {
        q.1 - p.1
    } else {
        p.1 - q.1
    })
}

/// The ghosts as a level starts: all in the house, heading left, free to leave.
pub open spec fn housed_ghosts(spawn: Spot, frame: int) -> Seq<GhostView> {
    seq![
        housed_ghost(GhostId::Blinky, spawn, frame),
        housed_ghost(GhostId::Pinky, spawn, frame),
        housed_ghost(GhostId::Inky, spawn, frame),
        housed_ghost(GhostId::Clyde, spawn, frame),
    ]
}

pub open spec fn housed_ghost(id: GhostId, spawn: Spot, frame: int) -> GhostView {
    GhostView {
        id,
        pos: spawn,
        dir: Dir::Left,
        state: GhostState::House,
        release_at: frame,
        next_step_at: frame,
        home: home_of(id),
    }
}

impl GameView {
    // ---- questions -------------------------------------------------------

    /// Whether a power pellet is in effect.
    pub open spec fn powered(self) -> bool {
        self.power_until > self.frame
    }

    /// Whole seconds of power left.
    pub open spec fn power_left(self) -> int {
        if self.powered() {
            seconds_up(self.power_until - self.frame)
        } else {
            0
        }
    }

    /// Whole seconds until the round starts.
    pub open spec fn countdown_left(self) -> int {
        if self.phase != Phase::Playing || self.countdown_until <= self.frame {
            0
        } else {
            seconds_up(self.countdown_until - self.frame)
        }
    }

    /// The banner on show.
    pub open spec fn shown_banner(self) -> (Banner, BannerColor) {
        if self.confirm_restart {
            (Banner::ConfirmRestart, BannerColor::Yellow)
        } else if self.countdown_left() > 0 {
            (Banner::Countdown(self.countdown_left() as u32), BannerColor::Yellow)
        } else {
            (self.info, self.info_color)
        }
    }

    /// Whether the ghosts scatter or chase.
    pub open spec fn chase_mode(self) -> Mode {
        rules::mode_at(rules::schedule(self.level), (self.frame - self.level_start_frame) / 60)
    }

    /// The mode on show.
    pub open spec fn shown_mode(self) -> Mode {
        if self.powered() {
            Mode::Frightened
        } else {
            self.chase_mode()
        }
    }

    /// Whole seconds since the run started, up to its end if it has ended.
    pub open spec fn elapsed(self) -> int {
        let ending = match self.end_frame {
            Some(f) => f,
            None => self.frame,
        };
        if ending >= self.run_start_frame {
            (ending - self.run_start_frame) / 60
        } else {
            0
        }
    }

    /// From level 5 on, Blinky speeds up and never scatters once few pellets
    /// are left.
    pub open spec fn enraged(self) -> bool {
        &&& self.level >= 5
        &&& (self.remaining_pellets <= 20 || self.remaining_pellets <= self.total_pellets * 15
            / 100)
    }

    /// The cell that a ghost makes for.
    #[verifier::opaque]
    pub open spec fn target_of(self, g: GhostView) -> Spot {
        if g.state == GhostState::Eyes {
            self.ghost_spawn
        } else if self.chase_mode() == Mode::Scatter && !(g.id == GhostId::Blinky
            && self.enraged()) {
            g.home
        } else {
            match g.id {
                GhostId::Blinky => self.player.pos,
                GhostId::Pinky => ahead(self.maze.layout, self.player.pos, self.player.dir, 4),
                GhostId::Inky => {
                    let a = ahead(self.maze.layout, self.player.pos, self.player.dir, 2);
                    let b = self.ghosts[0].pos;
                    (
                        clamped(a.0 + (a.0 - b.0), 1, self.maze.layout.rows - 2),
                        clamped(a.1 + (a.1 - b.1), 1, self.maze.layout.cols - 2),
                    )
                },
                GhostId::Clyde => if city_distance(self.player.pos, g.pos) > 8 {
                    self.player.pos
                } else {
                    g.home
                },
            }
        }
    }

    /// Frames between two steps of a ghost.
    #[verifier::opaque]
    pub open spec fn step_interval(self, g: GhostView) -> int {
        if g.state == GhostState::Eyes {
            8
        } else {
            let base = if self.level >= 11 {
                6int
            } else if self.level >= 5 {
                7
            } else {
                8
            };
            let haste = if g.id == GhostId::Blinky && self.enraged() {
                1int
            } else {
                0
            };
            let fright = if g.state == GhostState::Frightened
                && !self.power_eaten[g.id.place()] {
                3int
            } else {
                0
            };
            base - haste + fright
        }
    }

    /// Where fruit may lie: a reachable track cell outside the ghost house
    /// whose pellet is gone, but for the two starting cells.
    pub open spec fn fruit_spot(self, p: Spot) -> bool {
        let l = self.maze.layout;
        &&& l.open_to_player(p)
        &&& l.at(p) == PELLET || l.at(p) == POWER
        &&& l.in_bounds(self.player_start)
        &&& walk::reaches(l, Passage::OpenToPlayer, self.player_start, p)
        &&& !(l.walkable(self.ghost_spawn) && walk::reaches(
            l,
            Passage::OpenToPlayer,
            self.ghost_spawn,
            p,
        ))
        &&& self.maze.pellets[p.0][p.1] == Pellet::Empty
        &&& p != self.player_start
        &&& p != self.ghost_spawn
    }

    /// The fruit cells among the first `n` of row `r`.
    pub open spec fn fruit_spots_in_row(self, r: int, n: int) -> Seq<Spot>
        decreases n,
    {
        if n <= 0 {
            Seq::empty()
        } else if self.fruit_spot((r, n - 1)) {
            self.fruit_spots_in_row(r, n - 1).push((r, n - 1))
        } else {
            self.fruit_spots_in_row(r, n - 1)
        }
    }

    /// The fruit cells of the first `n` rows, in reading order.
    pub open spec fn fruit_spots(self, n: int) -> Seq<Spot>
        decreases n,
    {
        if n <= 0 {
            Seq::empty()
        } else {
            self.fruit_spots(n - 1) + self.fruit_spots_in_row(n - 1, self.maze.layout.cols)
        }
    }

    // ---- small changes ---------------------------------------------------

    pub open spec fn with_info(
        self,
        banner: Banner,
        color: BannerColor,
        seconds: Option<int>,
    ) -> GameView {
        GameView {
            info: banner,
            info_color: color,
            info_until: match seconds {
                Some(s) => Some(self.frame + s * 60),
                None => None,
            },
            ..self
        }
    }

    /// More points, and the one extra life of a run when they reach its price.
    pub open spec fn with_points(self, delta: int) -> GameView {
        let score = self.score + delta;
        let grant = !self.extra_life_granted && score >= EXTRA_LIFE_SCORE;
        GameView {
            score,
            extra_life_granted: self.extra_life_granted || grant,
            lives: if grant {
                self.lives + 1
            } else {
                self.lives
            },
            ..self
        }
    }

    pub open spec fn with_ghost(self, i: int, g: GhostView) -> GameView {
        GameView { ghosts: self.ghosts.update(i, g), ..self }
    }

    pub open spec fn with_phase(self, phase: Phase) -> GameView {
        GameView { phase, end_frame: Some(self.frame), ..self }.committed()
    }

    /// The best score takes the run's score in, once per run.
    pub open spec fn committed(self) -> GameView {
        if self.stats_committed {
            self
        } else {
            GameView {
                best_score: if self.score > self.best_score {
                    self.score
                } else {
                    self.best_score
                },
                stats_committed: true,
                ..self
            }
        }
    }

    pub open spec fn counting_down(self, seconds: int) -> GameView {
        let until = self.frame + seconds * 60;
        GameView {
            countdown_until: until,
            global_pause_until: if self.global_pause_until < until {
                until
            } else {
                self.global_pause_until
            },
            ..self
        }
    }

    // ---- levels and runs -------------------------------------------------

    /// Starting cells, from the maze: the player below the middle, the ghosts
    /// behind the door, the fruit two cells further on.
    pub open spec fn placed(self) -> GameView {
        let l = self.maze.layout;
        let door = l.door_cells[(l.door_cells.len() + 1) / 2 - 1];
        GameView {
            player_start: walk::nearest_open(l, (l.rows / 2 - 1, l.cols * 3 / 4 - 1)),
            ghost_spawn: walk::nearest_open(l, (door.0, door.1 + 1)),
            fruit: FruitModel { pos: walk::nearest_open(l, (door.0, door.1 + 3)), ..self.fruit },
            ..self
        }
    }

    pub open spec fn with_entities_reset(self) -> GameView {
        GameView {
            player: PlayerView { pos: self.player_start, ..self.player },
            ghosts: housed_ghosts(self.ghost_spawn, self.frame),
            fruit: FruitModel { active: false, spawned: false, ..self.fruit },
            ..self
        }
    }

    /// Fruit goes to a cell drawn at random, if any will do.
    pub open spec fn with_fruit_drawn(self) -> GameView {
        let spots = self.fruit_spots(self.maze.layout.rows);
        if spots.len() == 0 {
            self
        } else {
            let x = rules::xorshift(self.rng);
            GameView {
                fruit: FruitModel { pos: spots[x as int % spots.len() as int], ..self.fruit },
                rng: x,
                ..self
            }
        }
    }

    /// A fresh board, everyone at their starting cell, three seconds to go.
    pub open spec fn level_started(self, level: int) -> GameView {
        let placed = GameView {
            level,
            level_start_frame: self.frame,
            maze: maze::native_maze(),
            ..self
        }.placed();
        let count = maze::pellets_on(placed.maze.pellets) as int;
        GameView { total_pellets: count, remaining_pellets: count, ..placed }.with_entities_reset()
            .with_fruit_drawn().counting_down(3).with_info(
            Banner::Ready,
            BannerColor::Yellow,
            Some(3int),
        )
    }

    /// A new run at level 1. The best score and the clock go on, and so do the
    /// power in effect, the pause, the player's heading and timer, and the state
    /// of the random generator.
    #[verifier::opaque]
    pub open spec fn run_started(self) -> GameView {
        GameView {
            score: 0,
            lives: 3,
            extra_life_granted: false,
            phase: Phase::Playing,
            run_start_frame: self.frame,
            end_frame: None,
            stats_committed: false,
            confirm_restart: false,
            collected_fruits: Seq::empty(),
            ..self
        }.level_started(1)
    }

    // ---- power and fruit -------------------------------------------------

    pub open spec fn with_power_over(self) -> GameView {
        GameView {
            power_until: 0,
            power_chain: 0,
            power_eaten: none_eaten(),
            ghosts: Seq::new(
                self.ghosts.len(),
                |i: int|
                    GhostView {
                        state: if self.ghosts[i].state == GhostState::Frightened {
                            GhostState::Normal
                        } else {
                            self.ghosts[i].state
                        },
                        ..self.ghosts[i]
                    },
            ),
            ..self
        }
    }

    pub open spec fn with_power(self) -> GameView {
        GameView {
            power_until: self.frame + rules::power_seconds(self.level) * 60,
            power_chain: 0,
            power_eaten: none_eaten(),
            ghosts: Seq::new(
                self.ghosts.len(),
                |i: int|
                    GhostView {
                        state: if self.ghosts[i].state != GhostState::Eyes
                            && self.ghosts[i].state != GhostState::House {
                            GhostState::Frightened
                        } else {
                            self.ghosts[i].state
                        },
                        ..self.ghosts[i]
                    },
            ),
            ..self
        }
    }

    pub open spec fn power_checked(self) -> GameView {
        if self.power_until > 0 && self.frame >= self.power_until {
            self.with_power_over()
        } else {
            self
        }
    }

    /// Fruit appears once per level, when seven tenths of the pellets or fewer
    /// are left.
    pub open spec fn fruit_checked(self) -> GameView {
        if !self.fruit.spawned && self.remaining_pellets <= self.total_pellets * 7 / 10 {
            GameView { fruit: FruitModel { spawned: true, active: true, ..self.fruit }, ..self }
        } else {
            self
        }
    }

    // ---- the player ------------------------------------------------------

    /// Whether the player can step in direction `d`.
    pub open spec fn player_can_go(self, d: Dir) -> bool {
        self.maze.layout.open_to_player(self.maze.layout.step(self.player.pos, d))
    }

    /// The pellet under the player is eaten.
    pub open spec fn pellet_eaten(self) -> GameView {
        let p = self.player.pos;
        let pellet = self.maze.pellets[p.0][p.1];
        let cleared = GameView {
            maze: MazeView {
                pellets: self.maze.pellets.update(
                    p.0,
                    self.maze.pellets[p.0].update(p.1, Pellet::Empty),
                ),
                ..self.maze
            },
            remaining_pellets: self.remaining_pellets - 1,
            ..self
        };
        match pellet {
            Pellet::Dot => cleared.with_points(10),
            Pellet::Power => cleared.with_points(50).with_power().with_info(
                Banner::Power,
                BannerColor::Cyan,
                Some(3int),
            ),
            Pellet::Empty => self,
        }
    }

    /// Fruit under the player is collected.
    pub open spec fn fruit_eaten(self) -> GameView {
        if self.fruit.active && self.player.pos == self.fruit.pos {
            let (symbol, points) = rules::fruit_of(self.level);
            let richer = self.with_points(points);
            GameView {
                fruit: FruitModel { active: false, ..richer.fruit },
                collected_fruits: richer.collected_fruits.push(symbol),
                ..richer
            }.with_info(Banner::Fruit, BannerColor::Magenta, Some(3int))
        } else {
            self
        }
    }

    /// An empty board ends the level, and the last level ends the run.
    pub open spec fn level_checked(self) -> GameView {
        if self.remaining_pellets != 0 {
            self
        } else if self.level >= MAX_LEVEL {
            self.with_phase(Phase::Won).with_info(Banner::Won, BannerColor::Green, None)
        } else {
            self.level_started(self.level + 1).with_info(
                Banner::LevelClear((self.level + 1) as u8),
                BannerColor::Green,
                Some(3int),
            )
        }
    }

    #[verifier::opaque]
    pub open spec fn cell_consumed(self) -> GameView {
        self.pellet_eaten().fruit_eaten().level_checked()
    }

    /// A queued turn is taken as soon as it can be; then the player steps on.
    pub open spec fn player_stepped(self) -> GameView {
        if self.frame < self.player.next_step_at {
            self
        } else {
            let dir = if self.player_can_go(self.player.next_dir) {
                self.player.next_dir
            } else {
                self.player.dir
            };
            let turned = GameView {
                player: PlayerView { dir, next_step_at: self.frame + 12, ..self.player },
                ..self
            };
            if turned.player_can_go(dir) {
                GameView {
                    player: PlayerView {
                        pos: self.maze.layout.step(self.player.pos, dir),
                        ..turned.player
                    },
                    ..turned
                }.cell_consumed()
            } else {
                turned
            }
        }
    }

    /// The player heads for the first open neighbour, left, up, right, down.
    pub open spec fn heading_reset(self) -> GameView {
        let d = if self.player_can_go(Dir::Left) {
            Dir::Left
        } else if self.player_can_go(Dir::Up) {
            Dir::Up
        } else if self.player_can_go(Dir::Right) {
            Dir::Right
        } else if self.player_can_go(Dir::Down) {
            Dir::Down
        } else {
            Dir::Left
        };
        GameView { player: PlayerView { dir: d, next_dir: d, ..self.player }, ..self }
    }

    // ---- meetings --------------------------------------------------------

    pub open spec fn ghost_eaten(self, i: int) -> GameView {
        let g = self.ghosts[i];
        if g.state != GhostState::Frightened || self.power_eaten[g.id.place()] {
            self
        } else {
            let richer = self.with_points(rules::bounty(self.power_chain));
            GameView {
                power_chain: self.power_chain + 1,
                power_eaten: self.power_eaten.update(g.id.place(), true),
                ..richer
            }.with_ghost(
                i,
                GhostView { state: GhostState::Eyes, next_step_at: self.frame, ..g },
            ).with_info(Banner::GhostEaten, BannerColor::Cyan, Some(3int))
        }
    }

    /// Ghost `i` back in the house after a death, with the pause and its own
    /// delay to wait.
    pub open spec fn sent_home(self, i: int) -> GhostView {
        let release = self.frame + 240 + rules::release_delay(self.level, self.ghosts[i].id) * 60;
        GhostView {
            pos: self.ghost_spawn,
            dir: Dir::Left,
            state: GhostState::House,
            release_at: release,
            next_step_at: release,
            ..self.ghosts[i]
        }
    }

    /// After a death everyone starts over from their cells, after a pause.
    pub open spec fn death_reset(self) -> GameView {
        let back = GameView {
            player: PlayerView {
                pos: self.player_start,
                next_step_at: self.frame,
                ..self.player
            },
            ..self
        }.heading_reset();
        GameView {
            ghosts: Seq::new(self.ghosts.len(), |i: int| self.sent_home(i)),
            global_pause_until: self.frame + 240,
            ..back
        }.with_power_over().with_info(Banner::Waiting, BannerColor::Yellow, Some(4int))
    }

    pub open spec fn life_lost(self) -> GameView {
        let hurt = GameView { lives: self.lives - 1, ..self };
        if hurt.lives == 0 {
            hurt.with_phase(Phase::Lost).with_info(Banner::Lost, BannerColor::Red, None)
        } else {
            hurt.death_reset()
        }
    }

    /// The player and ghost `i` meet, if they share a cell: under power the
    /// ghost is eaten, otherwise a life is lost.
    #[verifier::opaque]
    pub open spec fn met(self, i: int) -> GameView {
        let g = self.ghosts[i];
        if self.phase != Phase::Playing || self.player.pos != g.pos || g.state == GhostState::Eyes
            || g.state == GhostState::House {
            self
        } else if self.powered() && g.state == GhostState::Frightened
            && !self.power_eaten[g.id.place()] {
            self.ghost_eaten(i)
        } else {
            self.life_lost()
        }
    }

    /// Meetings with the ghosts from number `i` on, until the run ends.
    pub open spec fn met_from(self, i: int) -> GameView
        decreases 4 - i,
    {
        if i >= 4 {
            self
        } else {
            let m = self.met(i);
            if m.phase != Phase::Playing {
                m
            } else {
                m.met_from(i + 1)
            }
        }
    }

    /// The player's part of a frame. Nothing moves during the countdown.
    #[verifier::opaque]
    pub open spec fn player_updated(self) -> GameView {
        if self.phase != Phase::Playing || self.countdown_left() > 0 {
            self
        } else {
            self.player_stepped().met_from(0)
        }
    }

    // ---- the ghosts ------------------------------------------------------

    /// Ghost `i` takes a way out: a random one while frightened, otherwise the
    /// first of those that lead to its target the fastest.
    #[verifier::opaque]
    pub open spec fn ghost_stepped(self, i: int) -> GameView {
        let g = self.ghosts[i];
        let l = self.maze.layout;
        let ways = considered(l, g.pos, g.dir);
        if ways.len() == 0 {
            self
        } else if g.state == GhostState::Frightened && !self.power_eaten[i] {
            let x = rules::xorshift(self.rng);
            let way = ways[x as int % ways.len() as int];
            GameView { rng: x, ..self }.with_ghost(
                i,
                GhostView { pos: way.0, dir: way.1, ..g },
            )
        } else {
            let way = ways[first_least(ways_to(l, ways, self.target_of(g)))];
            self.with_ghost(i, GhostView { pos: way.0, dir: way.1, ..g })
        }
    }

    /// Eyes that reach the house go in.
    pub open spec fn ghost_housed(self, i: int) -> GameView {
        let g = self.ghosts[i];
        if g.state == GhostState::Eyes && g.pos == self.ghost_spawn {
            self.with_ghost(
                i,
                GhostView {
                    state: GhostState::House,
                    release_at: self.frame + rules::revive_seconds(self.level) * 60,
                    next_step_at: self.frame + 60,
                    ..g
                },
            )
        } else {
            self
        }
    }

    /// Ghost `i`'s part of a frame: leaving the house, or a step when one is
    /// due.
    #[verifier::opaque]
    pub open spec fn ghost_moved(self, i: int) -> GameView {
        let g = self.ghosts[i];
        if g.state == GhostState::House {
            if self.frame >= g.release_at && self.frame >= self.global_pause_until {
                self.with_ghost(
                    i,
                    GhostView {
                        state: if self.powered() && !self.power_eaten[i] {
                            GhostState::Frightened
                        } else {
                            GhostState::Normal
                        },
                        next_step_at: self.frame,
                        ..g
                    },
                )
            } else {
                self
            }
        } else if self.frame < g.next_step_at || self.frame < self.global_pause_until {
            self
        } else {
            self.with_ghost(
                i,
                GhostView { next_step_at: self.frame + self.step_interval(g), ..g },
            ).ghost_stepped(i).ghost_housed(i)
        }
    }

    /// Whether power holds over ghost `i`.
    pub open spec fn frightens(self, i: int) -> bool {
        self.powered() && !self.power_eaten[self.ghosts[i].id.place()]
    }

    /// Ghosts outside the house are frightened exactly while power holds over
    /// them; eyes stay eyes.
    pub open spec fn moods_updated(self) -> GameView {
        GameView {
            ghosts: Seq::new(
                self.ghosts.len(),
                |i: int|
                    {
                        let g = self.ghosts[i];
                        GhostView {
                            state: if g.state == GhostState::Eyes || g.state == GhostState::House {
                                g.state
                            } else if self.frightens(i) {
                                GhostState::Frightened
                            } else {
                                GhostState::Normal
                            },
                            ..g
                        }
                    },
            ),
            ..self
        }
    }

    /// The ghosts from number `i` on move, and meet the player, until the run
    /// ends.
    pub open spec fn moved_from(self, i: int) -> GameView
        decreases 4 - i,
    {
        if i >= 4 {
            self
        } else {
            let m = self.ghost_moved(i).met(i);
            if m.phase != Phase::Playing {
                m
            } else {
                m.moved_from(i + 1)
            }
        }
    }

    #[verifier::opaque]
    pub open spec fn ghosts_updated(self) -> GameView {
        self.moods_updated().moved_from(0)
    }

    // ---- a frame ---------------------------------------------------------

    pub open spec fn turning(self, d: Dir) -> GameView {
        GameView { player: PlayerView { next_dir: d, ..self.player }, ..self }
    }

    pub open spec fn playing_input(self, input: Input) -> GameView {
        match input {
            Input::Idle => self,
            Input::Up => self.turning(Dir::Up),
            Input::Down => self.turning(Dir::Down),
            Input::Left => self.turning(Dir::Left),
            Input::Right => self.turning(Dir::Right),
            Input::Restart => GameView { confirm_restart: true, ..self },
            Input::Yes => if self.confirm_restart {
                self.run_started()
            } else {
                self
            },
            Input::No => GameView { confirm_restart: false, ..self },
        }
    }

    pub open spec fn result_input(self, input: Input) -> GameView {
        if input == Input::Restart || input == Input::Yes {
            self.run_started()
        } else {
            self
        }
    }

    #[verifier::opaque]
    pub open spec fn input_taken(self, input: Input) -> GameView {
        if self.phase == Phase::Playing {
            self.playing_input(input)
        } else {
            self.result_input(input)
        }
    }

    pub open spec fn info_checked(self) -> GameView {
        match self.info_until {
            Some(until) => if self.frame >= until {
                GameView { info: Banner::Blank, info_until: None, ..self }
            } else {
                self
            },
            None => self,
        }
    }

    /// The run goes on and waits for no answer.
    pub open spec fn under_way(self) -> bool {
        self.phase == Phase::Playing && !self.confirm_restart
    }

    /// Whether this input starts a new run.
    pub open spec fn restarts_on(self, input: Input) -> bool {
        if self.phase == Phase::Playing {
            input == Input::Yes && self.confirm_restart
        } else {
            input == Input::Restart || input == Input::Yes
        }
    }

    /// Whether a frame with this input starts a new run or plays on. Any other
    /// frame waits: for a restart, or for an answer.
    pub open spec fn stirs_on(self, input: Input) -> bool {
        ||| self.restarts_on(input)
        ||| self.phase == Phase::Playing && input != Input::Restart && (!self.confirm_restart
            || input == Input::No)
    }

    /// Player and ghosts act, unless the run is over or waits for an answer.
    #[verifier::opaque]
    pub open spec fn played(self) -> GameView {
        if !self.under_way() {
            self
        } else {
            let m = self.power_checked().fruit_checked().player_updated();
            if m.phase == Phase::Playing {
                m.ghosts_updated()
            } else {
                m
            }
        }
    }

    /// One frame.
    pub open spec fn ticked(self, input: Input) -> GameView {
        let m = self.input_taken(input).info_checked().played();
        GameView { frame: m.frame + 1, ..m }
    }

    /// A game that has not started its first run yet.
    pub open spec fn blank(best_score: int) -> GameView {
        GameView {
            maze: maze::native_maze(),
            total_pellets: 0,
            remaining_pellets: 0,
            player: PlayerView {
                pos: (1, 1),
                dir: Dir::Left,
                next_dir: Dir::Left,
                next_step_at: 0,
            },
            player_start: (1, 1),
            ghosts: Seq::empty(),
            ghost_spawn: (1, 1),
            global_pause_until: 0,
            fruit: FruitModel { active: false, spawned: false, pos: (1, 1) },
            level: 1,
            score: 0,
            best_score,
            lives: 3,
            extra_life_granted: false,
            power_until: 0,
            power_chain: 0,
            power_eaten: none_eaten(),
            phase: Phase::Playing,
            frame: 0,
            run_start_frame: 0,
            level_start_frame: 0,
            end_frame: None,
            stats_committed: false,
            confirm_restart: false,
            countdown_until: 0,
            info: Banner::Blank,
            info_color: BannerColor::Gray,
            info_until: None,
            collected_fruits: Seq::empty(),
            rng: 0x9E3779B97F4A7C15,
        }
    }

    // ---- validity --------------------------------------------------------

    /// The board is the template's board, whatever pellets are left on it.
    pub open spec fn on_native_board(self) -> bool {
        &&& self.maze.wf()
        &&& self.maze.layout == maze::native_layout()
        &&& self.maze.layout.rows == 21
        &&& self.maze.layout.cols == 26
    }

    /// Four ghosts in creation order, each on a walkable cell.
    pub open spec fn ghosts_valid(self) -> bool {
        &&& self.ghosts.len() == 4
        &&& forall|i: int|
            0 <= i < 4 ==> (#[trigger] self.ghosts[i]).id.place() == i && self.ghosts[i].home
                == home_of(self.ghosts[i].id) && self.maze.layout.walkable(self.ghosts[i].pos)
    }

    /// What holds of a game between any two of its operations.
    pub open spec fn sound(self) -> bool {
        &&& self.on_native_board()
        &&& self.ghosts_valid()
        &&& self.maze.layout.open_to_player(self.player.pos)
        &&& self.maze.layout.open_to_player(self.player_start)
        &&& self.maze.layout.walkable(self.ghost_spawn)
        &&& 1 <= self.level <= MAX_LEVEL
        &&& self.total_pellets == maze::pellets_on(maze::native_maze().pellets)
        &&& self.lives <= 3 + if self.extra_life_granted {
            1int
        } else {
            0int
        }
        &&& self.power_eaten.len() == 4
        &&& self.power_chain == flags_up(self.power_eaten, 4)
        &&& self.level_start_frame <= self.frame
    }

    /// What holds of a game between two frames: besides, a run that goes on has
    /// a life and a pellet left.
    pub open spec fn wf(self) -> bool {
        &&& self.sound()
        &&& self.phase == Phase::Playing ==> self.lives >= 1 && self.remaining_pellets >= 1
    }
}

} // verus!
