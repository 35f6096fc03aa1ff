//! The game engine: pure state and logic, no I/O, no terminal, no timers.
//!
//! The host ticks it 60 times a second ([`Game::tick`] is one frame) and feeds
//! normalized input; rendering reads the accessors. Coordinates are those of
//! the board (21 rows of 26 columns), counted from 0. Keeping the best score is
//! the host's job: construct with the stored best, poll
//! [`Game::stats_committed`] and read [`Game::best_score`].

use vstd::prelude::*;

use crate::{maze, model, rules, soundness, walk};
pub use crate::rules::{
    fruit_for_level, Banner, BannerColor, GhostId, GhostState, Input, Mode, Phase, Rng, FPS,
    MAX_LEVEL, PLAYER_STEP_FRAMES,
};
pub use crate::walk::Dir;

use crate::maze::{
    filled_grid, parse, Maze, MazeView, Pellet, Spot, PELLET, POWER, TUNNEL_LEFT, TUNNEL_RIGHT,
};
use crate::model::{FruitModel, GameView, GhostView, PlayerView};
use crate::rules::{
    ghost_release_delay, ghost_revive_sec, power_duration_sec, scatter_schedule, EXTRA_LIFE_SCORE,
    GHOST_SLOW_FACTOR,
};
use crate::walk::{Passage, DIRS};

verus! {

/// What the pane shows of a ghost.
#[derive(Clone, Copy, Debug)]
pub struct GhostInfo {
    pub id: GhostId,
    pub r: i32,
    pub c: i32,
    pub dir: Dir,
    pub state: GhostState,
}

#[derive(Clone, Copy, Debug)]
pub struct FruitView {
    /// The level's fruit symbol.
    pub symbol: char,
    pub r: i32,
    pub c: i32,
}

/// A ghost with its timers and its corner.
#[derive(Clone, Copy, Debug)]
pub struct GhostFull {
    pub id: GhostId,
    pub r: i32,
    pub c: i32,
    pub dir: Dir,
    pub state: GhostState,
    pub release_at: u64,
    pub next_step_at: u64,
    pub home_r: i32,
    pub home_c: i32,
}

impl View for GhostFull {
    type V = GhostView;

    open spec fn view(&self) -> GhostView {
        GhostView {
            id: self.id,
            pos: (self.r as int, self.c as int),
            dir: self.dir,
            state: self.state,
            release_at: self.release_at as int,
            next_step_at: self.next_step_at as int,
            home: (self.home_r as int, self.home_c as int),
        }
    }
}

impl From<&GhostFull> for GhostInfo {
    fn from(g: &GhostFull) -> (shown: GhostInfo) {
        GhostInfo { id: g.id, r: g.r, c: g.c, dir: g.dir, state: g.state }
    }
}

impl vstd::std_specs::convert::FromSpecImpl<&GhostFull> for GhostInfo {
    open spec fn obeys_from_spec() -> bool {
        true
    }

    open spec fn from_spec(g: &GhostFull) -> GhostInfo {
        GhostInfo { id: g.id, r: g.r, c: g.c, dir: g.dir, state: g.state }
    }
}

#[derive(Clone, Copy, Debug)]
pub struct FruitState {
    pub active: bool,
    pub spawned: bool,
    pub r: i32,
    pub c: i32,
}

#[derive(Clone, Copy, Debug)]
pub struct Player {
    pub r: i32,
    pub c: i32,
    pub dir: Dir,
    pub next_dir: Dir,
    pub next_step_at: u64,
}

/// The game. See the module docs for the host contract.
#[derive(Debug)]
pub struct Game {
    pub maze: Maze,
    pub total_pellets: u32,
    pub remaining_pellets: u32,
    pub player: Player,
    pub player_start: (i32, i32),
    pub ghosts: Vec<GhostFull>,
    pub ghost_spawn: (i32, i32),
    pub global_pause_until: u64,
    pub fruit: FruitState,
    pub level: u8,
    pub score: u32,
    pub best_score: u32,
    pub lives: u32,
    pub extra_life_granted: bool,
    pub power_until: u64,
    pub power_chain: u32,
    pub power_eaten: [bool; 4],
    pub phase: Phase,
    pub frame: u64,
    pub run_start_frame: u64,
    pub level_start_frame: u64,
    pub end_frame: Option<u64>,
    pub stats_committed: bool,
    pub confirm_restart: bool,
    pub countdown_until: u64,
    pub info: Banner,
    pub info_color: BannerColor,
    pub info_until: Option<u64>,
    pub collected_fruits: Vec<char>,
    pub rng: Rng,
}

/// A list of ghosts as their views.
pub open spec fn ghost_views(ghosts: Seq<GhostFull>) -> Seq<GhostView> {
    Seq::new(ghosts.len(), |i: int| ghosts[i]@)
}

/// An optional frame number as an integer.
pub open spec fn frame_number(f: Option<u64>) -> Option<int> {
    match f {
        Some(n) => Some(n as int),
        None => None,
    }
}

impl View for Player {
    type V = PlayerView;

    open spec fn view(&self) -> PlayerView {
        PlayerView {
            pos: (self.r as int, self.c as int),
            dir: self.dir,
            next_dir: self.next_dir,
            next_step_at: self.next_step_at as int,
        }
    }
}

impl View for FruitState {
    type V = FruitModel;

    open spec fn view(&self) -> FruitModel {
        FruitModel {
            active: self.active,
            spawned: self.spawned,
            pos: (self.r as int, self.c as int),
        }
    }
}

impl View for Game {
    type V = GameView;

    open spec fn view(&self) -> GameView {
        GameView {
            maze: self.maze@,
            total_pellets: self.total_pellets as int,
            remaining_pellets: self.remaining_pellets as int,
            player: self.player@,
            player_start: (self.player_start.0 as int, self.player_start.1 as int),
            ghosts: ghost_views(self.ghosts@),
            ghost_spawn: (self.ghost_spawn.0 as int, self.ghost_spawn.1 as int),
            global_pause_until: self.global_pause_until as int,
            fruit: self.fruit@,
            level: self.level as int,
            score: self.score as int,
            best_score: self.best_score as int,
            lives: self.lives as int,
            extra_life_granted: self.extra_life_granted,
            power_until: self.power_until as int,
            power_chain: self.power_chain as int,
            power_eaten: self.power_eaten@,
            phase: self.phase,
            frame: self.frame as int,
            run_start_frame: self.run_start_frame as int,
            level_start_frame: self.level_start_frame as int,
            end_frame: frame_number(self.end_frame),
            stats_committed: self.stats_committed,
            confirm_restart: self.confirm_restart,
            countdown_until: self.countdown_until as int,
            info: self.info,
            info_color: self.info_color,
            info_until: frame_number(self.info_until),
            collected_fruits: self.collected_fruits@,
            rng: self.rng.0,
        }
    }
}

/// Frames that the timers set within one frame may reach ahead.
pub const TIMER_REACH: u64 = 600;

/// The most points that one frame can score: a power pellet, the key, and four
/// ghosts of one power cycle.
pub const MOST_POINTS: u32 = 8050;

impl Game {
    /// What holds of a game between two frames.
    pub open spec fn wf(&self) -> bool {
        self@.wf()
    }

    /// The frame counter is far enough from its end for every timer.
    pub open spec fn has_time(&self) -> bool {
        self.frame <= u64::MAX - TIMER_REACH
    }

    /// The frame counter is far enough from its end for a frame with this input:
    /// one that only waits sets no timer.
    pub open spec fn has_time_for(&self, input: Input) -> bool {
        &&& self.frame < u64::MAX
        &&& self@.stirs_on(input) ==> self.has_time()
    }

    /// The points of a frame with this input fit the score.
    pub open spec fn has_room_for(&self, input: Input) -> bool {
        self@.stirs_on(input) ==> self.score + MOST_POINTS <= u32::MAX || self@.ticked(input).score
            <= u32::MAX
    }

    // ---- helpers ---------------------------------------------------------

    fn is_power_active(&self) -> (b: bool)
        ensures
            b == self@.powered(),
    {
        self.power_until > self.frame
    }

    fn set_info(&mut self, banner: Banner, color: BannerColor, duration_sec: Option<u64>)
        requires
            duration_sec matches Some(sec) ==> old(self).frame + sec * 60 <= u64::MAX,
        ensures
            final(self)@ == old(self)@.with_info(
                banner,
                color,
                match duration_sec {
                    Some(sec) => Some(sec as int),
                    None => None,
                },
            ),
    {
        self.info = banner;
        self.info_color = color;
        self.info_until = match duration_sec {
            Some(sec) => Some(self.frame + sec * FPS),
            None => None,
        };
    }

    /// Adds points, and grants the one extra life of a run when they reach
    /// its price.
    pub fn add_score(&mut self, delta: u32)
        requires
            old(self).score + delta <= u32::MAX,
            !old(self).extra_life_granted && old(self).score + delta >= EXTRA_LIFE_SCORE
                ==> old(self).lives < u32::MAX,
        ensures
            final(self)@ == old(self)@.with_points(delta as int),
    {
        self.score = self.score + delta;
        if !self.extra_life_granted && self.score >= EXTRA_LIFE_SCORE {
            self.extra_life_granted = true;
            self.lives = self.lives + 1;
        }
    }

    fn start_round_countdown(&mut self, seconds: u64)
        requires
            old(self).frame + seconds * 60 <= u64::MAX,
        ensures
            final(self)@ == old(self)@.counting_down(seconds as int),
    {
        self.countdown_until = self.frame + seconds * FPS;
        if self.global_pause_until < self.countdown_until {
            self.global_pause_until = self.countdown_until;
        }
    }

    fn commit_stats_once(&mut self)
        ensures
            final(self)@ == old(self)@.committed(),
    {
        if self.stats_committed {
            return;
        }
        if self.score > self.best_score {
            self.best_score = self.score;
        }
        self.stats_committed = true;
    }
}

impl Game {
    // ---- setup -----------------------------------------------------------

    /// The cell nearest to the given one that a player may stand on
    /// (breadth-first search, door cells excluded).
    fn find_nearest_walkable(&self, start_r: i32, start_c: i32) -> (p: (i32, i32))
        requires
            self.maze.wf(),
            self.maze.rows * self.maze.cols < u32::MAX,
        ensures
            (p.0 as int, p.1 as int) == walk::nearest_open(
                self.maze@.layout,
                (start_r as int, start_c as int),
            ),
    {
        self.maze.nearest_open_cell(start_r, start_c)
    }

    /// Takes the starting cells from the maze: the player's below the middle,
    /// the ghosts' behind the door, the fruit's two cells further on.
    fn init_positions_from_map(&mut self)
        requires
            old(self)@.on_native_board(),
        ensures
            final(self)@ == old(self)@.placed(),
    {
        proof {
            maze::native_layout_is_valid();
        }
        let center_r: i32 = self.maze.rows as i32 / 2 - 1;
        let center_c: i32 = (self.maze.cols * 3 / 4) as i32 - 1;
        self.player_start = self.find_nearest_walkable(center_r, center_c);

        let n: usize = self.maze.door_cells.len();
        assert(maze::spots(self.maze.door_cells@)[0] == (10int, 11int));
        let door: (usize, usize) = self.maze.door_cells[(n + 1) / 2 - 1];
        let (sr, sc) = self.find_nearest_walkable(door.0 as i32, door.1 as i32 + 1);
        let (fr, fc) = self.find_nearest_walkable(door.0 as i32, door.1 as i32 + 3);
        self.ghost_spawn = (sr, sc);
        self.fruit.r = fr;
        self.fruit.c = fc;
    }

    fn reset_entities_for_level(&mut self)
        ensures
            final(self)@ == old(self)@.with_entities_reset(),
    {
        self.player.r = self.player_start.0;
        self.player.c = self.player_start.1;
        let mut ghosts: Vec<GhostFull> = Vec::new();
        ghosts.push(self.housed(GhostId::Blinky, 19, 1));
        ghosts.push(self.housed(GhostId::Pinky, 1, 1));
        ghosts.push(self.housed(GhostId::Inky, 19, 24));
        ghosts.push(self.housed(GhostId::Clyde, 1, 24));
        self.ghosts = ghosts;
        self.fruit.active = false;
        self.fruit.spawned = false;
        assert(ghost_views(self.ghosts@) =~= model::housed_ghosts(
            self@.ghost_spawn,
            self@.frame,
        ));
    }

    /// A ghost in the house, free to leave.
    fn housed(&self, id: GhostId, home_r: i32, home_c: i32) -> (g: GhostFull)
        ensures
            g@ == (GhostView {
                home: (home_r as int, home_c as int),
                ..model::housed_ghost(id, self@.ghost_spawn, self@.frame)
            }),
    {
        GhostFull {
            id,
            r: self.ghost_spawn.0,
            c: self.ghost_spawn.1,
            dir: Dir::Left,
            state: GhostState::House,
            release_at: self.frame,
            next_step_at: self.frame,
            home_r,
            home_c,
        }
    }

    /// Marks the cells that the player can get to from the starting cell.
    fn build_player_reachable_mask(&self) -> (mask: Vec<Vec<bool>>)
        requires
            self.maze.wf(),
            self.maze.rows * self.maze.cols < u32::MAX,
        ensures
            maze::is_grid(maze::grid(mask@), self@.maze.layout.rows, self@.maze.layout.cols),
            forall|r: int, c: int|
                self@.maze.layout.in_bounds((r, c)) ==> #[trigger] maze::grid(mask@)[r][c] == (
                self@.maze.layout.in_bounds(self@.player_start) && walk::reaches(
                    self@.maze.layout,
                    Passage::OpenToPlayer,
                    self@.player_start,
                    (r, c),
                )),
    {
        let (sr, sc) = self.player_start;
        if !self.maze.in_bounds(sr, sc) {
            return filled_grid(self.maze.rows, self.maze.cols, false);
        }
        self.maze.reachable_mask(Passage::OpenToPlayer, (sr, sc))
    }

    /// Marks the cells of the ghost house: those that can be reached from the
    /// ghosts' starting cell without passing the door.
    fn build_ghost_house_mask(&self) -> (mask: Vec<Vec<bool>>)
        requires
            self.maze.wf(),
            self.maze.rows * self.maze.cols < u32::MAX,
        ensures
            maze::is_grid(maze::grid(mask@), self@.maze.layout.rows, self@.maze.layout.cols),
            forall|r: int, c: int|
                self@.maze.layout.in_bounds((r, c)) ==> #[trigger] maze::grid(mask@)[r][c] == (
                self@.maze.layout.walkable(self@.ghost_spawn) && walk::reaches(
                    self@.maze.layout,
                    Passage::OpenToPlayer,
                    self@.ghost_spawn,
                    (r, c),
                )),
    {
        let (sr, sc) = self.ghost_spawn;
        if !self.maze.in_bounds(sr, sc) || self.maze.is_wall(sr, sc) {
            return filled_grid(self.maze.rows, self.maze.cols, false);
        }
        self.maze.reachable_mask(Passage::OpenToPlayer, (sr, sc))
    }

    /// Draws the fruit's cell: a reachable, previously pellet-bearing,
    /// currently empty track cell outside the ghost house.
    fn randomize_fruit_spawn_for_level(&mut self)
        requires
            old(self).maze.wf(),
            old(self).maze.rows * old(self).maze.cols < u32::MAX,
        ensures
            final(self)@ == old(self)@.with_fruit_drawn(),
    {
        let reachable = self.build_player_reachable_mask();
        let house = self.build_ghost_house_mask();
        let mut candidates: Vec<(i32, i32)> = Vec::new();
        let ghost v = self@;
        let ghost l = self@.maze.layout;
        let mut r: usize = 0;
        while r < self.maze.rows
            invariant
                self@ == v,
                self.maze.wf(),
                l == v.maze.layout,
                r <= self.maze.rows,
                maze::is_grid(maze::grid(reachable@), l.rows, l.cols),
                maze::is_grid(maze::grid(house@), l.rows, l.cols),
                forall|i: int, j: int|
                    l.in_bounds((i, j)) ==> #[trigger] maze::grid(reachable@)[i][j] == (l.in_bounds(
                        v.player_start,
                    ) && walk::reaches(l, Passage::OpenToPlayer, v.player_start, (i, j))),
                forall|i: int, j: int|
                    l.in_bounds((i, j)) ==> #[trigger] maze::grid(house@)[i][j] == (l.walkable(
                        v.ghost_spawn,
                    ) && walk::reaches(l, Passage::OpenToPlayer, v.ghost_spawn, (i, j))),
                walk::cells(candidates@) =~= v.fruit_spots(r as int),
            decreases self.maze.rows - r,
        {
            let ghost above = walk::cells(candidates@);
            let mut c: usize = 0;
            while c < self.maze.cols
                invariant
                    self@ == v,
                    self.maze.wf(),
                    l == v.maze.layout,
                    r < self.maze.rows,
                    c <= self.maze.cols,
                    maze::is_grid(maze::grid(reachable@), l.rows, l.cols),
                    maze::is_grid(maze::grid(house@), l.rows, l.cols),
                    forall|i: int, j: int|
                        l.in_bounds((i, j)) ==> #[trigger] maze::grid(reachable@)[i][j] == (
                        l.in_bounds(v.player_start) && walk::reaches(
                            l,
                            Passage::OpenToPlayer,
                            v.player_start,
                            (i, j),
                        )),
                    forall|i: int, j: int|
                        l.in_bounds((i, j)) ==> #[trigger] maze::grid(house@)[i][j] == (l.walkable(
                            v.ghost_spawn,
                        ) && walk::reaches(l, Passage::OpenToPlayer, v.ghost_spawn, (i, j))),
                    walk::cells(candidates@) =~= above + v.fruit_spots_in_row(r as int, c as int),
                decreases self.maze.cols - c,
            {
                let (ri, ci) = (r as i32, c as i32);
                proof {
                    assert(maze::grid(self.maze.base@)[r as int].len() == l.cols);
                    assert(maze::grid(self.maze.pellets@)[r as int].len() == l.cols);
                    assert(maze::grid(reachable@)[r as int].len() == l.cols);
                    assert(maze::grid(house@)[r as int].len() == l.cols);
                    assert(maze::grid(reachable@)[r as int][c as int] == reachable@[r as int]@[
                        c as int
                    ]);
                    assert(maze::grid(house@)[r as int][c as int] == house@[r as int]@[c as int]);
                }
                let ch: char = self.maze.base[r][c];
                let walkable = self.maze.is_walkable(ri, ci) && !self.maze.is_door(ri, ci);
                let on_pellet_track = ch == PELLET || ch == POWER;
                let ghost before = walk::cells(candidates@);
                if walkable && on_pellet_track && reachable[r][c] && !house[r][c] && ch
                    != TUNNEL_LEFT && ch != TUNNEL_RIGHT && self.maze.pellets[r][c]
                    == Pellet::Empty && !(ri == self.player_start.0 && ci == self.player_start.1)
                    && !(ri == self.ghost_spawn.0 && ci == self.ghost_spawn.1) {
                    candidates.push((ri, ci));
                    assert(v.fruit_spot((r as int, c as int)));
                    assert(walk::cells(candidates@) =~= before.push((r as int, c as int)));
                } else {
                    assert(!v.fruit_spot((r as int, c as int)));
                }
                c = c + 1;
            }
            r = r + 1;
        }
        if candidates.len() == 0 {
            return;
        }
        let i: usize = self.rng.index(candidates.len());
        let pick: (i32, i32) = candidates[i];
        assert(walk::cells(candidates@)[i as int] == (pick.0 as int, pick.1 as int));
        self.fruit.r = pick.0;
        self.fruit.c = pick.1;
    }

    /// Puts everyone at their starting cell on a fresh board.
    fn start_level(&mut self, level: u8)
        requires
            old(self).frame + 180 <= u64::MAX,
        ensures
            final(self)@ == old(self)@.level_started(level as int),
    {
        proof {
            maze::native_maze_holds_191_pellets();
            maze::native_layout_is_valid();
        }
        self.level = level;
        self.level_start_frame = self.frame;
        self.maze = parse();
        self.init_positions_from_map();
        self.total_pellets = self.maze.pellet_count();
        self.remaining_pellets = self.total_pellets;
        proof {
                maze::native_maze_holds_191_pellets();
            maze::native_layout_is_valid();
        }
        self.reset_entities_for_level();
        self.randomize_fruit_spawn_for_level();
        self.start_round_countdown(3);
        self.set_info(Banner::Ready, BannerColor::Yellow, Some(3));
    }

    fn start_new_run(&mut self)
        requires
            old(self).frame + 180 <= u64::MAX,
        ensures
            final(self)@ == old(self)@.run_started(),
    {
        reveal(GameView::run_started);
        self.score = 0;
        self.lives = 3;
        self.extra_life_granted = false;
        self.phase = Phase::Playing;
        self.run_start_frame = self.frame;
        self.end_frame = None;
        self.stats_committed = false;
        self.confirm_restart = false;
        self.collected_fruits.clear();
        self.start_level(1);
    }
}

impl Game {
    // ---- power -----------------------------------------------------------

    fn reset_power_cycle(&mut self)
        ensures
            final(self)@ == old(self)@.with_power_over(),
    {
        self.power_until = 0;
        self.power_chain = 0;
        self.power_eaten = [false; 4];
        let ghost v = self@;
        let mut i: usize = 0;
        while i < self.ghosts.len()
            invariant
                i <= self.ghosts@.len(),
                self.ghosts@.len() == v.ghosts.len(),
                self@ == (GameView { ghosts: ghost_views(self.ghosts@), ..v }),
                forall|j: int|
                    0 <= j < i ==> (#[trigger] self.ghosts@[j])@ == v.with_power_over().ghosts[j],
                forall|j: int|
                    i <= j < v.ghosts.len() ==> (#[trigger] self.ghosts@[j])@ == v.ghosts[j],
            decreases self.ghosts@.len() - i,
        {
            if self.ghosts[i].state == GhostState::Frightened {
                self.ghosts[i].state = GhostState::Normal;
            }
            i = i + 1;
        }
        assert(v.power_eaten =~= model::none_eaten());
        assert(ghost_views(self.ghosts@) =~= v.with_power_over().ghosts);
    }

    fn activate_power_cycle(&mut self)
        requires
            old(self).frame + 360 <= u64::MAX,
        ensures
            final(self)@ == old(self)@.with_power(),
    {
        self.power_until = self.frame + power_duration_sec(self.level) * FPS;
        self.power_chain = 0;
        self.power_eaten = [false; 4];
        let ghost v = self@;
        let mut i: usize = 0;
        while i < self.ghosts.len()
            invariant
                i <= self.ghosts@.len(),
                self.ghosts@.len() == v.ghosts.len(),
                self@ == (GameView { ghosts: ghost_views(self.ghosts@), ..v }),
                forall|j: int|
                    0 <= j < i ==> (#[trigger] self.ghosts@[j])@ == v.with_power().ghosts[j],
                forall|j: int|
                    i <= j < v.ghosts.len() ==> (#[trigger] self.ghosts@[j])@ == v.ghosts[j],
            decreases self.ghosts@.len() - i,
        {
            if self.ghosts[i].state != GhostState::Eyes && self.ghosts[i].state
                != GhostState::House {
                self.ghosts[i].state = GhostState::Frightened;
            }
            i = i + 1;
        }
        assert(v.power_eaten =~= model::none_eaten());
        assert(ghost_views(self.ghosts@) =~= v.with_power().ghosts);
    }

    fn update_power_state(&mut self)
        ensures
            final(self)@ == old(self)@.power_checked(),
    {
        if self.power_until > 0 && self.frame >= self.power_until {
            self.reset_power_cycle();
        }
    }

    // ---- fruit -----------------------------------------------------------

    fn spawn_fruit_if_needed(&mut self)
        requires
            old(self).total_pellets * 7 <= u32::MAX,
        ensures
            final(self)@ == old(self)@.fruit_checked(),
    {
        if self.fruit.spawned {
            return;
        }
        if self.remaining_pellets <= self.total_pellets * 7 / 10 {
            self.fruit.spawned = true;
            self.fruit.active = true;
        }
    }

    // ---- player ----------------------------------------------------------

    /// Heads the player for the first open neighbour.
    fn reset_player_auto_direction(&mut self)
        requires
            old(self).maze.wf(),
            old(self)@.maze.layout.in_bounds(old(self)@.player.pos),
        ensures
            final(self)@ == old(self)@.heading_reset(),
    {
        let order: [Dir; 4] = [Dir::Left, Dir::Up, Dir::Right, Dir::Down];
        let ghost v = self@;
        let mut i: usize = 0;
        while i < 4
            invariant
                i <= 4,
                v == old(self)@,
                self@ == v,
                self.maze.wf(),
                v.maze.layout.in_bounds(v.player.pos),
                order@ == seq![Dir::Left, Dir::Up, Dir::Right, Dir::Down],
                forall|j: int| 0 <= j < i ==> !v.player_can_go(#[trigger] order@[j]),
            decreases 4 - i,
        {
            let dir: Dir = order[i];
            let (dr, dc) = dir.delta();
            if self.maze.can_move_player(self.player.r + dr, self.player.c + dc).is_some() {
                assert(i > 0 ==> !v.player_can_go(order@[0]));
                assert(i > 1 ==> !v.player_can_go(order@[1]));
                assert(i > 2 ==> !v.player_can_go(order@[2]));
                self.player.dir = dir;
                self.player.next_dir = dir;
                return;
            }
            i = i + 1;
        }
        assert(!v.player_can_go(order@[0]));
        assert(!v.player_can_go(order@[1]));
        assert(!v.player_can_go(order@[2]));
        assert(!v.player_can_go(order@[3]));
        self.player.dir = Dir::Left;
        self.player.next_dir = Dir::Left;
    }

    /// Eats the pellet on the player's cell.
    fn eat_pellet(&mut self)
        requires
            old(self)@.sound(),
            old(self).remaining_pellets >= 1,
            old(self).has_time(),
            old(self)@.pellet_eaten().score <= u32::MAX,
        ensures
            final(self)@ == old(self)@.pellet_eaten(),
    {
        let (r, c) = (self.player.r, self.player.c);
        assert(maze::grid(self.maze.pellets@)[r as int].len() == self.maze.cols);
        match self.maze.pellets[r as usize][c as usize] {
            Pellet::Dot => {
                self.clear_cell(r, c);
                self.add_score(10);
            },
            Pellet::Power => {
                self.clear_cell(r, c);
                self.add_score(50);
                self.activate_power_cycle();
                self.set_info(Banner::Power, BannerColor::Cyan, Some(3));
            },
            Pellet::Empty => {},
        }
    }

    /// Takes the pellet off a cell.
    fn clear_cell(&mut self, r: i32, c: i32)
        requires
            old(self).maze.wf(),
            old(self)@.maze.layout.in_bounds((r as int, c as int)),
            old(self).remaining_pellets >= 1,
        ensures
            final(self)@ == (GameView {
                maze: MazeView {
                    pellets: old(self)@.maze.pellets.update(
                        r as int,
                        old(self)@.maze.pellets[r as int].update(c as int, Pellet::Empty),
                    ),
                    ..old(self)@.maze
                },
                remaining_pellets: old(self)@.remaining_pellets - 1,
                ..old(self)@
            }),
    {
        let ghost v = self@;
        assert(maze::grid(self.maze.pellets@)[r as int].len() == self.maze.cols);
        self.maze.pellets[r as usize][c as usize] = Pellet::Empty;
        assert(maze::grid(self.maze.pellets@) =~= v.maze.pellets.update(
            r as int,
            v.maze.pellets[r as int].update(c as int, Pellet::Empty),
        ));
        self.remaining_pellets = self.remaining_pellets - 1;
    }

    /// Collects fruit on the player's cell.
    fn eat_fruit(&mut self)
        requires
            old(self).level >= 1,
            old(self).has_time(),
            old(self)@.fruit_eaten().score <= u32::MAX,
            old(self).lives < u32::MAX,
        ensures
            final(self)@ == old(self)@.fruit_eaten(),
    {
        if self.fruit.active && self.player.r == self.fruit.r && self.player.c == self.fruit.c {
            let (symbol, points) = fruit_for_level(self.level);
            self.add_score(points);
            self.fruit.active = false;
            self.collected_fruits.push(symbol);
            self.set_info(Banner::Fruit, BannerColor::Magenta, Some(3));
        }
    }

    /// Ends the level when no pellet is left, and the run after the last level.
    fn finish_level_if_clear(&mut self)
        requires
            old(self).has_time(),
        ensures
            final(self)@ == old(self)@.level_checked(),
    {
        if self.remaining_pellets == 0 {
            if self.level >= MAX_LEVEL {
                self.phase = Phase::Won;
                self.end_frame = Some(self.frame);
                self.commit_stats_once();
                self.set_info(Banner::Won, BannerColor::Green, None);
            } else {
                let next: u8 = self.level + 1;
                self.start_level(next);
                self.set_info(Banner::LevelClear(next), BannerColor::Green, Some(3));
            }
        }
    }

    /// Eats what lies on the player's cell, and ends the level when nothing is
    /// left.
    fn consume_current_cell(&mut self)
        requires
            old(self)@.sound(),
            old(self).remaining_pellets >= 1,
            old(self).has_time(),
            old(self)@.cell_consumed().score <= u32::MAX,
        ensures
            final(self)@ == old(self)@.cell_consumed(),
    {
        reveal(GameView::cell_consumed);
        self.eat_pellet();
        self.eat_fruit();
        self.finish_level_if_clear();
    }

    /// Takes a queued turn if it can be taken, then steps on.
    fn try_move_player(&mut self)
        requires
            old(self)@.sound(),
            old(self).remaining_pellets >= 1,
            old(self).has_time(),
            old(self)@.player_stepped().score <= u32::MAX,
        ensures
            final(self)@ == old(self)@.player_stepped(),
    {
        if self.frame < self.player.next_step_at {
            return;
        }
        self.player.next_step_at = self.frame + PLAYER_STEP_FRAMES;

        // Try the queued turn first.
        let (dr, dc) = self.player.next_dir.delta();
        if self.maze.can_move_player(self.player.r + dr, self.player.c + dc).is_some() {
            self.player.dir = self.player.next_dir;
        }
        // Then step in the current direction.

        let (dr, dc) = self.player.dir.delta();
        if let Some((nr, nc)) = self.maze.can_move_player(self.player.r + dr, self.player.c + dc) {
            self.player.r = nr;
            self.player.c = nc;
            self.consume_current_cell();
        }
    }
}

impl Game {
    // ---- meetings --------------------------------------------------------

    /// Eats a frightened ghost that was not yet eaten in this power cycle.
    pub fn eat_ghost(&mut self, idx: usize)
        requires
            old(self).wf(),
            idx < 4,
            old(self)@.ghost_eaten(idx as int) != old(self)@ ==> old(self).has_time(),
            old(self)@.ghost_eaten(idx as int).score <= u32::MAX,
        ensures
            final(self)@ == old(self)@.ghost_eaten(idx as int),
    {
        let ghost v = self@;
        assert(v.ghosts[idx as int].id.place() == idx);
        let id: GhostId = self.ghosts[idx].id;
        if self.ghosts[idx].state != GhostState::Frightened || self.power_eaten[id.index()] {
            return;
        }
        proof {
            soundness::flag_down(v.power_eaten, id.place(), 4);
            assert(v.ghost_eaten(idx as int).power_chain == v.power_chain + 1);
        }
        let reward: u32 = if self.power_chain == 0 {
            200
        } else if self.power_chain == 1 {
            400
        } else if self.power_chain == 2 {
            800
        } else {
            1600
        };
        self.add_score(reward);
        self.power_chain = self.power_chain + 1;
        let i: usize = id.index();
        self.power_eaten[i] = true;
        assert(self.power_eaten@ =~= v.power_eaten.update(id.place(), true));
        self.ghosts[idx].state = GhostState::Eyes;
        self.ghosts[idx].next_step_at = self.frame;
        assert(ghost_views(self.ghosts@) =~= v.ghosts.update(
            idx as int,
            GhostView { state: GhostState::Eyes, next_step_at: v.frame, ..v.ghosts[idx as int] },
        ));
        self.set_info(Banner::GhostEaten, BannerColor::Cyan, Some(3));
    }

    /// Sends everyone back to their starting cells, after a pause.
    fn reset_after_player_death(&mut self)
        requires
            old(self)@.sound(),
            old(self).has_time(),
        ensures
            final(self)@ == old(self)@.death_reset(),
    {
        let ghost v = self@;
        self.player.r = self.player_start.0;
        self.player.c = self.player_start.1;
        self.player.next_step_at = self.frame;
        self.reset_player_auto_direction();
        let ghost back = self@;

        let mut i: usize = 0;
        while i < self.ghosts.len()
            invariant
                i <= self.ghosts@.len(),
                self.ghosts@.len() == back.ghosts.len(),
                self.has_time(),
                back.ghosts == v.ghosts,
                back.frame == v.frame,
                back.level == v.level,
                back.ghost_spawn == v.ghost_spawn,
                self@ == (GameView { ghosts: ghost_views(self.ghosts@), ..back }),
                forall|j: int|
                    0 <= j < i ==> (#[trigger] self.ghosts@[j])@ == v.sent_home(j),
                forall|j: int|
                    i <= j < back.ghosts.len() ==> (#[trigger] self.ghosts@[j])@ == back.ghosts[j],
            decreases self.ghosts@.len() - i,
        {
            let release_at: u64 = self.frame + 4 * FPS + ghost_release_delay(
                self.level,
                self.ghosts[i].id,
            ) * FPS;
            self.ghosts[i].r = self.ghost_spawn.0;
            self.ghosts[i].c = self.ghost_spawn.1;
            self.ghosts[i].dir = Dir::Left;
            self.ghosts[i].state = GhostState::House;
            self.ghosts[i].release_at = release_at;
            self.ghosts[i].next_step_at = release_at;
            i = i + 1;
        }
        assert(ghost_views(self.ghosts@) =~= Seq::new(v.ghosts.len(), |j: int| v.sent_home(j)));

        self.global_pause_until = self.frame + 4 * FPS;
        self.reset_power_cycle();
        self.set_info(Banner::Waiting, BannerColor::Yellow, Some(4));
    }

    fn player_lost_life(&mut self)
        requires
            old(self)@.sound(),
            old(self).has_time(),
            old(self).lives >= 1,
        ensures
            final(self)@ == old(self)@.life_lost(),
    {
        self.lives = self.lives - 1;
        if self.lives == 0 {
            self.phase = Phase::Lost;
            self.end_frame = Some(self.frame);
            self.commit_stats_once();
            self.set_info(Banner::Lost, BannerColor::Red, None);
        } else {
            self.reset_after_player_death();
        }
    }

    /// Resolves a meeting of the player with one ghost: under power the ghost
    /// is eaten, otherwise a life is lost. Nothing happens once the run is
    /// over.
    pub fn check_collision_with_ghost(&mut self, idx: usize)
        requires
            old(self).wf(),
            idx < 4,
            old(self)@.met(idx as int) != old(self)@ ==> old(self).has_time(),
            old(self)@.met(idx as int).score <= u32::MAX,
        ensures
            final(self)@ == old(self)@.met(idx as int),
            final(self).wf(),
    {
        reveal(GameView::met);
        proof {
            self@.meeting_is_valid(idx as int);
            assert(self@.ghosts[idx as int].id.place() == idx);
        }
        if self.phase != Phase::Playing {
            return;
        }
        if self.player.r != self.ghosts[idx].r || self.player.c != self.ghosts[idx].c {
            return;
        }
        let state: GhostState = self.ghosts[idx].state;
        if state == GhostState::Eyes || state == GhostState::House {
            return;
        }
        let id: GhostId = self.ghosts[idx].id;
        assert(self@.met(idx as int).power_chain != self@.power_chain || self@.met(
            idx as int,
        ).lives != self@.lives);
        if self.is_power_active() && state == GhostState::Frightened
            && !self.power_eaten[id.index()] {
            self.eat_ghost(idx);
        } else {
            self.player_lost_life();
        }
    }

    fn countdown_seconds_left(&self) -> (sec: u32)
        ensures
            sec == self@.countdown_left(),
    {
        if self.phase != Phase::Playing || self.countdown_until <= self.frame {
            return 0;
        }
        whole_seconds_up(self.countdown_until - self.frame)
    }

    /// The player's part of a frame.
    fn update_player_and_collisions(&mut self)
        requires
            old(self).wf(),
            old(self).has_time(),
            old(self)@.player_updated().score <= u32::MAX,
        ensures
            final(self)@ == old(self)@.player_updated(),
            final(self).wf(),
    {
        reveal(GameView::player_updated);
        if self.phase != Phase::Playing || self.countdown_seconds_left() > 0 {
            return;
        }
        let ghost v = self@;
        proof {
            self@.player_step_is_valid();
            self@.player_stepped().meetings_are_valid(0);
        }
        self.try_move_player();
        let ghost stepped = self@;
        let mut idx: usize = 0;
        while idx < 4
            invariant
                idx <= 4,
                self.wf(),
                self.has_time(),
                stepped.met_from(0).score <= u32::MAX,
                stepped.met_from(0) == self@.met_from(idx as int),
                stepped.met_from(0).wf(),
                v.player_updated() == stepped.met_from(0),
                v == old(self)@,
            decreases 4 - idx,
        {
            proof {
                self@.meeting_is_valid(idx as int);
                self@.met(idx as int).meetings_are_valid(idx + 1);
            }
            self.check_collision_with_ghost(idx);
            if self.phase != Phase::Playing {
                return;
            }
            idx = idx + 1;
        }
    }
}

/// Whole seconds that `frames` frames take, rounded up, at most `u32::MAX`.
fn whole_seconds_up(frames: u64) -> (sec: u32)
    ensures
        sec == model::seconds_up(frames as int),
{
    let sec: u64 = frames / FPS + if frames % FPS == 0 {
        0
    } else {
        1
    };
    if sec > u32::MAX as u64 {
        u32::MAX
    } else {
        sec as u32
    }
}

/// A list of ways out as cells and directions.
pub open spec fn ways(list: Seq<(i32, i32, Dir)>) -> Seq<(Spot, Dir)> {
    Seq::new(list.len(), |i: int| ((list[i].0 as int, list[i].1 as int), list[i].2))
}

impl Game {
    // ---- ghosts ----------------------------------------------------------

    fn current_chase_mode(&self) -> (mode: Mode)
        requires
            self.level_start_frame <= self.frame,
        ensures
            mode == self@.chase_mode(),
    {
        let mut t: u64 = (self.frame - self.level_start_frame) / FPS;
        let plan: &'static [(Mode, u64)] = scatter_schedule(self.level);
        let ghost total = self@.chase_mode();
        let mut i: usize = 0;
        assert(plan@.skip(0) =~= plan@);
        while i < plan.len()
            invariant
                i <= plan@.len(),
                total == rules::mode_at(plan@.skip(i as int), t as int),
                total == self@.chase_mode(),
            decreases plan@.len() - i,
        {
            let (mode, sec) = plan[i];
            assert(plan@.skip(i as int)[0] == plan@[i as int]);
            assert(plan@.skip(i as int).drop_first() =~= plan@.skip(i + 1));
            if t < sec {
                return mode;
            }
            t = t - sec;
            i = i + 1;
        }
        Mode::Chase
    }

    /// How far a ghost has to go; 9999 where no way leads.
    pub fn bfs_distance(&self, sr: i32, sc: i32, tr: i32, tc: i32) -> (d: u32)
        requires
            self.maze.wf(),
            self.maze.rows * self.maze.cols < u32::MAX,
        ensures
            d == model::ghost_distance(
                self@.maze.layout,
                (sr as int, sc as int),
                (tr as int, tc as int),
            ),
    {
        if sr == tr && sc == tc {
            return 0;
        }
        if !self.maze.in_bounds(sr, sc) {
            return 9999;
        }
        let ghost l = self@.maze.layout;
        let ghost from: Spot = (sr as int, sc as int);
        let ghost to: Spot = (tr as int, tc as int);
        if !self.maze.in_bounds(tr, tc) {
            proof {
                walk::no_walk_leaves_the_grid(l, Passage::Walkable, from, to);
            }
            return 9999;
        }
        let found = self.maze.flood(Passage::Walkable, (sr, sc));
        proof {
            found.search().tells_distance(l, Passage::Walkable, from, to);
            assert(found.search().dist[tr as int].len() == l.cols);
        }
        let d: u32 = found.dist[tr as usize][tc as usize];
        if d == u32::MAX {
            9999
        } else {
            d
        }
    }

    /// The cell at most `steps` steps ahead of the player, up to the first
    /// wall.
    fn projected_player_pos(&self, steps: u32) -> (p: (i32, i32))
        requires
            self.maze.wf(),
            self@.maze.layout.in_bounds(self@.player.pos),
        ensures
            (p.0 as int, p.1 as int) == model::ahead(
                self@.maze.layout,
                self@.player.pos,
                self@.player.dir,
                steps as int,
            ),
            self@.maze.layout.in_bounds((p.0 as int, p.1 as int)),
    {
        let (mut r, mut c) = (self.player.r, self.player.c);
        let (dr, dc) = self.player.dir.delta();
        let ghost l = self@.maze.layout;
        let ghost dir = self.player.dir;
        let mut i: u32 = 0;
        while i < steps
            invariant
                i <= steps,
                self.maze.wf(),
                l == self@.maze.layout,
                dir == self@.player.dir,
                (dr as int, dc as int) == dir.offset(),
                l.in_bounds((r as int, c as int)),
                model::ahead(l, self@.player.pos, dir, steps as int) == model::ahead(
                    l,
                    (r as int, c as int),
                    dir,
                    steps - i,
                ),
            decreases steps - i,
        {
            let (nr, nc) = self.maze.apply_tunnel(r + dr, c + dc);
            if !self.maze.in_bounds(nr, nc) || self.maze.is_wall_strict(nr, nc) {
                return (r, c);
            }
            r = nr;
            c = nc;
            i = i + 1;
        }
        (r, c)
    }

    fn blinky_enraged(&self) -> (b: bool)
        requires
            self.level >= 5 ==> self.total_pellets * 15 <= u32::MAX,
        ensures
            b == self@.enraged(),
    {
        if self.level < 5 {
            return false;
        }
        let share: u32 = self.total_pellets * 15 / 100;
        self.remaining_pellets <= if share > 20 {
            share
        } else {
            20
        }
    }

    /// The cell that a ghost makes for.
    fn ghost_target(&self, g: &GhostFull) -> (p: (i32, i32))
        requires
            self@.sound(),
            self@.maze.layout.walkable(g@.pos),
        ensures
            (p.0 as int, p.1 as int) == self@.target_of(g@),
    {
        reveal(GameView::target_of);
        proof {
            maze::native_maze_holds_191_pellets();
        }
        if g.state == GhostState::Eyes {
            return self.ghost_spawn;
        }
        let mut mode: Mode = self.current_chase_mode();
        if g.id == GhostId::Blinky && self.blinky_enraged() {
            mode = Mode::Chase;
        }
        if mode == Mode::Scatter {
            return (g.home_r, g.home_c);
        }
        match g.id {
            GhostId::Blinky => (self.player.r, self.player.c),
            GhostId::Pinky => self.projected_player_pos(4),
            GhostId::Inky => {
                let (ar, ac) = self.projected_player_pos(2);
                assert(self@.ghosts[0].id.place() == 0);
                let (br, bc) = self.blinky_pos();
                let rows: i32 = self.maze.rows as i32;
                let cols: i32 = self.maze.cols as i32;
                (clamp(ar + (ar - br), 1, rows - 2), clamp(ac + (ac - bc), 1, cols - 2))
            },
            GhostId::Clyde => {
                let dr: i32 = self.player.r - g.r;
                let dc: i32 = self.player.c - g.c;
                let dist: i32 = (if dr < 0 {
                    -dr
                } else {
                    dr
                }) + (if dc < 0 {
                    -dc
                } else {
                    dc
                });
                if dist > 8 {
                    (self.player.r, self.player.c)
                } else {
                    (g.home_r, g.home_c)
                }
            },
        }
    }

    /// Where Blinky is.
    fn blinky_pos(&self) -> (p: (i32, i32))
        requires
            self@.ghosts_valid(),
        ensures
            (p.0 as int, p.1 as int) == self@.ghosts[0].pos,
    {
        let mut i: usize = 0;
        while i < self.ghosts.len()
            invariant
                i <= self.ghosts@.len(),
                self@.ghosts_valid(),
                i > 0 ==> self.ghosts@[0].id != GhostId::Blinky,
            decreases self.ghosts@.len() - i,
        {
            assert(self@.ghosts[i as int].id.place() == i);
            assert(self@.ghosts[0].id.place() == 0);
            if self.ghosts[i].id == GhostId::Blinky {
                return (self.ghosts[i].r, self.ghosts[i].c);
            }
            i = i + 1;
        }
        assert(self@.ghosts[0].id.place() == 0);
        (self.player.r, self.player.c)
    }

    /// Frames between two steps of a ghost.
    pub fn ghost_step_interval(&self, g: &GhostFull) -> (n: u64)
        requires
            self.level >= 5 && g.id == GhostId::Blinky && g.state != GhostState::Eyes
                ==> self.total_pellets * 15 <= u32::MAX,
        ensures
            n == self@.step_interval(g@),
            n <= 11,
    {
        reveal(GameView::step_interval);
        if g.state == GhostState::Eyes {
            return 4 * GHOST_SLOW_FACTOR;
        }
        let mut base: u64 = if self.level >= 11 {
            6
        } else if self.level >= 5 {
            7
        } else {
            8
        };
        if g.id == GhostId::Blinky && self.blinky_enraged() {
            base = base - 1;
        }
        if g.state == GhostState::Frightened && !self.power_eaten[g.id.index()] {
            base = base + 3;
        }
        (base * GHOST_SLOW_FACTOR + 1) / 2
    }

    /// Puts a ghost's eyes back into the house, to come out again later.
    fn ghost_enter_house(&mut self, idx: usize)
        requires
            old(self).has_time(),
            idx < old(self).ghosts@.len(),
        ensures
            final(self)@ == old(self)@.with_ghost(
                idx as int,
                GhostView {
                    pos: old(self)@.ghost_spawn,
                    state: GhostState::House,
                    release_at: old(self)@.frame + rules::revive_seconds(old(self)@.level) * 60,
                    next_step_at: old(self)@.frame + 60,
                    ..old(self)@.ghosts[idx as int]
                },
            ),
    {
        let ghost v = self@;
        self.ghosts[idx].r = self.ghost_spawn.0;
        self.ghosts[idx].c = self.ghost_spawn.1;
        self.ghosts[idx].state = GhostState::House;
        self.ghosts[idx].release_at = self.frame + ghost_revive_sec(self.level) * FPS;
        self.ghosts[idx].next_step_at = self.frame + FPS;
        assert(ghost_views(self.ghosts@) =~= v.ghosts.update(
            idx as int,
            self.ghosts@[idx as int]@,
        ));
    }

    /// The ways a ghost considers from its cell: where it has more than one,
    /// turning back is left out, unless that leaves none.
    fn ghost_ways(&self, g: &GhostFull) -> (list: Vec<(i32, i32, Dir)>)
        requires
            self.maze.wf(),
            self@.maze.layout.in_bounds(g@.pos),
        ensures
            ways(list@) == model::considered(self@.maze.layout, g@.pos, g@.dir),
    {
        reveal(model::considered);
        let ghost l = self@.maze.layout;
        let mut candidates: Vec<(i32, i32, Dir)> = Vec::new();
        let mut k: usize = 0;
        while k < 4
            invariant
                k <= 4,
                self.maze.wf(),
                l == self@.maze.layout,
                l.in_bounds(g@.pos),
                ways(candidates@) =~= model::exits(l, g@.pos, k as int),
            decreases 4 - k,
        {
            let dir: Dir = DIRS[k];
            let (dr, dc) = dir.delta();
            let ghost before = ways(candidates@);
            if let Some((nr, nc)) = self.maze.can_move_ghost(g.r + dr, g.c + dc) {
                candidates.push((nr, nc, dir));
                assert(ways(candidates@) =~= before.push(((nr as int, nc as int), dir)));
            }
            k = k + 1;
        }
        if candidates.len() > 1 {
            let opp: Dir = g.dir.opposite();
            let ghost all = ways(candidates@);
            let mut filtered: Vec<(i32, i32, Dir)> = Vec::new();
            let mut i: usize = 0;
            while i < candidates.len()
                invariant
                    i <= candidates@.len(),
                    all == ways(candidates@),
                    ways(filtered@) =~= model::avoiding(all, opp, i as int),
                decreases candidates@.len() - i,
            {
                let way: (i32, i32, Dir) = candidates[i];
                assert(all[i as int] == ((way.0 as int, way.1 as int), way.2));
                let ghost before = ways(filtered@);
                if way.2 != opp {
                    filtered.push(way);
                    assert(ways(filtered@) =~= before.push(all[i as int]));
                }
                i = i + 1;
            }
            if filtered.len() > 0 {
                return filtered;
            }
        }
        candidates
    }

    /// The first of the ways that leads to the target the fastest.
    fn fastest_way(&self, list: &Vec<(i32, i32, Dir)>, target: (i32, i32)) -> (best: usize)
        requires
            self.maze.wf(),
            self.maze.rows * self.maze.cols < u32::MAX,
            list@.len() > 0,
        ensures
            best < list@.len(),
            best == model::first_least(
                model::ways_to(
                    self@.maze.layout,
                    ways(list@),
                    (target.0 as int, target.1 as int),
                ),
            ),
    {
        let ghost far = model::ways_to(
            self@.maze.layout,
            ways(list@),
            (target.0 as int, target.1 as int),
        );
        let mut best: usize = 0;
        let mut least: u32 = self.bfs_distance(list[0].0, list[0].1, target.0, target.1);
        assert(ways(list@)[0].0 == (list@[0].0 as int, list@[0].1 as int));
        let mut i: usize = 1;
        while i < list.len()
            invariant
                1 <= i <= list@.len(),
                self.maze.wf(),
                self.maze.rows * self.maze.cols < u32::MAX,
                far == model::ways_to(
                    self@.maze.layout,
                    ways(list@),
                    (target.0 as int, target.1 as int),
                ),
                best < i,
                least == far[best as int],
                forall|j: int| 0 <= j < i ==> far[best as int] <= #[trigger] far[j],
                forall|j: int| 0 <= j < best ==> far[best as int] < #[trigger] far[j],
            decreases list@.len() - i,
        {
            let d: u32 = self.bfs_distance(list[i].0, list[i].1, target.0, target.1);
            assert(ways(list@)[i as int].0 == (list@[i as int].0 as int, list@[i as int].1 as int));
            assert(far[i as int] == d);
            if d < least {
                least = d;
                best = i;
            }
            i = i + 1;
        }
        proof {
            assert(model::is_first_least(far, best as int));
            soundness::first_least_is(far, best as int);
        }
        best
    }

    /// Takes a ghost one cell further, if it has a way out.
    fn step_ghost(&mut self, idx: usize)
        requires
            old(self).wf(),
            idx < 4,
        ensures
            final(self)@ == old(self)@.ghost_stepped(idx as int),
            final(self).ghosts@.len() == 4,
            final(self).frame == old(self).frame,
    {
        reveal(GameView::ghost_stepped);
        let ghost v = self@;
        assert(v.ghosts[idx as int].id.place() == idx);
        let target: (i32, i32) = self.ghost_target(&self.ghosts[idx]);
        let list: Vec<(i32, i32, Dir)> = self.ghost_ways(&self.ghosts[idx]);
        if list.len() == 0 {
            return;
        }
        let frightened = self.ghosts[idx].state == GhostState::Frightened
            && !self.power_eaten[idx];
        let pick: usize = if frightened {
            self.rng.index(list.len())
        } else {
            self.fastest_way(&list, target)
        };
        let (r, c, dir) = list[pick];
        assert(ways(list@)[pick as int] == ((r as int, c as int), dir));
        self.ghosts[idx].r = r;
        self.ghosts[idx].c = c;
        self.ghosts[idx].dir = dir;
        assert(ghost_views(self.ghosts@) =~= v.ghosts.update(
            idx as int,
            GhostView { pos: (r as int, c as int), dir, ..v.ghosts[idx as int] },
        ));
    }

    /// A ghost's part of a frame: leaving the house, or a step when one is due.
    fn move_ghost(&mut self, idx: usize)
        requires
            old(self).wf(),
            old(self).has_time(),
            idx < 4,
        ensures
            final(self)@ == old(self)@.ghost_moved(idx as int),
            final(self).wf(),
    {
        reveal(GameView::ghost_moved);
        let ghost v = self@;
        let ghost i = idx as int;
        proof {
            v.ghost_move_is_valid(i);
            maze::native_maze_holds_191_pellets();
            assert(v.ghosts[i].id.place() == i);
        }
        if self.ghosts[idx].state == GhostState::House {
            if self.frame >= self.ghosts[idx].release_at && self.frame >= self.global_pause_until {
                let frightened = self.is_power_active() && !self.power_eaten[idx];
                self.ghosts[idx].state = if frightened {
                    GhostState::Frightened
                } else {
                    GhostState::Normal
                };
                self.ghosts[idx].next_step_at = self.frame;
                assert(ghost_views(self.ghosts@) =~= v.ghosts.update(i, self.ghosts@[i]@));
            }
            return;
        }
        if self.frame < self.ghosts[idx].next_step_at || self.frame < self.global_pause_until {
            return;
        }
        let interval: u64 = self.ghost_step_interval(&self.ghosts[idx]);
        self.ghosts[idx].next_step_at = self.frame + interval;
        let ghost timed = self@;
        proof {
            assert(ghost_views(self.ghosts@) =~= v.ghosts.update(i, self.ghosts@[i]@));
            assert(timed == v.with_ghost(
                i,
                GhostView { next_step_at: v.frame + v.step_interval(v.ghosts[i]), ..v.ghosts[i] },
            ));
            v.ghosts_stay_valid(timed);
        }
        self.step_ghost(idx);
        if self.ghosts[idx].state == GhostState::Eyes && self.ghosts[idx].r == self.ghost_spawn.0
            && self.ghosts[idx].c == self.ghost_spawn.1 {
            self.ghost_enter_house(idx);
        }
    }

    /// Frightens the ghosts that power holds over and calms the others.
    fn update_moods(&mut self)
        requires
            old(self).wf(),
        ensures
            final(self)@ == old(self)@.moods_updated(),
            final(self).wf(),
    {
        let ghost v = self@;
        proof {
            v.moods_are_valid();
        }
        let mut idx: usize = 0;
        while idx < self.ghosts.len()
            invariant
                idx <= self.ghosts@.len(),
                self.ghosts@.len() == v.ghosts.len(),
                v.wf(),
                self@ == (GameView { ghosts: ghost_views(self.ghosts@), ..v }),
                forall|j: int|
                    0 <= j < idx ==> (#[trigger] self.ghosts@[j])@ == v.moods_updated().ghosts[j],
                forall|j: int|
                    idx <= j < v.ghosts.len() ==> (#[trigger] self.ghosts@[j])@ == v.ghosts[j],
            decreases self.ghosts@.len() - idx,
        {
            assert(v.ghosts[idx as int].id.place() == idx);
            let id: GhostId = self.ghosts[idx].id;
            let state: GhostState = self.ghosts[idx].state;
            if state != GhostState::Eyes {
                let power = self.is_power_active() && !self.power_eaten[id.index()];
                if power && state != GhostState::House {
                    self.ghosts[idx].state = GhostState::Frightened;
                } else if state == GhostState::Frightened && !power {
                    self.ghosts[idx].state = GhostState::Normal;
                }
            }
            idx = idx + 1;
        }
        assert(ghost_views(self.ghosts@) =~= v.moods_updated().ghosts);
    }

    /// The ghosts' part of a frame.
    fn update_ghosts(&mut self)
        requires
            old(self).wf(),
            old(self).has_time(),
            old(self)@.ghosts_updated().score <= u32::MAX,
        ensures
            final(self)@ == old(self)@.ghosts_updated(),
            final(self).wf(),
    {
        reveal(GameView::ghosts_updated);
        let ghost v = self@;
        proof {
            v.moods_are_valid();
        }
        // State transitions first.
        self.update_moods();
        let ghost calm = self@;
        proof {
            calm.moves_are_valid(0);
        }
        let mut idx: usize = 0;
        while idx < 4
            invariant
                idx <= 4,
                self.wf(),
                self.has_time(),
                calm.moved_from(0).score <= u32::MAX,
                calm.moved_from(0) == self@.moved_from(idx as int),
                calm.moved_from(0).wf(),
                v.ghosts_updated() == calm.moved_from(0),
                v == old(self)@,
            decreases 4 - idx,
        {
            proof {
                self@.ghost_move_is_valid(idx as int);
                self@.ghost_moved(idx as int).meeting_is_valid(idx as int);
                self@.ghost_moved(idx as int).met(idx as int).moves_are_valid(idx + 1);
            }
            self.move_ghost(idx);
            self.check_collision_with_ghost(idx);
            if self.phase != Phase::Playing {
                return;
            }
            idx = idx + 1;
        }
    }
}

/// `x`, or the nearer end of `low..=high` where it lies outside.
fn clamp(x: i32, low: i32, high: i32) -> (y: i32)
    requires
        low <= high,
    ensures
        y == model::clamped(x as int, low as int, high as int),
{
    if x < low {
        low
    } else if x > high {
        high
    } else {
        x
    }
}

impl Game {
    /// A game at the start of its first run, with the stored best score.
    pub fn new(best_score: u32) -> (game: Game)
        ensures
            game@ == GameView::blank(best_score as int).run_started(),
            game.wf(),
            game.phase == Phase::Playing,
            game.score == 0,
            game.best_score == best_score,
            game.lives == 3,
            game.level == 1,
            game.frame == 0,
            game@.shown_banner() == (Banner::Countdown(3), BannerColor::Yellow),
    {
        proof {
            GameView::blank(best_score as int).a_new_run_starts_from_scratch();
        }
        let mut game = Game {
            maze: parse(),
            total_pellets: 0,
            remaining_pellets: 0,
            player: Player {
                r: 1,
                c: 1,
                dir: Dir::Left,
                next_dir: Dir::Left,
                next_step_at: 0,
            },
            player_start: (1, 1),
            ghosts: Vec::new(),
            ghost_spawn: (1, 1),
            global_pause_until: 0,
            fruit: FruitState { active: false, spawned: false, r: 1, c: 1 },
            level: 1,
            score: 0,
            best_score,
            lives: 3,
            extra_life_granted: false,
            power_until: 0,
            power_chain: 0,
            power_eaten: [false; 4],
            phase: Phase::Playing,
            frame: 0,
            run_start_frame: 0,
            level_start_frame: 0,
            end_frame: None,
            stats_committed: false,
            confirm_restart: false,
            countdown_until: 0,
            info: Banner::Blank,
            info_color: BannerColor::Gray,
            info_until: None,
            collected_fruits: Vec::new(),
            rng: Rng(0x9E3779B97F4A7C15),
        };
        let ghost blank = GameView::blank(best_score as int);
        proof {
            maze::native_layout_is_valid();
            soundness::none_eaten_counts_zero();
            assert(game.power_eaten@ =~= model::none_eaten());
            assert(ghost_views(game.ghosts@) =~= Seq::empty());
            assert(game@ == blank);
            reveal(GameView::run_started);
            blank.run_start_is_valid();
        }
        game.init_positions_from_map();
        game.start_new_run();
        game
    }

    // ---- read API for the pane -------------------------------------------

    pub fn phase(&self) -> (phase: Phase)
        ensures
            phase == self@.phase,
    {
        self.phase
    }

    pub fn score(&self) -> (score: u32)
        ensures
            score == self@.score,
    {
        self.score
    }

    pub fn best_score(&self) -> (score: u32)
        ensures
            score == self@.best_score,
    {
        self.best_score
    }

    /// True once per run when stats were committed; the host persists
    /// [`Game::best_score`] when it flips (or on teardown).
    pub fn stats_committed(&self) -> (b: bool)
        ensures
            b == self@.stats_committed,
    {
        self.stats_committed
    }

    pub fn lives(&self) -> (lives: u32)
        ensures
            lives == self@.lives,
    {
        self.lives
    }

    pub fn level(&self) -> (level: u8)
        ensures
            level == self@.level,
    {
        self.level
    }

    pub fn maze(&self) -> (maze: &Maze)
        ensures
            maze@ == self@.maze,
            *maze == self.maze,
    {
        &self.maze
    }

    /// Player position.
    pub fn player(&self) -> (p: (i32, i32))
        ensures
            (p.0 as int, p.1 as int) == self@.player.pos,
    {
        (self.player.r, self.player.c)
    }

    /// Ghosts in creation order (blinky, pinky, inky, clyde).
    pub fn ghosts(&self) -> (list: Vec<GhostInfo>)
        ensures
            list@.len() == self@.ghosts.len(),
            forall|i: int|
                0 <= i < list@.len() ==> #[trigger] list@[i].shows(self@.ghosts[i]),
    {
        let mut list: Vec<GhostInfo> = Vec::new();
        let mut i: usize = 0;
        while i < self.ghosts.len()
            invariant
                i <= self.ghosts@.len(),
                list@.len() == i,
                forall|j: int| 0 <= j < i ==> #[trigger] list@[j].shows(self@.ghosts[j]),
            decreases self.ghosts@.len() - i,
        {
            list.push(GhostInfo::from(&self.ghosts[i]));
            i = i + 1;
        }
        list
    }

    /// Active fruit, if any.
    pub fn fruit(&self) -> (fruit: Option<FruitView>)
        requires
            self.fruit.active ==> self.level >= 1,
        ensures
            fruit is Some <==> self@.fruit.active,
            fruit matches Some(f) ==> f.symbol == rules::fruit_of(self@.level).0 && (
                f.r as int,
                f.c as int,
            ) == self@.fruit.pos,
    {
        if self.fruit.active {
            Some(
                FruitView {
                    symbol: fruit_for_level(self.level).0,
                    r: self.fruit.r,
                    c: self.fruit.c,
                },
            )
        } else {
            None
        }
    }

    /// Symbols of fruits collected this run, oldest first.
    pub fn collected_fruits(&self) -> (list: &[char])
        ensures
            list@ == self@.collected_fruits,
    {
        self.collected_fruits.as_slice()
    }

    /// The banner on show and its color.
    pub fn banner(&self) -> (shown: (Banner, BannerColor))
        ensures
            shown == self@.shown_banner(),
    {
        if self.confirm_restart {
            return (Banner::ConfirmRestart, BannerColor::Yellow);
        }
        let countdown: u32 = self.countdown_seconds_left();
        if countdown > 0 {
            return (Banner::Countdown(countdown), BannerColor::Yellow);
        }
        (self.info, self.info_color)
    }

    /// Whole seconds of power left (0 when inactive).
    pub fn power_seconds_left(&self) -> (sec: u32)
        ensures
            sec == self@.power_left(),
    {
        if self.power_until > self.frame {
            whole_seconds_up(self.power_until - self.frame)
        } else {
            0
        }
    }

    /// HUD mode: frightened while power is active, else scatter/chase.
    pub fn mode(&self) -> (mode: Mode)
        requires
            !self@.powered() ==> self.level_start_frame <= self.frame,
        ensures
            mode == self@.shown_mode(),
    {
        if self.is_power_active() {
            Mode::Frightened
        } else {
            self.current_chase_mode()
        }
    }

    /// Whole seconds since the run started, up to its end if it has ended, as
    /// far as a 32-bit counter goes round.
    pub fn elapsed_seconds(&self) -> (sec: u32)
        ensures
            sec == self@.elapsed() % 0x1_0000_0000,
    {
        let ending: u64 = match self.end_frame {
            Some(f) => f,
            None => self.frame,
        };
        let sec: u64 = if ending >= self.run_start_frame {
            (ending - self.run_start_frame) / FPS
        } else {
            0
        };
        assert(sec as u32 == sec % 0x1_0000_0000) by (bit_vector);
        #[verifier::truncate]
        (sec as u32)
    }

    /// Whether the ghost with `id` was already eaten during the current
    /// power cycle.
    pub fn ghost_was_eaten(&self, id: GhostId) -> (b: bool)
        ensures
            b == self@.power_eaten[id.place()],
    {
        self.power_eaten[id.index()]
    }

    // ---- input -----------------------------------------------------------

    fn handle_playing_input(&mut self, input: Input)
        requires
            input == Input::Yes && old(self).confirm_restart ==> old(self).has_time(),
        ensures
            final(self)@ == old(self)@.playing_input(input),
    {
        match input {
            Input::Idle => {},
            Input::Up => {
                self.player.next_dir = Dir::Up;
            },
            Input::Down => {
                self.player.next_dir = Dir::Down;
            },
            Input::Left => {
                self.player.next_dir = Dir::Left;
            },
            Input::Right => {
                self.player.next_dir = Dir::Right;
            },
            Input::Restart => {
                self.confirm_restart = true;
            },
            Input::Yes => {
                if self.confirm_restart {
                    self.start_new_run();
                }
            },
            Input::No => {
                self.confirm_restart = false;
            },
        }
    }

    fn handle_result_input(&mut self, input: Input)
        requires
            input == Input::Restart || input == Input::Yes ==> old(self).has_time(),
        ensures
            final(self)@ == old(self)@.result_input(input),
    {
        if input == Input::Restart || input == Input::Yes {
            self.start_new_run();
        }
    }

    fn take_input(&mut self, input: Input)
        requires
            old(self)@.restarts_on(input) ==> old(self).has_time(),
        ensures
            final(self)@ == old(self)@.input_taken(input),
    {
        reveal(GameView::input_taken);
        if self.phase == Phase::Playing {
            self.handle_playing_input(input);
        } else {
            self.handle_result_input(input);
        }
    }

    /// Takes a transient info message off when its time is over.
    fn expire_info(&mut self)
        ensures
            final(self)@ == old(self)@.info_checked(),
    {
        if let Some(until) = self.info_until {
            if self.frame >= until {
                self.info = Banner::Blank;
                self.info_until = None;
            }
        }
    }

    // ---- main entry ------------------------------------------------------

    /// Player and ghosts act, unless the run is over or waits for an answer.
    fn play(&mut self)
        requires
            old(self).wf(),
            old(self)@.under_way() ==> old(self).has_time(),
            old(self)@.played().score <= u32::MAX,
        ensures
            final(self)@ == old(self)@.played(),
    {
        reveal(GameView::played);
        if self.confirm_restart {
            return;
        }
        if self.phase != Phase::Playing {
            // The result stays visible until a restart is asked for.
            return;
        }
        proof {
            self@.power_check_is_sound();
            maze::native_maze_holds_191_pellets();
            let ready = self@.power_checked().fruit_checked();
            ready.player_update_is_valid();
            ready.player_updated().ghosts_update_is_valid();
        }
        self.update_power_state();
        self.spawn_fruit_if_needed();
        self.update_player_and_collisions();
        if self.phase == Phase::Playing {
            self.update_ghosts();
        }
    }

    /// One frame.
    pub fn tick(&mut self, input: Input)
        requires
            old(self).wf(),
            old(self).has_time_for(input),
            old(self).has_room_for(input),
        ensures
            final(self)@ == old(self)@.ticked(input),
            final(self).wf(),
            final(self).frame == old(self).frame + 1,
            final(self).score <= old(self).score + MOST_POINTS,
            old(self).phase != Phase::Playing && old(self).info_until is None && input
                != Input::Restart && input != Input::Yes ==> final(self)@ == (GameView {
                frame: old(self)@.frame + 1,
                ..old(self)@
            }),
            old(self).phase == Phase::Playing && !old(self).confirm_restart && (input == Input::Yes
                || input == Input::No) ==> final(self)@ == old(self)@.ticked(Input::Idle),
    {
        proof {
            self@.tick_is_valid(input);
            self@.input_is_valid(input);
            self@.input_taken(input).info_checked().play_is_valid();
            self@.idle_inputs(input);
            self@.waiting_frames(input);
        }
        self.take_input(input);
        self.expire_info();
        self.play();
        self.frame = self.frame + 1;
    }
}

impl GhostInfo {
    /// What is shown is the ghost's identity, cell, heading and state.
    pub open spec fn shows(self, g: GhostView) -> bool {
        &&& self.id == g.id
        &&& (self.r as int, self.c as int) == g.pos
        &&& self.dir == g.dir
        &&& self.state == g.state
    }
}

} // verus!
