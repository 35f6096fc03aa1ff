//! The vocabulary of the game and the tables that depend on its level.

use vstd::prelude::*;

verus! {

/// Frames per second.
pub const FPS: u64 = 60;

/// Frames between two steps of the player.
pub const PLAYER_STEP_FRAMES: u64 = 12;

/// The factor by which ghost step intervals are stretched before they are
/// rounded.
pub const GHOST_SLOW_FACTOR: u64 = 2;

/// The last level.
pub const MAX_LEVEL: u8 = 20;

/// The score that earns the one extra life of a run.
pub const EXTRA_LIFE_SCORE: u32 = 100_000;

/// Normalized input; closing the game is the pane's business.
#[derive(Clone, Copy, PartialEq, Eq, Structural, Debug)]
pub enum Input {
    /// No key pressed this frame.
    Idle,
    Up,
    Down,
    Left,
    Right,
    /// `r`: request restart (enters confirm mode) or, in result phase,
    /// restart directly.
    Restart,
    /// `y` while confirm mode is active.
    Yes,
    /// `n` while confirm mode is active.
    No,
}

#[derive(Clone, Copy, PartialEq, Eq, Structural, Debug)]
pub enum GhostId {
    Blinky,
    Pinky,
    Inky,
    Clyde,
}

impl GhostId {
    /// The ghost's place in creation order.
    pub open spec fn place(self) -> int {
        match self {
            GhostId::Blinky => 0,
            GhostId::Pinky => 1,
            GhostId::Inky => 2,
            GhostId::Clyde => 3,
        }
    }

    /// The ghost's place in creation order.
    pub fn index(self) -> (i: usize)
        ensures
            i == self.place(),
    {
        match self {
            GhostId::Blinky => 0,
            GhostId::Pinky => 1,
            GhostId::Inky => 2,
            GhostId::Clyde => 3,
        }
    }
}

#[derive(Clone, Copy, PartialEq, Eq, Structural, Debug)]
pub enum GhostState {
    House,
    Normal,
    Frightened,
    Eyes,
}

#[derive(Clone, Copy, PartialEq, Eq, Structural, Debug)]
pub enum Phase {
    Playing,
    Won,
    Lost,
}

/// Transient banner line, with its display color for the pane to map.
#[derive(Clone, Copy, PartialEq, Eq, Structural, Debug)]
pub enum Banner {
    /// No banner.
    Blank,
    Countdown(u32),
    Ready,
    Power,
    Fruit,
    GhostEaten,
    Waiting,
    LevelClear(u8),
    Won,
    Lost,
    ConfirmRestart,
}

#[derive(Clone, Copy, PartialEq, Eq, Structural, Debug)]
pub enum BannerColor {
    Yellow,
    Cyan,
    Magenta,
    Green,
    Red,
    Gray,
}

/// What the HUD "Mode" line shows: scatter or chase, or frightened while power
/// is active.
#[derive(Clone, Copy, PartialEq, Eq, Structural, Debug)]
pub enum Mode {
    Scatter,
    Chase,
    Frightened,
}

/// Fruit symbol and points by level; levels from 13 on have the key.
pub const FRUIT_TABLE: [(char, u32); 12] = [
    ('%', 100),
    ('U', 300),
    ('O', 500),
    ('O', 500),
    ('Q', 700),
    ('Q', 700),
    ('§', 1000),
    ('§', 1000),
    ('W', 2000),
    ('W', 2000),
    ('?', 3000),
    ('?', 3000),
];

/// The fruit of a level: its symbol and what it scores.
pub open spec fn fruit_of(level: int) -> (char, int) {
    if level >= 13 {
        ('!', 5000)
    } else {
        (FRUIT_TABLE@[level - 1].0, FRUIT_TABLE@[level - 1].1 as int)
    }
}

/// The fruit of a level: its symbol and what it scores.
pub fn fruit_for_level(level: u8) -> (f: (char, u32))
    requires
        level >= 1,
    ensures
        (f.0, f.1 as int) == fruit_of(level as int),
        f.1 <= 5000,
{
    if level >= 13 {
        ('!', 5000)
    } else {
        FRUIT_TABLE[level as usize - 1]
    }
}

/// How long a power pellet lasts.
pub open spec fn power_seconds(level: int) -> int {
    if level <= 1 {
        6
    } else if level == 2 {
        5
    } else if level <= 10 {
        4
    } else if level <= 16 {
        3
    } else {
        2
    }
}

/// How long a power pellet lasts.
pub fn power_duration_sec(level: u8) -> (sec: u64)
    ensures
        sec == power_seconds(level as int),
{
    if level <= 1 {
        6
    } else if level == 2 {
        5
    } else if level <= 10 {
        4
    } else if level <= 16 {
        3
    } else {
        2
    }
}

/// How long an eaten ghost stays in the house.
pub open spec fn revive_seconds(level: int) -> int {
    if 11 <= level <= 16 {
        5
    } else {
        3
    }
}

/// How long an eaten ghost stays in the house.
pub fn ghost_revive_sec(level: u8) -> (sec: u64)
    ensures
        sec == revive_seconds(level as int),
{
    if 11 <= level && level <= 16 {
        5
    } else {
        3
    }
}

/// The level's alternation of scattering and chasing, in seconds.
pub open spec fn schedule(level: int) -> Seq<(Mode, u64)> {
    if level >= 17 {
        seq![
            (Mode::Scatter, 1u64),
            (Mode::Chase, 20u64),
            (Mode::Scatter, 1u64),
            (Mode::Chase, 20u64),
            (Mode::Chase, 9999u64),
        ]
    } else if level >= 5 {
        seq![
            (Mode::Scatter, 5u64),
            (Mode::Chase, 20u64),
            (Mode::Scatter, 5u64),
            (Mode::Chase, 20u64),
            (Mode::Scatter, 5u64),
            (Mode::Chase, 9999u64),
        ]
    } else {
        seq![
            (Mode::Scatter, 7u64),
            (Mode::Chase, 20u64),
            (Mode::Scatter, 7u64),
            (Mode::Chase, 20u64),
            (Mode::Scatter, 5u64),
            (Mode::Chase, 20u64),
            (Mode::Scatter, 5u64),
            (Mode::Chase, 9999u64),
        ]
    }
}

/// The level's alternation of scattering and chasing, as (mode, seconds)
/// pairs.
pub fn scatter_schedule(level: u8) -> (s: &'static [(Mode, u64)])
    ensures
        s@ == schedule(level as int),
{
    if level >= 17 {
        &[
            (Mode::Scatter, 1),
            (Mode::Chase, 20),
            (Mode::Scatter, 1),
            (Mode::Chase, 20),
            (Mode::Chase, 9999),
        ]
    } else if level >= 5 {
        &[
            (Mode::Scatter, 5),
            (Mode::Chase, 20),
            (Mode::Scatter, 5),
            (Mode::Chase, 20),
            (Mode::Scatter, 5),
            (Mode::Chase, 9999),
        ]
    } else {
        &[
            (Mode::Scatter, 7),
            (Mode::Chase, 20),
            (Mode::Scatter, 7),
            (Mode::Chase, 20),
            (Mode::Scatter, 5),
            (Mode::Chase, 20),
            (Mode::Scatter, 5),
            (Mode::Chase, 9999),
        ]
    }
}

/// The mode of a schedule `t` seconds into the level; chasing once the
/// schedule is over.
pub open spec fn mode_at(s: Seq<(Mode, u64)>, t: int) -> Mode
    decreases s.len(),
{
    if s.len() == 0 {
        Mode::Chase
    } else if t < s[0].1 {
        s[0].0
    } else {
        mode_at(s.drop_first(), t - s[0].1)
    }
}

/// A schedule only ever scatters or chases.
pub proof fn schedules_never_frighten(level: int, t: int)
    ensures
        mode_at(schedule(level), t) == Mode::Scatter || mode_at(schedule(level), t) == Mode::Chase,
{
    modes_come_from_the_list(schedule(level), t);
}

proof fn modes_come_from_the_list(s: Seq<(Mode, u64)>, t: int)
    requires
        forall|i: int| 0 <= i < s.len() ==> (#[trigger] s[i]).0 != Mode::Frightened,
    ensures
        mode_at(s, t) != Mode::Frightened,
    decreases s.len(),
{
    if s.len() > 0 && t >= s[0].1 {
        assert forall|i: int| 0 <= i < s.drop_first().len() implies (
        #[trigger] s.drop_first()[i]).0 != Mode::Frightened by {
            assert(s.drop_first()[i] == s[i + 1]);
        }
        modes_come_from_the_list(s.drop_first(), t - s[0].1);
    }
}

/// On the first four levels the ghosts scatter for the first seven seconds, from
/// 27 to 34, from 54 to 59 and from 79 to 84 seconds, and chase in between and
/// from then on.
pub proof fn early_levels_scatter_four_times(level: int, t: int)
    requires
        level <= 4,
        t >= 0,
    ensures
        mode_at(schedule(level), t) == Mode::Scatter <==> t < 7 || 27 <= t < 34 || 54 <= t < 59
            || 79 <= t < 84,
{
    reveal_with_fuel(mode_at, 10);
    schedules_never_frighten(level, t);
}

/// On levels 5 to 16 the ghosts scatter for the first five seconds, from 25 to 30
/// and from 50 to 55 seconds, and chase in between and from then on.
pub proof fn middle_levels_scatter_three_times(level: int, t: int)
    requires
        5 <= level <= 16,
        t >= 0,
    ensures
        mode_at(schedule(level), t) == Mode::Scatter <==> t < 5 || 25 <= t < 30 || 50 <= t < 55,
{
    reveal_with_fuel(mode_at, 8);
    schedules_never_frighten(level, t);
}

/// From level 17 on the ghosts scatter for two single seconds, the first and the
/// one after 21.
pub proof fn late_levels_hardly_scatter(level: int, t: int)
    requires
        17 <= level,
        t >= 0,
    ensures
        mode_at(schedule(level), t) == Mode::Scatter <==> t < 1 || 21 <= t < 22,
{
    reveal_with_fuel(mode_at, 7);
    schedules_never_frighten(level, t);
}

/// Seconds that a ghost waits in the house once the pause after a death is
/// over.
pub open spec fn release_delay(level: int, id: GhostId) -> int {
    match id {
        GhostId::Blinky => 0,
        GhostId::Pinky => if level <= 1 {
            2
        } else {
            1
        },
        GhostId::Inky => if level <= 1 {
            4
        } else if level <= 4 {
            3
        } else {
            2
        },
        GhostId::Clyde => if level <= 1 {
            6
        } else if level <= 4 {
            5
        } else {
            3
        },
    }
}

/// Seconds that a ghost waits in the house once the pause after a death is
/// over.
pub fn ghost_release_delay(level: u8, id: GhostId) -> (sec: u64)
    ensures
        sec == release_delay(level as int, id),
{
    let (b, p, i, c): (u64, u64, u64, u64) = if level <= 1 {
        (0, 2, 4, 6)
    } else if level <= 4 {
        (0, 1, 3, 5)
    } else {
        (0, 1, 2, 3)
    };
    match id {
        GhostId::Blinky => b,
        GhostId::Pinky => p,
        GhostId::Inky => i,
        GhostId::Clyde => c,
    }
}

/// What the next ghost of a power cycle is worth, `chain` of them eaten.
pub open spec fn bounty(chain: int) -> int {
    if chain <= 0 {
        200
    } else if chain == 1 {
        400
    } else if chain == 2 {
        800
    } else {
        1600
    }
}

/// One step of the xorshift generator.
pub open spec fn xorshift(x: u64) -> u64 {
    let a = x ^ (x << 13u64);
    let b = a ^ (a >> 7u64);
    b ^ (b << 17u64)
}

/// Tiny xorshift64. Good enough for frightened wandering and fruit placement;
/// no dependency, deterministic.
#[derive(Clone, Copy, Debug)]
pub struct Rng(pub u64);

impl Rng {
    /// Advances the generator and returns its new state.
    pub fn next(&mut self) -> (x: u64)
        ensures
            x == xorshift(old(self).0),
            final(self).0 == x,
    {
        let mut x: u64 = self.0;
        x = x ^ (x << 13u64);
        x = x ^ (x >> 7u64);
        x = x ^ (x << 17u64);
        self.0 = x;
        x
    }

    /// Uniform-enough index in `0..n`; an empty range draws nothing.
    pub fn index(&mut self, n: usize) -> (i: usize)
        ensures
            n == 0 ==> i == 0 && final(self).0 == old(self).0,
            n > 0 ==> final(self).0 == xorshift(old(self).0) && i == xorshift(old(self).0) as int
                % n as int,
    {
        if n == 0 {
            0
        } else {
            (self.next() % n as u64) as usize
        }
    }
}

} // verus!
