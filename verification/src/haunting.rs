//! What the ghosts do: when they come out, what they make for, which way they
//! take, and what happens when they meet the player.

use vstd::prelude::*;

use crate::{conduct, laws, maze, model, rules, soundness, walk};
use crate::maze::{Layout, Spot};
use crate::model::{GameView, GhostView};
use crate::rules::{Banner, BannerColor, GhostId, GhostState, Input, Mode, Phase};
use crate::walk::{Dir, Passage, DIRS};

verus! {

/// Whether a cell of the board is no wall.
pub open spec fn passable(p: Spot) -> bool {
    maze::native_layout().walkable(p)
}

/// The cell `k` steps from `p` to one side.
pub open spec fn along(p: Spot, side: (int, int), k: int) -> Spot
    decreases k,
{
    if k <= 0 {
        p
    } else {
        conduct::beside(along(p, side, k - 1), side)
    }
}

/// Whether `q` lies `k` steps to one side of `p`, with no wall on the way.
pub open spec fn straight_to(p: Spot, side: (int, int), k: int, q: Spot) -> bool {
    &&& k >= 0
    &&& q == along(p, side, k)
    &&& forall|j: int| 0 < j <= k ==> passable(#[trigger] along(p, side, j))
}

/// `t` is the number from `low` to `high` that is nearest to `x`.
pub open spec fn nearest_within(x: int, low: int, high: int, t: int) -> bool {
    &&& low <= t <= high
    &&& low <= x <= high ==> t == x
    &&& x < low ==> t == low
    &&& x > high ==> t == high
}

/// Looking ahead of a cell stops after so many steps or before the first wall.
pub proof fn looking_ahead_stops_at_walls(p: Spot, d: Dir, n: int)
    requires
        passable(p),
        n >= 0,
    ensures
        exists|k: int|
            0 <= k <= n && #[trigger] straight_to(
                p,
                d.offset(),
                k,
                model::ahead(maze::native_layout(), p, d, n),
            ) && (k == n || !passable(along(p, d.offset(), k + 1))),
    decreases n,
{
    let l = maze::native_layout();
    maze::native_layout_is_valid();
    conduct::steps_lead_beside(p, d);
    let side = d.offset();
    let q = model::ahead(l, p, d, n);
    assert(along(p, side, 0) == p);
    assert(along(p, side, 1) == conduct::beside(p, side));
    if n == 0 || !l.walkable(l.step(p, d)) {
        assert(straight_to(p, side, 0, q));
    } else {
        let r = l.step(p, d);
        looking_ahead_stops_at_walls(r, d, n - 1);
        let k = choose|k: int|
            0 <= k <= n - 1 && #[trigger] straight_to(r, side, k, q) && (k == n - 1 || !passable(
                along(r, side, k + 1),
            ));
        along_shifts(p, side, k);
        along_shifts(p, side, k + 1);
        assert forall|j: int| 0 < j <= k + 1 implies passable(#[trigger] along(p, side, j)) by {
            along_shifts(p, side, j - 1);
            if j > 1 {
                assert(passable(along(r, side, j - 1)));
            }
        }
        assert(straight_to(p, side, k + 1, q));
    }
}

proof fn along_shifts(p: Spot, side: (int, int), k: int)
    requires
        k >= 0,
    ensures
        along(p, side, k + 1) == along(conduct::beside(p, side), side, k),
    decreases k,
{
    if k > 0 {
        along_shifts(p, side, k - 1);
    } else {
        assert(along(p, side, 0) == p);
    }
}

/// A direction that a ghost on `p` heading for `heading` may take: no wall lies
/// there, and it turns back only if it must.
pub open spec fn open_way(p: Spot, heading: Dir, d: Dir) -> bool {
    &&& passable(conduct::beside(p, d.offset()))
    &&& (d.offset().0 + heading.offset().0 != 0 || d.offset().1 + heading.offset().1 != 0) || (
    forall|e: Dir| e != d ==> !#[trigger] passable(conduct::beside(p, e.offset())))
}

/// Directions are tried up, left, down, right.
pub open spec fn tried(d: Dir) -> int {
    if d.offset() == (-1int, 0int) {
        0
    } else if d.offset() == (0int, -1int) {
        1
    } else if d.offset() == (1int, 0int) {
        2
    } else {
        3
    }
}

/// A neighbour without a wall is one of the ways out of a cell.
proof fn exit_towards(p: Spot, d: Dir) -> (i: int)
    requires
        0 <= p.0 < 21,
        0 <= p.1 < 26,
        passable(conduct::beside(p, d.offset())),
    ensures
        0 <= i < model::exits(maze::native_layout(), p, 4).len(),
        model::exits(maze::native_layout(), p, 4)[i] == (conduct::beside(p, d.offset()), d),
{
    let l = maze::native_layout();
    conduct::steps_lead_beside(p, d);
    let n = d.rank();
    assert(DIRS@[n] == d);
    let i = model::exits(l, p, n).len() as int;
    assert(model::exits(l, p, n + 1)[i] == (conduct::beside(p, d.offset()), d));
    exits_grow(l, p, n + 1, i);
    i
}

/// Trying more directions keeps the ways that were found.
proof fn exits_grow(l: Layout, p: Spot, n: int, i: int)
    requires
        0 <= n <= 4,
        0 <= i < model::exits(l, p, n).len(),
    ensures
        i < model::exits(l, p, 4).len(),
        model::exits(l, p, 4)[i] == model::exits(l, p, n)[i],
    decreases 4 - n,
{
    if n < 4 {
        assert(model::exits(l, p, n + 1)[i] == model::exits(l, p, n)[i]);
        exits_grow(l, p, n + 1, i);
    }
}

/// The ways out come in the order in which directions are tried.
proof fn exits_in_order(l: Layout, p: Spot, n: int, i: int, j: int)
    requires
        0 <= n <= 4,
        0 <= i < j < model::exits(l, p, n).len(),
    ensures
        tried(model::exits(l, p, n)[i].1) < tried(model::exits(l, p, n)[j].1),
    decreases n,
{
    if n > 0 {
        let before = model::exits(l, p, n - 1);
        walk::ranks_follow_dirs(n - 1);
        if j < before.len() {
            exits_in_order(l, p, n - 1, i, j);
        } else {
            soundness::exits_lead_on(l, p, n - 1, i);
        }
    }
}

/// Leaving out the way back keeps every other way.
proof fn other_way_is_kept(ways: Seq<(Spot, Dir)>, back: Dir, n: int, i: int) -> (j: int)
    requires
        0 <= i < n <= ways.len(),
        ways[i].1 != back,
    ensures
        0 <= j < model::avoiding(ways, back, n).len(),
        model::avoiding(ways, back, n)[j] == ways[i],
    decreases n,
{
    if i == n - 1 {
        model::avoiding(ways, back, n - 1).len() as int
    } else {
        let j = other_way_is_kept(ways, back, n - 1, i);
        assert(model::avoiding(ways, back, n)[j] == ways[i]);
        j
    }
}

/// Leaving out the way back keeps the order of the others.
proof fn avoiding_in_order(l: Layout, p: Spot, back: Dir, n: int, i: int, j: int)
    requires
        0 <= n <= model::exits(l, p, 4).len(),
        0 <= i < j < model::avoiding(model::exits(l, p, 4), back, n).len(),
    ensures
        tried(model::avoiding(model::exits(l, p, 4), back, n)[i].1) < tried(
            model::avoiding(model::exits(l, p, 4), back, n)[j].1,
        ),
    decreases n,
{
    let ways = model::exits(l, p, 4);
    if n > 0 {
        let before = model::avoiding(ways, back, n - 1);
        if j < before.len() {
            avoiding_in_order(l, p, back, n - 1, i, j);
        } else {
            soundness::avoiding_keeps(ways, back, n - 1, i);
            let k = choose|k: int| 0 <= k < n - 1 && #[trigger] ways[k] == before[i];
            exits_in_order(l, p, 4, k, n - 1);
        }
    }
}

/// A way that a ghost considers is an open way, and leads beside its cell.
pub proof fn considered_ways_are_open(p: Spot, heading: Dir, i: int)
    requires
        0 <= p.0 < 21,
        0 <= p.1 < 26,
        0 <= i < model::considered(maze::native_layout(), p, heading).len(),
    ensures
        ({
            let way = model::considered(maze::native_layout(), p, heading)[i];
            open_way(p, heading, way.1) && way.0 == conduct::beside(p, way.1.offset())
        }),
{
    reveal(model::considered);
    let l = maze::native_layout();
    let all = model::exits(l, p, 4);
    let back = heading.reversed();
    let onward = model::avoiding(all, back, all.len() as int);
    let way = model::considered(l, p, heading)[i];
    soundness::considered_lead_on(l, p, heading, i);
    conduct::steps_lead_beside(p, way.1);
    if all.len() > 1 && onward.len() > 0 {
        soundness::avoiding_keeps(all, back, all.len() as int, i);
    } else {
        assert forall|e: Dir| e != way.1 && way.1 == back implies !#[trigger] passable(
            conduct::beside(p, e.offset()),
        ) by {
            if passable(conduct::beside(p, e.offset())) {
                let k = exit_towards(p, e);
                assert(all[k].1 != all[i].1);
                let j = other_way_is_kept(all, back, all.len() as int, k);
            }
        }
    }
}

/// Every open way is considered.
pub proof fn open_ways_are_considered(p: Spot, heading: Dir, d: Dir) -> (i: int)
    requires
        0 <= p.0 < 21,
        0 <= p.1 < 26,
        open_way(p, heading, d),
    ensures
        0 <= i < model::considered(maze::native_layout(), p, heading).len(),
        model::considered(maze::native_layout(), p, heading)[i] == (
            conduct::beside(p, d.offset()),
            d,
        ),
{
    reveal(model::considered);
    let l = maze::native_layout();
    let all = model::exits(l, p, 4);
    let back = heading.reversed();
    let onward = model::avoiding(all, back, all.len() as int);
    let k = exit_towards(p, d);
    if all.len() > 1 && onward.len() > 0 {
        if d == back {
            soundness::avoiding_keeps(all, back, all.len() as int, 0);
            let e = onward[0];
            let j = choose|j: int| 0 <= j < all.len() && #[trigger] all[j] == onward[0];
            soundness::exits_lead_on(l, p, 4, j);
            conduct::steps_lead_beside(p, e.1);
            assert(passable(conduct::beside(p, e.1.offset())));
            assert(false);
        }
        other_way_is_kept(all, back, all.len() as int, k)
    } else {
        k
    }
}

/// Ways are considered in the order in which directions are tried.
pub proof fn ways_are_considered_in_order(l: Layout, p: Spot, heading: Dir, i: int, j: int)
    requires
        0 <= i < j < model::considered(l, p, heading).len(),
    ensures
        tried(model::considered(l, p, heading)[i].1) < tried(
            model::considered(l, p, heading)[j].1,
        ),
{
    reveal(model::considered);
    let all = model::exits(l, p, 4);
    let back = heading.reversed();
    let onward = model::avoiding(all, back, all.len() as int);
    if all.len() > 1 && onward.len() > 0 {
        avoiding_in_order(l, p, back, all.len() as int, i, j);
    } else {
        exits_in_order(l, p, 4, i, j);
    }
}

impl GameView {
    // ---- what the ghosts make for ----------------------------------------

    /// When the ghosts chase, Blinky makes for the player's own cell, and Clyde
    /// too while it is more than eight rows and columns away; otherwise Clyde
    /// makes for its corner.
    pub proof fn chasers_make_for_the_player(self, g: GhostView)
        requires
            self.sound(),
            g.state != GhostState::Eyes,
            self.chase_mode() == Mode::Chase,
        ensures
            g.id == GhostId::Blinky ==> self.target_of(g) == self.player.pos,
            g.id == GhostId::Clyde ==> ({
                let dr = self.player.pos.0 - g.pos.0;
                let dc = self.player.pos.1 - g.pos.1;
                let far = dr + dc > 8 || dr - dc > 8 || -dr + dc > 8 || -dr - dc > 8;
                &&& far ==> self.target_of(g) == self.player.pos
                &&& !far ==> self.target_of(g) == g.home
            }),
    {
        reveal(GameView::target_of);
    }

    /// When the ghosts chase, Pinky makes for the cell four steps ahead of the
    /// player, or the last one before a wall.
    pub proof fn pinky_lies_in_wait(self, g: GhostView)
        requires
            self.sound(),
            g.state != GhostState::Eyes,
            g.id == GhostId::Pinky,
            self.chase_mode() == Mode::Chase,
        ensures
            exists|k: int|
                0 <= k <= 4 && #[trigger] straight_to(
                    self.player.pos,
                    self.player.dir.offset(),
                    k,
                    self.target_of(g),
                ) && (k == 4 || !passable(
                    along(self.player.pos, self.player.dir.offset(), k + 1),
                )),
    {
        reveal(GameView::target_of);
        looking_ahead_stops_at_walls(self.player.pos, self.player.dir, 4);
        let a = model::ahead(self.maze.layout, self.player.pos, self.player.dir, 4);
        assert(self.target_of(g) == a);
        let k = choose|k: int|
            0 <= k <= 4 && #[trigger] straight_to(
                self.player.pos,
                self.player.dir.offset(),
                k,
                a,
            ) && (k == 4 || !passable(along(self.player.pos, self.player.dir.offset(), k + 1)));
        assert(straight_to(self.player.pos, self.player.dir.offset(), k, self.target_of(g)));
    }

    /// When the ghosts chase, Inky makes for the point as far beyond the cell two
    /// steps ahead of the player as Blinky is before it, kept inside the board.
    pub proof fn inky_mirrors_blinky(self, g: GhostView)
        requires
            self.sound(),
            g.state != GhostState::Eyes,
            g.id == GhostId::Inky,
            self.chase_mode() == Mode::Chase,
        ensures
            exists|k: int, a: Spot|
                0 <= k <= 2 && #[trigger] straight_to(
                    self.player.pos,
                    self.player.dir.offset(),
                    k,
                    a,
                ) && (k == 2 || !passable(
                    along(self.player.pos, self.player.dir.offset(), k + 1),
                )) && nearest_within(
                    2 * a.0 - self.ghosts[0].pos.0,
                    1,
                    19,
                    self.target_of(g).0,
                ) && nearest_within(2 * a.1 - self.ghosts[0].pos.1, 1, 24, self.target_of(g).1),
            self.ghosts[0].id == GhostId::Blinky,
    {
        reveal(GameView::target_of);
        maze::native_layout_is_valid();
        assert(self.ghosts[0].id.place() == 0);
        let a = model::ahead(self.maze.layout, self.player.pos, self.player.dir, 2);
        looking_ahead_stops_at_walls(self.player.pos, self.player.dir, 2);
        let k = choose|k: int|
            0 <= k <= 2 && #[trigger] straight_to(
                self.player.pos,
                self.player.dir.offset(),
                k,
                a,
            ) && (k == 2 || !passable(along(self.player.pos, self.player.dir.offset(), k + 1)));
        assert(straight_to(self.player.pos, self.player.dir.offset(), k, a));
    }

    /// When the ghosts scatter, each makes for its own corner: Blinky for row 19,
    /// column 1, Pinky for row 1, column 1, Inky for row 19, column 24, Clyde for
    /// row 1, column 24. From level 5 on Blinky chases all the same once 28
    /// pellets or fewer are left. Eyes make for the house.
    pub proof fn scattering_ghosts_make_for_their_corners(self, i: int)
        requires
            self.sound(),
            0 <= i < 4,
        ensures
            ({
                let g = self.ghosts[i];
                let raging = self.level >= 5 && self.remaining_pellets <= 28;
                &&& g.state == GhostState::Eyes ==> self.target_of(g) == self.ghost_spawn
                &&& g.state != GhostState::Eyes && self.chase_mode() == Mode::Scatter && !(i == 0
                    && raging) ==> self.target_of(g) == seq![
                    (19int, 1int),
                    (1int, 1int),
                    (19int, 24int),
                    (1int, 24int),
                ][i]
                &&& g.state != GhostState::Eyes && i == 0 && raging ==> self.target_of(g)
                    == self.player.pos
                &&& self.chase_mode() == Mode::Scatter || self.chase_mode() == Mode::Chase
            }),
    {
        reveal(GameView::target_of);
        maze::native_maze_holds_191_pellets();
        assert(self.ghosts[i].id.place() == i);
        rules::schedules_never_frighten(
            self.level,
            (self.frame - self.level_start_frame) / 60,
        );
    }

    // ---- which way they take ---------------------------------------------

    /// A ghost that is out waits until its step is due and the pause is over;
    /// then it steps to a neighbouring cell, turning back only where there is no
    /// other way, and waits anew: eight frames on the first levels, seven from
    /// level 5, six from level 11; three more while it is frightened, one less
    /// for a raging Blinky, and always eight for eyes.
    pub proof fn ghosts_step_when_due(self, i: int)
        requires
            self.wf(),
            0 <= i < 4,
            self.ghosts[i].state != GhostState::House,
        ensures
            ({
                let g = self.ghosts[i];
                let next = self.ghost_moved(i).ghosts[i];
                let base = if self.level >= 11 {
                    6int
                } else if self.level >= 5 {
                    7
                } else {
                    8
                };
                let raging = i == 0 && self.level >= 5 && self.remaining_pellets <= 28;
                let shy = g.state == GhostState::Frightened && !self.power_eaten[i];
                if self.frame < g.next_step_at || self.frame < self.global_pause_until {
                    self.ghost_moved(i) == self
                } else if next.state != GhostState::House {
                    &&& next.next_step_at == self.frame + if g.state == GhostState::Eyes {
                        8
                    } else {
                        base + (if shy {
                            3int
                        } else {
                            0
                        }) - (if raging {
                            1int
                        } else {
                            0
                        })
                    }
                    &&& next.state == g.state
                    &&& next.pos == g.pos && next.dir == g.dir || open_way(g.pos, g.dir, next.dir)
                        && next.pos == conduct::beside(g.pos, next.dir.offset())
                    &&& (exists|d: Dir| #[trigger] open_way(g.pos, g.dir, d)) ==> open_way(
                        g.pos,
                        g.dir,
                        next.dir,
                    ) && next.pos == conduct::beside(g.pos, next.dir.offset())
                } else {
                    &&& g.state == GhostState::Eyes
                    &&& next.pos == self.ghost_spawn
                }
            }),
    {
        let g = self.ghosts[i];
        assert(g.id.place() == i);
        maze::native_layout_is_valid();
        maze::native_maze_holds_191_pellets();
        reveal(GameView::ghost_moved);
        reveal(GameView::step_interval);
        if self.frame >= g.next_step_at && self.frame >= self.global_pause_until {
            let timed = self.with_ghost(
                i,
                GhostView { next_step_at: self.frame + self.step_interval(g), ..g },
            );
            assert(timed.ghosts[i].pos == g.pos);
            timed.a_step_takes_an_open_way(i);
            if exists|d: Dir| #[trigger] open_way(g.pos, g.dir, d) {
                let d = choose|d: Dir| #[trigger] open_way(g.pos, g.dir, d);
                let k = open_ways_are_considered(g.pos, g.dir, d);
            }
        }
    }

    /// A step leads along a considered way.
    proof fn a_step_takes_an_open_way(self, i: int)
        requires
            0 <= i < 4,
            self.ghosts.len() == 4,
            self.maze.layout == maze::native_layout(),
            0 <= self.ghosts[i].pos.0 < 21,
            0 <= self.ghosts[i].pos.1 < 26,
        ensures
            ({
                let g = self.ghosts[i];
                let next = self.ghost_stepped(i);
                let ways = model::considered(self.maze.layout, g.pos, g.dir);
                &&& next.ghosts[i].state == g.state
                &&& next.ghosts[i].next_step_at == g.next_step_at
                &&& next.frame == self.frame
                &&& next.ghost_spawn == self.ghost_spawn
                &&& next.ghosts.len() == 4
                &&& ways.len() == 0 ==> next == self
                &&& ways.len() > 0 ==> open_way(g.pos, g.dir, next.ghosts[i].dir)
                    && next.ghosts[i].pos == conduct::beside(g.pos, next.ghosts[i].dir.offset())
            }),
    {
        reveal(GameView::ghost_stepped);
        let g = self.ghosts[i];
        let l = self.maze.layout;
        let ways = model::considered(l, g.pos, g.dir);
        if ways.len() > 0 {
            let x = rules::xorshift(self.rng);
            considered_ways_are_open(g.pos, g.dir, x as int % ways.len() as int);
            let far = model::ways_to(l, ways, self.target_of(g));
            soundness::first_least_exists(far);
            considered_ways_are_open(g.pos, g.dir, model::first_least(far));
        }
    }

    /// A ghost that is not frightened and whose step is due goes to the
    /// neighbouring cell from which the walk to its target is shortest, among its
    /// open ways; among equals to the one that is tried first: up, left, down,
    /// right.
    pub proof fn calm_ghosts_go_the_shortest_way(self, i: int, d: Dir)
        requires
            self.wf(),
            0 <= i < 4,
            self.ghosts[i].state == GhostState::Normal,
            self.frame >= self.ghosts[i].next_step_at,
            self.frame >= self.global_pause_until,
            open_way(self.ghosts[i].pos, self.ghosts[i].dir, d),
        ensures
            ({
                let g = self.ghosts[i];
                let next = self.ghost_moved(i).ghosts[i];
                let l = maze::native_layout();
                let target = self.target_of(g);
                let other = conduct::beside(g.pos, d.offset());
                &&& next.pos == conduct::beside(g.pos, next.dir.offset())
                &&& model::ghost_distance(l, next.pos, target) <= model::ghost_distance(
                    l,
                    other,
                    target,
                )
                &&& tried(d) < tried(next.dir) ==> model::ghost_distance(l, next.pos, target)
                    < model::ghost_distance(l, other, target)
            }),
    {
        reveal(GameView::ghost_moved);
        reveal(GameView::ghost_stepped);
        reveal(GameView::target_of);
        maze::native_layout_is_valid();
        let g = self.ghosts[i];
        let l = self.maze.layout;
        assert(g.id.place() == i);
        let timed = self.with_ghost(
            i,
            GhostView { next_step_at: self.frame + self.step_interval(g), ..g },
        );
        let t = timed.ghosts[i];
        assert(timed.ghosts[0].pos == self.ghosts[0].pos);
        assert(timed.target_of(t) == self.target_of(g));
        let ways = model::considered(l, g.pos, g.dir);
        let k = open_ways_are_considered(g.pos, g.dir, d);
        let far = model::ways_to(l, ways, self.target_of(g));
        soundness::first_least_exists(far);
        let best = model::first_least(far);
        considered_ways_are_open(g.pos, g.dir, best);
        assert(far[best] <= far[k]);
        if tried(d) < tried(ways[best].1) {
            if best < k {
                ways_are_considered_in_order(l, g.pos, g.dir, best, k);
            }
            assert(k < best);
            assert(far[best] < far[k]);
        }
    }

    /// A Blinky that is not frightened and whose step is due while the ghosts
    /// chase goes to the neighbouring cell from which the walk to the player is
    /// shortest.
    pub proof fn blinky_chases_the_player(self, d: Dir)
        requires
            self.wf(),
            self.ghosts[0].state == GhostState::Normal,
            self.chase_mode() == Mode::Chase,
            self.frame >= self.ghosts[0].next_step_at,
            self.frame >= self.global_pause_until,
            open_way(self.ghosts[0].pos, self.ghosts[0].dir, d),
        ensures
            model::ghost_distance(
                maze::native_layout(),
                self.ghost_moved(0).ghosts[0].pos,
                self.player.pos,
            ) <= model::ghost_distance(
                maze::native_layout(),
                conduct::beside(self.ghosts[0].pos, d.offset()),
                self.player.pos,
            ),
    {
        assert(self.ghosts[0].id.place() == 0);
        self.calm_ghosts_go_the_shortest_way(0, d);
        self.chasers_make_for_the_player(self.ghosts[0]);
    }

    /// A frightened ghost whose step is due draws its way: the random generator
    /// moves on, and picks among all open ways. Nothing else draws.
    pub proof fn frightened_ghosts_wander(self, i: int)
        requires
            self.wf(),
            0 <= i < 4,
            self.ghosts[i].state != GhostState::House,
            self.frame >= self.ghosts[i].next_step_at,
            self.frame >= self.global_pause_until,
            exists|d: Dir| #[trigger] open_way(self.ghosts[i].pos, self.ghosts[i].dir, d),
        ensures
            ({
                let g = self.ghosts[i];
                let next = self.ghost_moved(i);
                let ways = model::considered(maze::native_layout(), g.pos, g.dir);
                if g.state == GhostState::Frightened && !self.power_eaten[i] {
                    &&& next.rng == rules::xorshift(self.rng)
                    &&& ways.len() > 0
                    &&& (next.ghosts[i].pos, next.ghosts[i].dir) == ways[next.rng as int
                        % ways.len() as int]
                } else {
                    next.rng == self.rng
                }
            }),
    {
        reveal(GameView::ghost_moved);
        reveal(GameView::ghost_stepped);
        let g = self.ghosts[i];
        maze::native_layout_is_valid();
        assert(g.id.place() == i);
        let d = choose|d: Dir| #[trigger] open_way(g.pos, g.dir, d);
        let k = open_ways_are_considered(g.pos, g.dir, d);
    }

    // ---- the house -------------------------------------------------------

    /// A ghost in the house comes out in its part of the frame if the frame has
    /// reached its time and the end of the pause: frightened if power is in
    /// effect and it was not eaten under it, else calm, where it stood and ready
    /// to step. Until then it stays as it is.
    pub proof fn ghosts_leave_the_house_on_time(self, i: int)
        requires
            self.wf(),
            0 <= i < 4,
            self.ghosts[i].state == GhostState::House,
        ensures
            ({
                let g = self.ghosts[i];
                let next = self.ghost_moved(i).ghosts[i];
                if g.release_at <= self.frame && self.global_pause_until <= self.frame {
                    &&& next.state == if self.power_until > self.frame && !self.power_eaten[i] {
                        GhostState::Frightened
                    } else {
                        GhostState::Normal
                    }
                    &&& next.pos == g.pos
                    &&& next.next_step_at == self.frame
                } else {
                    self.ghost_moved(i) == self
                }
            }),
    {
        reveal(GameView::ghost_moved);
    }

    /// Eyes that step into the house stay there for three seconds, for five on
    /// levels 11 to 16.
    pub proof fn eyes_rest_in_the_house(self, i: int)
        requires
            self.wf(),
            0 <= i < 4,
            self.ghosts[i].state == GhostState::Eyes,
            self.frame >= self.ghosts[i].next_step_at,
            self.frame >= self.global_pause_until,
        ensures
            ({
                let next = self.ghost_moved(i).ghosts[i];
                &&& next.state == GhostState::House <==> next.pos == self.ghost_spawn
                &&& next.state == GhostState::House ==> next.release_at == self.frame + if 11
                    <= self.level <= 16 {
                    300int
                } else {
                    180
                } && next.next_step_at == self.frame + 60
                &&& next.state != GhostState::House ==> next.state == GhostState::Eyes
            }),
    {
        reveal(GameView::ghost_moved);
        reveal(GameView::ghost_stepped);
    }

    /// What becomes of a ghost in the house when the ghosts from number `i` on
    /// have had their part of the frame.
    proof fn the_house_in_a_frame(self, i: int, j: int)
        requires
            self.wf(),
            self.frame >= 0,
            self.phase == Phase::Playing,
            0 <= i <= j < 4,
            self.ghosts[j].state == GhostState::House,
            self.moved_from(i).spare() == self.spare(),
        ensures
            ({
                let g = self.ghosts[j];
                let next = self.moved_from(i).ghosts[j];
                if g.release_at <= self.frame && self.global_pause_until <= self.frame {
                    next.state == GhostState::Normal || self.powered() && (next.state
                        == GhostState::Frightened || next.state == GhostState::Eyes)
                } else {
                    next == g
                }
            }),
        decreases 4 - i,
    {
        let moved = self.ghost_moved(i);
        let m = moved.met(i);
        self.ghost_moves_disturb_nobody(i);
        self.ghost_move_is_valid(i);
        moved.meeting_disturbs_by_death_only(i);
        moved.meeting_is_valid(i);
        m.moves_disturb_by_death_only(i + 1);
        if i == j {
            self.ghosts_leave_the_house_on_time(i);
            assert(m.ghosts[j] == moved.ghosts[j] || m.ghosts[j].state == GhostState::Eyes);
            assert(m.moved_from(i + 1).ghosts[j] == m.ghosts[j]);
        } else {
            assert(moved.ghosts[j] == self.ghosts[j]);
            assert(m.ghosts[j] == moved.ghosts[j]);
            m.the_house_in_a_frame(i + 1, j);
        }
    }

    /// A frame of play lets every ghost out of the house whose time has come, and
    /// leaves every other one there: when neither its own wait nor the pause lies
    /// ahead, it is calm after the frame, or frightened or eaten under power.
    pub proof fn a_frame_opens_the_house(self, input: Input, i: int)
        requires
            self.wf(),
            self.frame >= 0,
            self.under_way(),
            input != Input::Restart,
            0 <= i < 4,
            self.ghosts[i].state == GhostState::House,
            self.ticked(input).spare() == self.spare(),
            self.ticked(input).level == self.level,
            self.ticked(input).phase == Phase::Playing,
        ensures
            ({
                let g = self.ghosts[i];
                let next = self.ticked(input);
                if g.release_at <= self.frame && self.global_pause_until <= self.frame {
                    next.ghosts[i].state == GhostState::Normal || next.power_until > self.frame && (
                    next.ghosts[i].state == GhostState::Frightened || next.ghosts[i].state
                        == GhostState::Eyes)
                } else {
                    next.ghosts[i].state == GhostState::House && next.ghosts[i].release_at
                        == g.release_at
                }
            }),
    {
        self.frame_splits(input);
        let taken = self.input_taken(input).info_checked();
        let ready = taken.power_checked().fruit_checked();
        let stepped = ready.player_updated();
        assert(ready.ghosts[i].state == GhostState::House && ready.ghosts[i].release_at
            == self.ghosts[i].release_at);
        assert(stepped.ghosts[i].state == GhostState::House && stepped.ghosts[i].release_at
            == self.ghosts[i].release_at && stepped.global_pause_until == self.global_pause_until)
            by {
            reveal(GameView::player_updated);
            if ready.countdown_left() <= 0 {
                ready.player_step_is_valid();
                ready.stepping_costs_no_life();
                let m = ready.player_stepped();
                m.meetings_disturb_by_death_only(0);
                assert(m.ghosts[i].release_at == ready.ghosts[i].release_at);
                assert(m.met_from(0).ghosts[i] == m.ghosts[i]);
            }
        }
        stepped.moods_are_valid();
        let calm = stepped.moods_updated();
        calm.moves_disturb_by_death_only(0);
        reveal(GameView::ghosts_updated);
        calm.the_house_in_a_frame(0, i);
    }

    // ---- meetings --------------------------------------------------------

    /// Meeting a ghost matters only on the player's own cell, and only if the
    /// ghost is out and not just eyes. Under power a frightened ghost that was
    /// not eaten yet is eaten: points, and it becomes eyes. Any other ghost costs
    /// one life, and the last life ends the run.
    pub proof fn meetings_decide(self, i: int)
        requires
            self.wf(),
            self.frame >= 0,
            0 <= i < 4,
            self.phase == Phase::Playing,
        ensures
            ({
                let g = self.ghosts[i];
                let next = self.met(i);
                let prey = self.power_until > self.frame && g.state == GhostState::Frightened
                    && !self.power_eaten[i];
                if g.pos != self.player.pos || g.state == GhostState::Eyes || g.state
                    == GhostState::House {
                    next == self
                } else if prey {
                    &&& next.score == self.score + seq![200int, 400, 800, 1600][self.power_chain]
                    &&& next.power_chain == self.power_chain + 1
                    &&& next.power_eaten[i]
                    &&& next.ghosts[i].state == GhostState::Eyes
                    &&& next.ghosts[i].pos == g.pos
                    &&& next.ghosts[i].next_step_at == self.frame
                    &&& next.spare() == self.spare()
                    &&& next.player == self.player
                    &&& next.info == Banner::GhostEaten
                    &&& next.info_color == BannerColor::Cyan
                    &&& next.info_until == Some(self.frame + 180)
                } else {
                    &&& next.lives == self.lives - 1
                    &&& next.score == self.score
                    &&& next.maze == self.maze
                    &&& next.remaining_pellets == self.remaining_pellets
                    &&& next.level == self.level
                    &&& next.fruit == self.fruit
                    &&& next.collected_fruits == self.collected_fruits
                    &&& self.lives == 1 ==> next.phase == Phase::Lost && next.end_frame == Some(
                        self.frame,
                    ) && next.info == Banner::Lost && next.info_color == BannerColor::Red
                        && next.info_until is None
                    &&& self.lives > 1 ==> next.phase == Phase::Playing
                }
            }),
    {
        reveal(GameView::met);
        assert(self.ghosts[i].id.place() == i);
        soundness::flag_down(self.power_eaten, i, 4);
    }

    /// A death that does not end the run puts the player back on the starting
    /// cell, ready to step, heading for the first free side of left, up, right
    /// and down. The ghosts wait in the house: four seconds, and then Pinky, Inky
    /// and Clyde two, four and six more on level 1, one, three and five on levels
    /// 2 to 4, one, two and three from level 5. Power is over.
    pub proof fn a_death_sends_everyone_back(self, i: int)
        requires
            self.wf(),
            self.frame >= 0,
            self.lives > 1,
            0 <= i < 4,
        ensures
            ({
                let next = self.life_lost();
                let wait = if self.level == 1 {
                    seq![0int, 2, 4, 6][i]
                } else if self.level <= 4 {
                    seq![0int, 1, 3, 5][i]
                } else {
                    seq![0int, 1, 2, 3][i]
                };
                let p = self.player_start;
                let left = conduct::free(conduct::beside(p, (0int, -1int)));
                let up = conduct::free(conduct::beside(p, (-1int, 0int)));
                let right = conduct::free(conduct::beside(p, (0int, 1int)));
                &&& next.player.pos == p
                &&& next.player.next_step_at == self.frame
                &&& next.player.next_dir == next.player.dir
                &&& left ==> next.player.dir.offset() == (0int, -1int)
                &&& !left && up ==> next.player.dir.offset() == (-1int, 0int)
                &&& !left && !up && right ==> next.player.dir.offset() == (0int, 1int)
                &&& next.ghosts[i].state == GhostState::House
                &&& next.ghosts[i].pos == self.ghost_spawn
                &&& next.ghosts[i].release_at == self.frame + 240 + 60 * wait
                &&& next.global_pause_until == self.frame + 240
                &&& next.countdown_until == self.countdown_until
                &&& next.power_until == 0
                &&& next.power_chain == 0
                &&& !next.power_eaten[i]
                &&& next.info == Banner::Waiting
                &&& next.info_color == BannerColor::Yellow
                &&& next.info_until == Some(self.frame + 240)
            }),
    {
        assert(self.ghosts[i].id.place() == i);
        maze::native_layout_is_valid();
        conduct::steps_lead_beside(self.player_start, Dir::Left);
        conduct::steps_lead_beside(self.player_start, Dir::Up);
        conduct::steps_lead_beside(self.player_start, Dir::Right);
    }

    /// No ghost that is out stands on the player's cell, as far as the first
    /// `n` ghosts go.
    spec fn kept_off(self, n: int) -> bool {
        forall|j: int|
            0 <= j < n && (#[trigger] self.ghosts[j]).pos == self.player.pos
                ==> self.ghosts[j].state == GhostState::Eyes || self.ghosts[j].state
                == GhostState::House
    }

    proof fn meeting_keeps_off(self, i: int)
        requires
            self.wf(),
            self.frame >= 0,
            0 <= i < 4,
            self.phase == Phase::Playing,
            self.kept_off(i),
        ensures
            self.met(i).phase == Phase::Playing ==> self.met(i).kept_off(i + 1),
    {
        self.meeting_disturbs_by_death_only(i);
        if self.met(i).spare() == self.spare() {
            assert forall|j: int|
                0 <= j < i + 1 && (#[trigger] self.met(i).ghosts[j]).pos == self.met(
                    i,
                ).player.pos implies self.met(i).ghosts[j].state == GhostState::Eyes || self.met(
                i,
            ).ghosts[j].state == GhostState::House by {
                if j < i {
                    assert(self.met(i).ghosts[j] == self.ghosts[j]);
                }
            }
        } else {
            reveal(GameView::met);
        }
    }

    proof fn moves_keep_off(self, i: int)
        requires
            self.wf(),
            self.frame >= 0,
            0 <= i <= 4,
            self.phase == Phase::Playing,
            self.kept_off(i),
        ensures
            self.moved_from(i).phase == Phase::Playing ==> self.moved_from(i).kept_off(4),
        decreases 4 - i,
    {
        if i < 4 {
            let moved = self.ghost_moved(i);
            self.ghost_moves_disturb_nobody(i);
            self.ghost_move_is_valid(i);
            assert forall|j: int|
                0 <= j < i && (#[trigger] moved.ghosts[j]).pos == moved.player.pos implies
                moved.ghosts[j].state == GhostState::Eyes || moved.ghosts[j].state
                == GhostState::House by {
                assert(moved.ghosts[j] == self.ghosts[j]);
            }
            moved.meeting_keeps_off(i);
            moved.meeting_is_valid(i);
            if moved.met(i).phase == Phase::Playing {
                moved.met(i).moves_keep_off(i + 1);
            }
        }
    }

    /// When a frame of play is over, no ghost that is out shares the player's
    /// cell: it was eaten, or it cost a life.
    pub proof fn nobody_shares_the_players_cell(self, input: Input)
        requires
            self.wf(),
            self.frame >= 0,
            self.under_way(),
            input != Input::Restart,
            self.ticked(input).phase == Phase::Playing,
        ensures
            forall|i: int|
                0 <= i < 4 && (#[trigger] self.ticked(input).ghosts[i]).pos == self.ticked(
                    input,
                ).player.pos ==> self.ticked(input).ghosts[i].state == GhostState::Eyes
                    || self.ticked(input).ghosts[i].state == GhostState::House,
    {
        self.frame_splits(input);
        let stepped = self.input_taken(input).info_checked().power_checked().fruit_checked().player_updated();
        reveal(GameView::ghosts_updated);
        stepped.moods_are_valid();
        stepped.moods_updated().moves_keep_off(0);
        assert(self.ticked(input).kept_off(4) == stepped.ghosts_updated().kept_off(4));
    }

    // ---- fright ----------------------------------------------------------

    /// Every ghost that is out and not just eyes is frightened exactly while
    /// power is in effect and it was not eaten under it.
    pub open spec fn fright_is_power(self) -> bool {
        forall|i: int|
            0 <= i < 4 && (#[trigger] self.ghosts[i]).state != GhostState::House
                && self.ghosts[i].state != GhostState::Eyes ==> (self.ghosts[i].state
                == GhostState::Frightened <==> self.powered() && !self.power_eaten[i])
    }

    proof fn meeting_keeps_fright_in_step(self, i: int)
        requires
            self.wf(),
            self.frame >= 0,
            self.fright_is_power(),
            0 <= i < 4,
        ensures
            self.met(i).fright_is_power(),
    {
        reveal(GameView::met);
        let next = self.met(i);
        assert forall|j: int|
            0 <= j < 4 && (#[trigger] next.ghosts[j]).state != GhostState::House
                && next.ghosts[j].state != GhostState::Eyes implies (next.ghosts[j].state
            == GhostState::Frightened <==> next.powered() && !next.power_eaten[j]) by {
            assert(self.ghosts[j].id.place() == j);
            assert(self.ghosts[i].id.place() == i);
        }
    }

    proof fn moves_keep_fright_in_step(self, i: int)
        requires
            self.wf(),
            self.frame >= 0,
            self.fright_is_power(),
            0 <= i <= 4,
        ensures
            self.moved_from(i).fright_is_power(),
        decreases 4 - i,
    {
        if i < 4 {
            let moved = self.ghost_moved(i);
            assert(moved.fright_is_power()) by {
                reveal(GameView::ghost_moved);
                reveal(GameView::ghost_stepped);
                assert forall|j: int|
                    0 <= j < 4 && (#[trigger] moved.ghosts[j]).state != GhostState::House
                        && moved.ghosts[j].state != GhostState::Eyes implies (
                moved.ghosts[j].state == GhostState::Frightened <==> moved.powered()
                    && !moved.power_eaten[j]) by {
                    assert(self.ghosts[j].id.place() == j);
                }
            }
            self.ghost_move_is_valid(i);
            moved.meeting_keeps_fright_in_step(i);
            moved.meeting_is_valid(i);
            if moved.met(i).phase == Phase::Playing {
                moved.met(i).moves_keep_fright_in_step(i + 1);
            }
        }
    }

    /// When a frame of play is over, a ghost that is out and not just eyes is
    /// frightened exactly if power was in effect in that frame and it was not
    /// eaten under it.
    pub proof fn fright_goes_with_power(self, input: Input, i: int)
        requires
            self.wf(),
            self.frame >= 0,
            self.under_way(),
            input != Input::Restart,
            self.ticked(input).phase == Phase::Playing,
            0 <= i < 4,
            self.ticked(input).ghosts[i].state != GhostState::House,
            self.ticked(input).ghosts[i].state != GhostState::Eyes,
        ensures
            self.ticked(input).ghosts[i].state == GhostState::Frightened <==> self.ticked(
                input,
            ).power_until > self.frame && !self.ticked(input).power_eaten[i],
    {
        self.frame_splits(input);
        let stepped = self.input_taken(input).info_checked().power_checked().fruit_checked().player_updated();
        reveal(GameView::ghosts_updated);
        stepped.moods_are_valid();
        let calm = stepped.moods_updated();
        assert(calm.fright_is_power()) by {
            assert forall|j: int|
                0 <= j < 4 && (#[trigger] calm.ghosts[j]).state != GhostState::House
                    && calm.ghosts[j].state != GhostState::Eyes implies (calm.ghosts[j].state
                == GhostState::Frightened <==> calm.powered() && !calm.power_eaten[j]) by {
                assert(stepped.ghosts[j].id.place() == j);
            }
        }
        calm.moves_keep_fright_in_step(0);
        let end = stepped.ghosts_updated();
        stepped.ghosts_update_is_valid();
        assert(end.ghosts[i].state == self.ticked(input).ghosts[i].state);
    }
}

impl GameView {
    // ---- the opening of a game -------------------------------------------

    /// A new game after `k` frames of its countdown.
    spec fn opening(self, k: int) -> bool {
        &&& self.wf()
        &&& self.frame == k
        &&& self.under_way()
        &&& self.ghosts == model::housed_ghosts((10, 12), 0)
        &&& self.global_pause_until == 180
        &&& self.countdown_until == 180
        &&& self.power_until == 0
        &&& self.player.pos == (9int, 18int)
        &&& self.remaining_pellets == 191
        &&& self.ghost_spawn == (10int, 12int)
        &&& self.score == 0
        &&& self.spare() == 3
    }

    proof fn a_game_opens(best_score: int)
        ensures
            GameView::blank(best_score).run_started().opening(0),
    {
        let blank = GameView::blank(best_score);
        soundness::none_eaten_counts_zero();
        blank.run_start_is_valid();
        blank.what_a_new_run_takes_over();
        blank.a_new_run_starts_from_scratch();
        reveal(GameView::run_started);
        maze::native_layout_is_valid();
        GameView { maze: maze::native_maze(), ..blank }.native_places();
    }

    proof fn the_countdown_goes_on(self, k: int, input: Input)
        requires
            self.opening(k),
            0 <= k < 180,
            input != Input::Restart,
        ensures
            self.ticked(input).opening(k + 1),
    {
        self.tick_is_valid(input);
        reveal(GameView::input_taken);
        reveal(GameView::played);
        reveal(GameView::player_updated);
        reveal(GameView::ghosts_updated);
        let ready = self.input_taken(input).info_checked();
        let checked = ready.power_checked().fruit_checked();
        assert(checked.player_updated() == checked);
        let calm = checked.moods_updated();
        assert(calm.ghosts =~= self.ghosts);
        calm.housed_ghosts_wait(0);
    }

    proof fn the_countdown_runs(best_score: int, inputs: Seq<Input>)
        requires
            inputs.len() <= 180,
            forall|i: int| 0 <= i < inputs.len() ==> #[trigger] inputs[i] != Input::Restart,
        ensures
            GameView::blank(best_score).run_started().after(inputs).opening(inputs.len() as int),
        decreases inputs.len(),
    {
        if inputs.len() == 0 {
            GameView::a_game_opens(best_score);
        } else {
            GameView::the_countdown_runs(best_score, inputs.drop_last());
            assert(inputs.last() == inputs[inputs.len() - 1]);
            GameView::blank(best_score).run_started().after(
                inputs.drop_last(),
            ).the_countdown_goes_on(inputs.len() - 1, inputs.last());
        }
    }

    /// Ghosts that may leave and meet nobody all come out, one after the other.
    proof fn all_come_out(self, i: int)
        requires
            self.wf(),
            self.phase == Phase::Playing,
            0 <= i <= 4,
            self.frame >= self.global_pause_until,
            self.player.pos != (10int, 12int),
            forall|j: int|
                0 <= j < 4 ==> (#[trigger] self.ghosts[j]).pos == (10int, 12int)
                    && self.ghosts[j].release_at <= self.frame && self.ghosts[j].state
                    != GhostState::Eyes && (j < i <==> self.ghosts[j].state != GhostState::House),
        ensures
            ({
                let next = self.moved_from(i);
                &&& next.phase == Phase::Playing
                &&& next.spare() == self.spare()
                &&& forall|j: int|
                    0 <= j < 4 ==> (#[trigger] next.ghosts[j]).pos == (10int, 12int) && (
                    next.ghosts[j].state == GhostState::Normal || next.ghosts[j].state
                        == GhostState::Frightened)
            }),
        decreases 4 - i,
    {
        if i < 4 {
            let moved = self.ghost_moved(i);
            self.ghosts_leave_the_house_on_time(i);
            self.ghost_moves_disturb_nobody(i);
            self.ghost_move_is_valid(i);
            assert(moved.ghosts[i].release_at == self.ghosts[i].release_at) by {
                reveal(GameView::ghost_moved);
            }
            assert(moved.met(i) == moved) by {
                reveal(GameView::met);
            }
            assert forall|j: int| 0 <= j < 4 implies (#[trigger] moved.ghosts[j]).pos == (
                10int,
                12int,
            ) && moved.ghosts[j].release_at <= moved.frame && moved.ghosts[j].state
                != GhostState::Eyes && (j < i + 1 <==> moved.ghosts[j].state
                != GhostState::House) by {
                if j != i {
                    assert(moved.ghosts[j] == self.ghosts[j]);
                }
            }
            moved.all_come_out(i + 1);
        } else {
            assert forall|j: int| 0 <= j < 4 implies (#[trigger] self.ghosts[j]).pos == (
                10int,
                12int,
            ) && (self.ghosts[j].state == GhostState::Normal || self.ghosts[j].state
                == GhostState::Frightened) by {}
        }
    }

    /// In every game all four ghosts are out of the house after the 180 frames of
    /// the countdown and one more, whatever is pressed short of a restart.
    pub proof fn the_ghosts_come_out_after_the_countdown(best_score: int, inputs: Seq<Input>)
        requires
            inputs.len() == 181,
            forall|i: int| 0 <= i < inputs.len() ==> #[trigger] inputs[i] != Input::Restart,
        ensures
            forall|i: int|
                0 <= i < 4 ==> (#[trigger] GameView::blank(best_score).run_started().after(
                    inputs,
                ).ghosts[i]).state != GhostState::House,
    {
        let start = GameView::blank(best_score).run_started();
        GameView::the_countdown_runs(best_score, inputs.drop_last());
        let before = start.after(inputs.drop_last());
        let input = inputs.last();
        assert(input == inputs[180]);
        before.frame_splits(input);
        let ready = before.input_taken(input).info_checked().power_checked().fruit_checked();
        let stepped = ready.player_updated();
        assert(ready.ghosts =~= before.ghosts && ready.remaining_pellets == 191
            && ready.player.pos == before.player.pos && ready.ghost_spawn == before.ghost_spawn)
            by {
            reveal(GameView::input_taken);
        }
        reveal(GameView::player_updated);
        reveal(GameView::cell_consumed);
        ready.player_step_is_valid();
        let m = ready.player_stepped();
        maze::native_layout_is_valid();
        conduct::steps_lead_beside(ready.player.pos, ready.player.next_dir);
        conduct::steps_lead_beside(ready.player.pos, ready.player.dir);
        assert(m.level == before.level);
        assert forall|j: int| 0 <= j < 4 implies (#[trigger] m.ghosts[j]).pos == (10int, 12int)
            && m.ghosts[j].release_at == 0 && m.ghosts[j].state == GhostState::House by {
            assert(before.ghosts[j] == model::housed_ghosts((10, 12), 0)[j]);
        }
        assert(m.player.pos != (10int, 12int));
        m.nobody_is_met(0);
        assert(stepped == m);
        let calm = stepped.moods_updated();
        stepped.moods_are_valid();
        calm.all_come_out(0);
        reveal(GameView::ghosts_updated);
    }

    proof fn nobody_is_met(self, i: int)
        requires
            0 <= i <= 4,
            forall|j: int| 0 <= j < 4 ==> (#[trigger] self.ghosts[j]).state == GhostState::House,
        ensures
            self.met_from(i) == self,
        decreases 4 - i,
    {
        if i < 4 {
            assert(self.ghosts[i].state == GhostState::House);
            assert(self.met(i) == self) by {
                reveal(GameView::met);
            }
            self.nobody_is_met(i + 1);
        }
    }
}

// ---- distances -----------------------------------------------------------

/// One step changes the distance to a cell by one at most: from no neighbour is it
/// nearer by more than a step.
pub proof fn no_neighbour_is_much_nearer(p: Spot, q: Spot, d: Dir)
    requires
        passable(p),
        passable(conduct::beside(p, d.offset())),
        walk::reaches(
            maze::native_layout(),
            Passage::Walkable,
            conduct::beside(p, d.offset()),
            q,
        ),
    ensures
        model::ghost_distance(maze::native_layout(), p, q) <= 1 + model::ghost_distance(
            maze::native_layout(),
            conduct::beside(p, d.offset()),
            q,
        ),
{
    let l = maze::native_layout();
    maze::native_layout_is_valid();
    let n = conduct::beside(p, d.offset());
    conduct::steps_lead_beside(p, d);
    laws::has_distance(l, Passage::Walkable, n, q);
    let m = walk::distance(l, Passage::Walkable, n, q);
    let w = choose|w: Seq<Dir>| #[trigger]
        walk::leads(l, Passage::Walkable, n, q, w) && w.len() == m;
    let first = seq![d];
    assert(first.drop_last() =~= Seq::<Dir>::empty());
    assert(walk::walk_end(l, p, first.drop_last()) == p);
    assert(walk::walk_end(l, p, first) == n);
    assert(walk::is_walk(l, Passage::Walkable, p, first.drop_last()));
    assert(walk::is_walk(l, Passage::Walkable, p, first));
    walk::walks_join(l, Passage::Walkable, p, first, w);
    assert(walk::leads(l, Passage::Walkable, p, q, first + w));
    laws::has_distance(l, Passage::Walkable, p, q);
    laws::only_the_same_cell_is_at_distance_zero(l, n, q);
    if n == q {
        assert(walk::leads(l, Passage::Walkable, n, q, Seq::<Dir>::empty()));
        assert(m == 0);
    }
}

/// From every other cell that reaches it, some neighbour is one step nearer.
pub proof fn some_neighbour_is_one_step_nearer(p: Spot, q: Spot)
    requires
        passable(p),
        p != q,
        walk::reaches(maze::native_layout(), Passage::Walkable, p, q),
    ensures
        exists|d: Dir| #[trigger]
            passable(conduct::beside(p, d.offset())) && model::ghost_distance(
                maze::native_layout(),
                conduct::beside(p, d.offset()),
                q,
            ) == model::ghost_distance(maze::native_layout(), p, q) - 1,
{
    let l = maze::native_layout();
    maze::native_layout_is_valid();
    laws::has_distance(l, Passage::Walkable, p, q);
    let m = walk::distance(l, Passage::Walkable, p, q);
    let w = choose|w: Seq<Dir>| #[trigger]
        walk::leads(l, Passage::Walkable, p, q, w) && w.len() == m;
    assert(w.len() > 0);
    let d = w[0];
    let first = seq![d];
    let rest = w.skip(1);
    assert(first + rest =~= w);
    walk::walks_join(l, Passage::Walkable, p, first, rest);
    assert(first.drop_last() =~= Seq::<Dir>::empty());
    assert(walk::walk_end(l, p, first.drop_last()) == p);
    let n = walk::walk_end(l, p, first);
    assert(n == l.step(p, d));
    assert(l.admits(Passage::Walkable, n));
    conduct::steps_lead_beside(p, d);
    assert(n == conduct::beside(p, d.offset()));
    assert(walk::leads(l, Passage::Walkable, n, q, rest));
    laws::has_distance(l, Passage::Walkable, n, q);
    if n == q {
        assert(walk::leads(l, Passage::Walkable, n, q, Seq::<Dir>::empty()));
    }
    assert(walk::distance(l, Passage::Walkable, n, q) <= m - 1);
    no_neighbour_is_much_nearer(p, q, d);
    assert(passable(conduct::beside(p, d.offset())));
}

// ---- the nearest free cell -----------------------------------------------

/// Among walks of one length there is a first one.
proof fn first_of_one_length(p: spec_fn(Seq<Dir>) -> bool, w: Seq<Dir>) -> (u: Seq<Dir>)
    requires
        p(w),
    ensures
        p(u),
        u.len() == w.len(),
        forall|v: Seq<Dir>| #[trigger]
            p(v) && v.len() == w.len() ==> u == v || walk::earlier_turn(u, v),
    decreases w.len(),
{
    if w.len() == 0 {
        assert forall|v: Seq<Dir>| #[trigger] p(v) && v.len() == w.len() implies w == v
            || walk::earlier_turn(w, v) by {
            assert(v =~= w);
        }
        w
    } else {
        let q = |front: Seq<Dir>| exists|d: Dir| p(#[trigger] front.push(d));
        assert(w.drop_last().push(w.last()) =~= w);
        assert(q(w.drop_last()));
        let front = first_of_one_length(q, w.drop_last());
        let some = choose|d: Dir| p(#[trigger] front.push(d));
        let d = if p(front.push(Dir::Up)) {
            Dir::Up
        } else if p(front.push(Dir::Left)) {
            Dir::Left
        } else if p(front.push(Dir::Down)) {
            Dir::Down
        } else {
            Dir::Right
        };
        assert(p(front.push(some)));
        let u = front.push(d);
        assert(p(u));
        assert forall|v: Seq<Dir>| #[trigger] p(v) && v.len() == w.len() implies u == v
            || walk::earlier_turn(u, v) by {
            assert(v.drop_last().push(v.last()) =~= v);
            assert(q(v.drop_last()));
            assert(u.drop_last() =~= front);
            assert(u.last() == d);
            if v.drop_last() == front {
                assert(p(front.push(v.last())));
                if v.last() == d {
                    assert(u =~= v);
                }
            }
        }
        u
    }
}

/// If some walk leads to a free cell, one of them comes first.
proof fn a_first_walk_exists(l: Layout, from: Spot, w: Seq<Dir>) -> (u: Seq<Dir>)
    requires
        walk::leads_to_open(l, from, w),
    ensures
        walk::is_first_to_open(l, from, u),
    decreases w.len(),
{
    if exists|v: Seq<Dir>| #[trigger] walk::leads_to_open(l, from, v) && v.len() < w.len() {
        let v = choose|v: Seq<Dir>| #[trigger]
            walk::leads_to_open(l, from, v) && v.len() < w.len();
        a_first_walk_exists(l, from, v)
    } else {
        let p = |v: Seq<Dir>| walk::leads_to_open(l, from, v);
        let u = first_of_one_length(p, w);
        assert(walk::leads_to_open(l, from, u));
        assert forall|other: Seq<Dir>| #[trigger] walk::leads_to_open(l, from, other) implies
            walk::at_or_before(u, other) by {
            assert(p(other));
        }
        u
    }
}

/// An earlier walk turns the way that is tried first where the two part.
proof fn earlier_walks_part_early(a: Seq<Dir>, b: Seq<Dir>) -> (k: int)
    requires
        walk::earlier_turn(a, b),
    ensures
        a.len() == b.len(),
        0 <= k < a.len(),
        a.take(k) == b.take(k),
        tried(a[k]) < tried(b[k]),
    decreases a.len(),
{
    if walk::earlier_turn(a.drop_last(), b.drop_last()) {
        let k = earlier_walks_part_early(a.drop_last(), b.drop_last());
        assert(a.take(k) =~= a.drop_last().take(k));
        assert(b.take(k) =~= b.drop_last().take(k));
        k
    } else {
        let k = a.len() - 1;
        assert(a.take(k) =~= a.drop_last());
        assert(b.take(k) =~= b.drop_last());
        k
    }
}

/// The nearest free cell is free, no walk to a free cell is shorter than the one
/// that leads there, and one that is as long turns off later in the order up, left,
/// down, right.
pub proof fn the_nearest_free_cell(l: Layout, from: Spot, other: Seq<Dir>)
    requires
        l.in_bounds(from),
        walk::is_walk(l, Passage::Anywhere, from, other),
        l.open_to_player(walk::walk_end(l, from, other)),
    ensures
        l.open_to_player(walk::nearest_open(l, from)),
        exists|way: Seq<Dir>| #[trigger]
            walk::is_walk(l, Passage::Anywhere, from, way) && walk::walk_end(l, from, way)
                == walk::nearest_open(l, from) && (way.len() < other.len() || way == other || (
            way.len() == other.len() && exists|k: int|
                0 <= k < way.len() && #[trigger] way.take(k) == other.take(k) && tried(way[k])
                    < tried(other[k]))),
{
    assert(walk::leads_to_open(l, from, other));
    let way = a_first_walk_exists(l, from, other);
    walk::nearest_open_is(l, from, way);
    assert(walk::at_or_before(way, other));
    if way != other && way.len() >= other.len() {
        let k = earlier_walks_part_early(way, other);
        assert(way.take(k) == other.take(k));
    }
    assert(walk::is_walk(l, Passage::Anywhere, from, way));
}

} // verus!
