//! What the game promises as a whole, as theorems about its model.

use vstd::prelude::*;

use crate::{ledger, maze, model, rules, soundness, walk};
use crate::maze::{Layout, Pellet, Spot, NATIVE_TEMPLATE};
use crate::model::{GameView, GhostView};
use crate::rules::{Banner, BannerColor, GhostState, Input, Phase};
use crate::walk::{Dir, Passage, DIRS};

verus! {

// ---- the board -----------------------------------------------------------

/// The board is the template laid on its side: row `r`, column `c` of the board
/// is character `r` of template row `c`. So a cell is walkable on the board
/// exactly when its character in the template is no wall.
pub proof fn board_is_the_template_on_its_side(r: int, c: int)
    requires
        0 <= r < 21,
        0 <= c < 26,
    ensures
        NATIVE_TEMPLATE@[c]@.len() == 21,
        maze::native_layout().at((r, c)) == NATIVE_TEMPLATE@[c]@[r],
        maze::native_layout().walkable((r, c)) <==> !maze::is_wall_char(NATIVE_TEMPLATE@[c]@[r]),
        maze::native_maze().pellets[r][c] == maze::seeded(NATIVE_TEMPLATE@[c]@[r]),
{
    reveal(maze::native_layout);
    reveal(maze::native_maze);
    maze::template_marks(r, c);
}

/// A step in the template: the mirrored direction, and round the sides in the
/// row of the tunnel.
pub open spec fn template_step(p: Spot, d: Dir) -> Spot {
    let row = p.0 + d.offset().1;
    let col = p.1 + d.offset().0;
    if row == 12 && col < 0 {
        (12, 20)
    } else if row == 12 && col >= 21 {
        (12, 0)
    } else {
        (row, col)
    }
}

/// Whether a place of the template is there and no wall.
pub open spec fn template_open(p: Spot) -> bool {
    0 <= p.0 < 26 && 0 <= p.1 < 21 && !maze::is_wall_char(NATIVE_TEMPLATE@[p.0]@[p.1])
}

/// Laying the template on its side keeps its ways: a step leads on from a cell
/// of the board exactly when the mirrored step leads on from its place in the
/// template, and it leads to the mirrored place.
pub proof fn board_keeps_the_ways_of_the_template(p: Spot, d: Dir)
    requires
        0 <= p.0 < 21,
        0 <= p.1 < 26,
    ensures
        ({
            let l = maze::native_layout();
            let q = template_step((p.1, p.0), d);
            &&& l.walkable(l.step(p, d)) <==> template_open(q)
            &&& template_open(q) ==> l.step(p, d) == (q.1, q.0)
        }),
{
    maze::native_layout_is_valid();
    let l = maze::native_layout();
    let q = template_step((p.1, p.0), d);
    if 0 <= q.0 < 26 && 0 <= q.1 < 21 {
        board_is_the_template_on_its_side(q.1, q.0);
    }
}

/// The board has exactly one door cell and exactly one mouth of either kind.
pub proof fn door_and_mouths_are_unique(r: int, c: int)
    requires
        0 <= r < 21,
        0 <= c < 26,
    ensures
        maze::native_layout().door((r, c)) <==> (r, c) == (10int, 11int),
        maze::native_layout().at((r, c)) == maze::TUNNEL_LEFT <==> (r, c)
            == maze::native_layout().tunnel_left,
        maze::native_layout().at((r, c)) == maze::TUNNEL_RIGHT <==> (r, c)
            == maze::native_layout().tunnel_right,
{
    reveal(maze::native_layout);
    maze::template_marks(r, c);
}

/// The tunnel works both ways: from the left mouth a step up leads to the right
/// mouth, and from there a step down leads back.
pub proof fn tunnel_is_two_way()
    ensures
        ({
            let l = maze::native_layout();
            &&& l.step(l.tunnel_left, Dir::Up) == l.tunnel_right
            &&& l.step(l.tunnel_right, Dir::Down) == l.tunnel_left
            &&& l.open_to_player(l.tunnel_left)
            &&& l.open_to_player(l.tunnel_right)
        }),
{
    maze::native_layout_is_valid();
    reveal(maze::native_layout);
    reveal_strlit("<    ·  ║   ║  ·    >");
    assert(maze::native_layout().at((0, 12)) == '<');
    assert(maze::native_layout().at((20, 12)) == '>');
}

/// Everywhere but at a tunnel mouth, the opposite step undoes a step.
pub proof fn opposite_step_undoes(l: Layout, p: Spot, d: Dir)
    requires
        l.in_bounds(p),
        l.in_bounds((p.0 + d.offset().0, p.1 + d.offset().1)),
    ensures
        l.step(l.step(p, d), d.reversed()) == p,
        d.reversed().reversed() == d,
{
}

/// Doors stop players only: where a player may go a ghost may go too, and the
/// cells where only ghosts go are exactly the doors.
pub proof fn doors_stop_players_only(l: Layout, p: Spot)
    ensures
        l.open_to_player(p) ==> l.walkable(p),
        l.walkable(p) && !l.open_to_player(p) <==> l.door(p),
{
    assert(!maze::is_wall_char(maze::DOOR));
}

// ---- distances -----------------------------------------------------------

/// A cell is at distance nothing from itself and from no other cell.
pub proof fn only_the_same_cell_is_at_distance_zero(l: Layout, from: Spot, to: Spot)
    ensures
        model::ghost_distance(l, from, to) == 0 <==> from == to,
{
    if from != to && l.in_bounds(from) && walk::reaches(l, Passage::Walkable, from, to) {
        has_distance(l, Passage::Walkable, from, to);
        let n = walk::distance(l, Passage::Walkable, from, to);
        let w = choose|w: Seq<Dir>| #[trigger]
            walk::leads(l, Passage::Walkable, from, to, w) && w.len() == n;
        assert(w.len() > 0);
    }
}

/// A cell that can be reached has a distance.
pub proof fn has_distance(l: Layout, passage: Passage, from: Spot, to: Spot)
    requires
        walk::reaches(l, passage, from, to),
    ensures
        walk::is_distance(l, passage, from, to, walk::distance(l, passage, from, to)),
{
    let w = choose|w: Seq<Dir>| walk::leads(l, passage, from, to, w);
    shortest_exists(l, passage, from, to, w);
}

proof fn shortest_exists(l: Layout, passage: Passage, from: Spot, to: Spot, w: Seq<Dir>)
    requires
        walk::leads(l, passage, from, to, w),
    ensures
        exists|n: int| walk::is_distance(l, passage, from, to, n),
    decreases w.len(),
{
    if exists|v: Seq<Dir>| #[trigger] walk::leads(l, passage, from, to, v) && v.len() < w.len() {
        let v = choose|v: Seq<Dir>| #[trigger]
            walk::leads(l, passage, from, to, v) && v.len() < w.len();
        shortest_exists(l, passage, from, to, v);
    } else {
        assert(walk::is_distance(l, passage, from, to, w.len() as int));
    }
}

/// One step takes a walker no more than one step further: what lies one step
/// beyond a cell at distance `n` is at distance `n + 1` or less.
pub proof fn one_step_is_one_further(l: Layout, from: Spot, via: Spot, d: Dir)
    requires
        walk::reaches(l, Passage::Walkable, from, via),
        l.walkable(l.step(via, d)),
    ensures
        walk::reaches(l, Passage::Walkable, from, l.step(via, d)),
        walk::distance(l, Passage::Walkable, from, l.step(via, d)) <= walk::distance(
            l,
            Passage::Walkable,
            from,
            via,
        ) + 1,
{
    let to = l.step(via, d);
    has_distance(l, Passage::Walkable, from, via);
    let n = walk::distance(l, Passage::Walkable, from, via);
    let w = choose|w: Seq<Dir>| #[trigger]
        walk::leads(l, Passage::Walkable, from, via, w) && w.len() == n;
    walk::walk_extends(l, Passage::Walkable, from, w, d);
    assert(walk::leads(l, Passage::Walkable, from, to, w.push(d)));
    has_distance(l, Passage::Walkable, from, to);
}

/// On the board the distance to a cell is 9999 exactly when no way leads there;
/// every real distance is less than the number of cells.
pub proof fn only_unreachable_cells_are_9999_away(from: Spot, to: Spot)
    requires
        maze::native_layout().in_bounds(from),
    ensures
        model::ghost_distance(maze::native_layout(), from, to) == 9999 <==> !walk::reaches(
            maze::native_layout(),
            Passage::Walkable,
            from,
            to,
        ),
        walk::reaches(maze::native_layout(), Passage::Walkable, from, to)
            ==> model::ghost_distance(maze::native_layout(), from, to) < 546,
{
    let l = maze::native_layout();
    if from == to {
        assert(walk::leads(l, Passage::Walkable, from, to, Seq::<Dir>::empty()));
    } else if walk::reaches(l, Passage::Walkable, from, to) {
        maze::native_layout_is_valid();
        shortest_walks_fit(l, Passage::Walkable, from, to);
    }
}

/// A shortest walk enters no cell twice, so it has fewer steps than the grid has
/// cells.
proof fn shortest_walks_fit(l: Layout, passage: Passage, from: Spot, to: Spot)
    requires
        l.rows >= 0,
        l.cols >= 0,
        l.in_bounds(from),
        walk::reaches(l, passage, from, to),
    ensures
        walk::distance(l, passage, from, to) < l.rows * l.cols,
{
    has_distance(l, passage, from, to);
    let n = walk::distance(l, passage, from, to);
    let w = choose|w: Seq<Dir>| #[trigger] walk::leads(l, passage, from, to, w) && w.len() == n;
    let cells = Seq::new((n + 1) as nat, |i: int| walk::walk_end(l, from, w.take(i)));
    assert forall|i: int| 0 <= i < cells.len() implies l.in_bounds(#[trigger] cells[i]) by {
        assert(w.take(i) + w.skip(i) =~= w);
        walk::walks_join(l, passage, from, w.take(i), w.skip(i));
    }
    assert forall|i: int, j: int| 0 <= i < j < cells.len() implies #[trigger] cells[i]
        != #[trigger] cells[j] by {
        assert(w.take(j) + w.skip(j) =~= w);
        assert(w.take(i) + w.skip(i) =~= w);
        walk::walks_join(l, passage, from, w.take(j), w.skip(j));
        walk::walks_join(l, passage, from, w.take(i), w.skip(i));
        if cells[i] == cells[j] {
            walk::walks_join(l, passage, from, w.take(i), w.skip(j));
            assert(walk::leads(l, passage, from, to, w.take(i) + w.skip(j)));
        }
    }
    walk::distinct_cells_fit(l, cells);
}

/// On the board every step that leads to a walkable cell can be taken back.
pub proof fn steps_can_be_taken_back(p: Spot, d: Dir)
    requires
        maze::native_layout().in_bounds(p),
        maze::native_layout().walkable(maze::native_layout().step(p, d)),
    ensures
        maze::native_layout().step(maze::native_layout().step(p, d), d.reversed()) == p,
{
    maze::native_layout_is_valid();
}

/// The way back: the steps of a walk taken back from the last to the first.
pub open spec fn way_back(walk: Seq<Dir>) -> Seq<Dir>
    decreases walk.len(),
{
    if walk.len() == 0 {
        walk
    } else {
        seq![walk.last().reversed()] + way_back(walk.drop_last())
    }
}

/// On the board the way back leads from the end of a walk to its start.
pub proof fn ways_lead_back(from: Spot, to: Spot, walk: Seq<Dir>)
    requires
        maze::native_layout().walkable(from),
        walk::leads(maze::native_layout(), Passage::Walkable, from, to, walk),
    ensures
        walk::leads(maze::native_layout(), Passage::Walkable, to, from, way_back(walk)),
        way_back(walk).len() == walk.len(),
    decreases walk.len(),
{
    let l = maze::native_layout();
    if walk.len() > 0 {
        let mid = walk::walk_end(l, from, walk.drop_last());
        let back = walk.last().reversed();
        ways_lead_back(from, mid, walk.drop_last());
        assert(walk::is_walk(l, Passage::Walkable, from, walk.drop_last()));
        if walk.drop_last().len() == 0 {
            assert(mid == from);
        } else {
            assert(l.admits(Passage::Walkable, mid));
        }
        steps_can_be_taken_back(mid, walk.last());
        let first = seq![back];
        assert(first.drop_last() =~= Seq::<Dir>::empty());
        assert(walk::walk_end(l, to, first.drop_last()) == to);
        assert(walk::walk_end(l, to, first) == mid);
        assert(walk::is_walk(l, Passage::Walkable, to, first.drop_last()));
        assert(walk::is_walk(l, Passage::Walkable, to, first));
        walk::walks_join(l, Passage::Walkable, to, first, way_back(walk.drop_last()));
    }
}

/// Between two walkable cells of the board it is as far one way as the other.
pub proof fn distance_is_symmetric(a: Spot, b: Spot)
    requires
        maze::native_layout().walkable(a),
        maze::native_layout().walkable(b),
    ensures
        model::ghost_distance(maze::native_layout(), a, b) == model::ghost_distance(
            maze::native_layout(),
            b,
            a,
        ),
{
    no_farther_back(a, b);
    no_farther_back(b, a);
}

proof fn no_farther_back(a: Spot, b: Spot)
    requires
        maze::native_layout().walkable(a),
    ensures
        walk::reaches(maze::native_layout(), Passage::Walkable, a, b) ==> walk::reaches(
            maze::native_layout(),
            Passage::Walkable,
            b,
            a,
        ) && walk::distance(maze::native_layout(), Passage::Walkable, b, a) <= walk::distance(
            maze::native_layout(),
            Passage::Walkable,
            a,
            b,
        ),
{
    let l = maze::native_layout();
    if walk::reaches(l, Passage::Walkable, a, b) {
        has_distance(l, Passage::Walkable, a, b);
        let n = walk::distance(l, Passage::Walkable, a, b);
        let w = choose|w: Seq<Dir>| #[trigger]
            walk::leads(l, Passage::Walkable, a, b, w) && w.len() == n;
        ways_lead_back(a, b, w);
        assert(walk::leads(l, Passage::Walkable, b, a, way_back(w)));
        has_distance(l, Passage::Walkable, b, a);
    }
}

// ---- chance --------------------------------------------------------------

/// The generator never gets stuck at zero, and never takes two states to one.
pub proof fn xorshift_loses_nothing(x: u64, y: u64)
    ensures
        x != 0 ==> rules::xorshift(x) != 0,
        x != y ==> rules::xorshift(x) != rules::xorshift(y),
{
    xorshift_injective(x, y);
    xorshift_injective(x, 0);
    assert(rules::xorshift(0) == 0) by {
        assert(0u64 ^ (0u64 << 13u64) == 0u64) by (bit_vector);
        assert(0u64 ^ (0u64 >> 7u64) == 0u64) by (bit_vector);
        assert(0u64 ^ (0u64 << 17u64) == 0u64) by (bit_vector);
    }
}

proof fn xorshift_injective(x: u64, y: u64)
    ensures
        rules::xorshift(x) == rules::xorshift(y) ==> x == y,
{
    let a = x ^ (x << 13u64);
    let b = y ^ (y << 13u64);
    let c = a ^ (a >> 7u64);
    let d = b ^ (b >> 7u64);
    assert(x ^ (x << 13u64) == y ^ (y << 13u64) ==> x == y) by (bit_vector);
    assert(a ^ (a >> 7u64) == b ^ (b >> 7u64) ==> a == b) by (bit_vector);
    assert(c ^ (c << 17u64) == d ^ (d << 17u64) ==> c == d) by (bit_vector);
}

/// What can happen to a game from outside: a frame with its input, or points.
pub enum Event {
    Frame(Input),
    Points(nat),
}

/// The points in a list of events.
pub open spec fn points_given(events: Seq<Event>) -> int
    decreases events.len(),
{
    if events.len() == 0 {
        0
    } else {
        points_given(events.drop_last()) + match events.last() {
            Event::Frame(_) => 0int,
            Event::Points(delta) => delta as int,
        }
    }
}

impl GameView {
    // ---- runs ------------------------------------------------------------

    /// The game after a list of frames.
    pub open spec fn after(self, inputs: Seq<Input>) -> GameView
        decreases inputs.len(),
    {
        if inputs.len() == 0 {
            self
        } else {
            self.after(inputs.drop_last()).ticked(inputs.last())
        }
    }

    /// Whatever a player does, a game that started from a new one stays valid,
    /// its counters agree, its clock shows the number of frames, and it never
    /// scores more than 384400 points in a run.
    pub proof fn every_game_stays_in_bounds(best_score: int, inputs: Seq<Input>)
        ensures
            ({
                let end = GameView::blank(best_score).run_started().after(inputs);
                &&& end.wf()
                &&& end.consistent()
                &&& end.frame == inputs.len()
                &&& 0 <= end.score <= 384_400
                &&& end.lives <= 4
                &&& end.best_score >= best_score
            }),
        decreases inputs.len(),
    {
        let start = GameView::blank(best_score).run_started();
        GameView::new_game_is_consistent(best_score);
        if inputs.len() == 0 {
            soundness::none_eaten_counts_zero();
            GameView::blank(best_score).run_start_is_valid();
            GameView::blank(best_score).run_start_history(0);
            start.points_are_limited();
        } else {
            let before = start.after(inputs.drop_last());
            GameView::every_game_stays_in_bounds(best_score, inputs.drop_last());
            before.tick_is_valid(inputs.last());
            before.tick_keeps_history(inputs.last());
            before.ticked(inputs.last()).points_are_limited();
        }
    }

    /// The game after a list of frames and points.
    pub open spec fn through(self, events: Seq<Event>) -> GameView
        decreases events.len(),
    {
        if events.len() == 0 {
            self
        } else {
            let before = self.through(events.drop_last());
            match events.last() {
                Event::Frame(input) => before.ticked(input),
                Event::Points(delta) => before.with_points(delta as int),
            }
        }
    }

    /// Whether none of the points in the list bring a life to a run that is lost.
    pub open spec fn never_revives(self, events: Seq<Event>) -> bool
        decreases events.len(),
    {
        events.len() == 0 || (self.never_revives(events.drop_last()) && (events.last() matches
            Event::Points(delta) ==> !self.through(events.drop_last()).revives(delta as int)))
    }

    /// Whatever frames and points come in what order, as long as no points bring
    /// a life to a run that is lost: the game stays valid, a run is lost exactly
    /// when no life is left, a won run is on level 20 with an empty board, the
    /// pellet counter is exact, and no run scores more than 384400 points besides
    /// those that were given.
    pub proof fn every_game_with_points_stays_in_order(best_score: int, events: Seq<Event>)
        requires
            GameView::blank(best_score).run_started().never_revives(events),
        ensures
            ({
                let end = GameView::blank(best_score).run_started().through(events);
                &&& end.wf()
                &&& end.consistent_with(points_given(events))
                &&& end.phase == Phase::Lost <==> end.lives == 0
                &&& end.phase == Phase::Won ==> end.level == 20 && maze::pellets_on(
                    end.maze.pellets,
                ) == 0
                &&& end.remaining_pellets == maze::pellets_on(end.maze.pellets)
                &&& 0 <= end.score <= 384_400 + points_given(events)
                &&& end.frame >= 0
            }),
        decreases events.len(),
    {
        let start = GameView::blank(best_score).run_started();
        if events.len() == 0 {
            GameView::new_game_is_consistent(best_score);
            soundness::none_eaten_counts_zero();
            GameView::blank(best_score).run_start_is_valid();
        } else {
            GameView::every_game_with_points_stays_in_order(best_score, events.drop_last());
            let before = start.through(events.drop_last());
            let given = points_given(events.drop_last());
            match events.last() {
                Event::Frame(input) => {
                    before.tick_is_valid(input);
                    before.tick_keeps_counters(input, given);
                },
                Event::Points(delta) => {
                    before.points_keep_counters(delta as int, given);
                },
            }
        }
        let end = start.through(events);
        reveal(GameView::consistent_with);
        soundness::flag_down(end.power_eaten, 0, 4);
        ledger::worth_is_not_negative(end.maze.pellets, end.maze.pellets.len() as int);
    }

    /// A valid game whose counters agree has at most 384400 points.
    pub proof fn points_are_limited(self)
        requires
            self.wf(),
            self.consistent(),
        ensures
            0 <= self.score <= 384_400,
    {
        reveal(GameView::consistent_with);
        soundness::flag_down(self.power_eaten, 0, 4);
        ledger::worth_is_not_negative(self.maze.pellets, self.maze.pellets.len() as int);
    }

    /// The counter of pellets is the number of pellets on the board.
    pub proof fn pellet_counter_is_exact(self)
        requires
            self.consistent(),
        ensures
            self.remaining_pellets == maze::pellets_on(self.maze.pellets),
    {
        reveal(GameView::consistent_with);
    }

    /// A run is over exactly when its stats are committed. It is lost exactly
    /// when no life is left; it is won only on the empty board of level 20; and
    /// the best score has then taken its score in.
    pub proof fn ended_runs_are_settled(self)
        requires
            self.consistent(),
        ensures
            self.stats_committed <==> self.phase != Phase::Playing,
            self.end_frame is Some <==> self.phase != Phase::Playing,
            self.phase == Phase::Lost <==> self.lives == 0,
            self.phase == Phase::Won ==> self.level == 20 && maze::pellets_on(self.maze.pellets)
                == 0,
            self.phase != Phase::Playing ==> self.best_score >= self.score,
    {
        reveal(GameView::consistent_with);
    }

    /// The extra life comes once: a run has had it exactly when its score has
    /// reached 100000, and with it there are never more than four lives.
    pub proof fn extra_life_comes_once(self)
        requires
            self.wf(),
            self.consistent(),
        ensures
            self.extra_life_granted <==> self.score >= 100_000,
            self.lives <= if self.score >= 100_000 {
                4int
            } else {
                3
            },
    {
        reveal(GameView::consistent_with);
    }

    /// There is at most one fruit per level.
    pub proof fn one_fruit_per_level(self)
        requires
            self.consistent(),
        ensures
            self.collected_fruits.len() <= self.level,
            self.fruit.active ==> self.collected_fruits.len() < self.level,
    {
        reveal(GameView::consistent_with);
    }

    /// Within a run no frame loses points, levels, fruits or best score.
    pub proof fn a_run_never_goes_back(self, input: Input)
        requires
            self.wf(),
            self.consistent(),
            self.frame >= 0,
            !self.restarts_on(input),
        ensures
            ({
                let next = self.ticked(input);
                &&& next.score >= self.score
                &&& next.level >= self.level
                &&& next.best_score >= self.best_score
                &&& self.collected_fruits.is_prefix_of(next.collected_fruits)
                &&& next.level == self.level ==> next.remaining_pellets <= self.remaining_pellets
            }),
    {
        self.tick_keeps_history(input);
        reveal(GameView::continues_to);
        let next = self.ticked(input);
        assert(self.collected_fruits =~= next.collected_fruits.subrange(
            0,
            self.collected_fruits.len() as int,
        ));
    }

    /// The frame that ends a run, and no other, raises the best score, to the
    /// run's score if that is higher.
    pub proof fn only_the_end_of_a_run_raises_the_best_score(self, input: Input)
        requires
            self.wf(),
            self.consistent(),
            self.frame >= 0,
            !self.restarts_on(input),
        ensures
            ({
                let next = self.ticked(input);
                &&& self.phase == Phase::Playing && next.phase != Phase::Playing ==> next.best_score
                    == if next.score > self.best_score {
                    next.score
                } else {
                    self.best_score
                }
                &&& self.phase != Phase::Playing || next.phase == Phase::Playing ==> next.best_score
                    == self.best_score
            }),
    {
        self.tick_keeps_history(input);
        reveal(GameView::continues_to);
    }

    // ---- starting and stopping -------------------------------------------

    /// A level starts with the player at row 9, column 18, all ghosts in the
    /// house at row 10, column 12, fruit due at row 10, column 14, a full board
    /// and three seconds to go. Since no track cell is empty yet, nothing is
    /// left to chance.
    pub proof fn a_level_starts_in_order(self, level: int)
        ensures
            ({
                let next = self.level_started(level);
                &&& next.player.pos == (9int, 18int)
                &&& next.ghosts == model::housed_ghosts((10, 12), self.frame)
                &&& !next.fruit.active && !next.fruit.spawned
                &&& next.fruit.pos == (10int, 14int)
                &&& next.maze == maze::native_maze()
                &&& next.remaining_pellets == 191
                &&& next.countdown_until == self.frame + 180
                &&& next.global_pause_until >= next.countdown_until
                &&& next.rng == self.rng
                &&& next.info == Banner::Ready
            }),
    {
        maze::native_layout_is_valid();
        maze::native_maze_holds_191_pellets();
        let placed = GameView {
            level,
            level_start_frame: self.frame,
            maze: maze::native_maze(),
            ..self
        };
        placed.native_places();
        let ready = GameView {
            total_pellets: 191,
            remaining_pellets: 191,
            ..placed.placed()
        }.with_entities_reset();
        ready.full_board_has_no_fruit_spots(21);
    }

    proof fn full_board_has_no_fruit_spots(self, n: int)
        requires
            self.maze == maze::native_maze(),
            0 <= n <= 21,
        ensures
            self.fruit_spots(n).len() == 0,
        decreases n,
    {
        if n > 0 {
            self.full_board_has_no_fruit_spots(n - 1);
            maze::native_layout_is_valid();
            self.full_row_has_no_fruit_spots(n - 1, 26);
        }
    }

    proof fn full_row_has_no_fruit_spots(self, r: int, n: int)
        requires
            self.maze == maze::native_maze(),
            0 <= r < 21,
            0 <= n <= 26,
        ensures
            self.fruit_spots_in_row(r, n).len() == 0,
        decreases n,
    {
        if n > 0 {
            self.full_row_has_no_fruit_spots(r, n - 1);
            maze::native_layout_is_valid();
            board_is_the_template_on_its_side(r, n - 1);
        }
    }

    /// A new run starts at level 1 with three lives, no points and no fruits,
    /// and keeps the best score.
    pub proof fn a_new_run_starts_from_scratch(self)
        ensures
            ({
                let next = self.run_started();
                &&& next.phase == Phase::Playing
                &&& next.score == 0
                &&& next.lives == 3
                &&& next.level == 1
                &&& next.collected_fruits.len() == 0
                &&& !next.extra_life_granted
                &&& !next.stats_committed
                &&& !next.confirm_restart
                &&& next.best_score == self.best_score
                &&& next.frame == self.frame
                &&& next.shown_banner() == (Banner::Countdown(3), BannerColor::Yellow)
            }),
    {
        reveal(GameView::run_started);
    }

    /// A run that is over stays on show until a restart is asked for: a frame
    /// changes nothing but the frame number.
    pub proof fn result_screen_waits(self, input: Input)
        requires
            self.consistent(),
            self.phase != Phase::Playing,
            input != Input::Restart,
            input != Input::Yes,
        ensures
            self.ticked(input) == (GameView { frame: self.frame + 1, ..self }),
            self.ticked(input).consistent(),
            self.ticked(input).shown_banner() == self.shown_banner(),
            self.ticked(input).elapsed() == self.elapsed(),
    {
        reveal(GameView::input_taken);
        reveal(GameView::played);
        reveal(GameView::consistent_with);
    }

    /// However many frames pass without a restart, a run that is over stays as
    /// it is, its banner and its time included: none starts by itself.
    pub proof fn result_screen_stays(self, inputs: Seq<Input>)
        requires
            self.consistent(),
            self.phase != Phase::Playing,
            forall|i: int|
                0 <= i < inputs.len() ==> #[trigger] inputs[i] != Input::Restart && inputs[i]
                    != Input::Yes,
        ensures
            self.after(inputs) == (GameView { frame: self.frame + inputs.len(), ..self }),
            self.after(inputs).consistent(),
            self.after(inputs).shown_banner() == self.shown_banner(),
            self.after(inputs).elapsed() == self.elapsed(),
        decreases inputs.len(),
    {
        if inputs.len() > 0 {
            self.result_screen_stays(inputs.drop_last());
            assert(inputs.last() == inputs[inputs.len() - 1]);
            self.after(inputs.drop_last()).result_screen_waits(inputs.last());
        }
    }

    /// From the result screen a restart goes straight to a new run.
    pub proof fn result_screen_restarts(self, input: Input)
        requires
            self.phase != Phase::Playing,
            input == Input::Restart || input == Input::Yes,
        ensures
            self.input_taken(input) == self.run_started(),
            self.ticked(input) == (GameView {
                frame: self.run_started().info_checked().played().frame + 1,
                ..self.run_started().info_checked().played()
            }),
    {
        reveal(GameView::input_taken);
    }

    /// Asking for a restart in the middle of a run stops play at once and asks
    /// for confirmation.
    pub proof fn restart_asks_first(self)
        requires
            self.phase == Phase::Playing,
        ensures
            self.ticked(Input::Restart) == (GameView {
                frame: self.frame + 1,
                confirm_restart: true,
                ..self.info_checked()
            }),
            self.ticked(Input::Restart).shown_banner() == (
                Banner::ConfirmRestart,
                BannerColor::Yellow,
            ),
    {
        reveal(GameView::input_taken);
        reveal(GameView::played);
    }

    /// While the question waits for its answer nothing moves; turns are still
    /// queued.
    pub proof fn play_stands_still_until_answered(self, input: Input)
        requires
            self.phase == Phase::Playing,
            self.confirm_restart,
            input != Input::Yes,
            input != Input::No,
        ensures
            ({
                let next = self.ticked(input);
                &&& next == (GameView {
                    frame: self.frame + 1,
                    player: next.player,
                    ..self.info_checked()
                })
                &&& next.player.pos == self.player.pos
                &&& next.player.dir == self.player.dir
                &&& next.player.next_step_at == self.player.next_step_at
            }),
    {
        reveal(GameView::input_taken);
        reveal(GameView::played);
    }

    /// A refused restart goes on with the run: the frame is played as if the
    /// question had not been asked.
    pub proof fn refusal_goes_on(self)
        requires
            self.phase == Phase::Playing,
        ensures
            self.ticked(Input::No) == (GameView { confirm_restart: false, ..self }).ticked(
                Input::Idle,
            ),
    {
        reveal(GameView::input_taken);
    }

    /// Both answers mean nothing where no question was asked: the frame is
    /// played as without a key.
    pub proof fn answers_need_a_question(self)
        requires
            self.phase == Phase::Playing,
            !self.confirm_restart,
        ensures
            self.ticked(Input::Yes) == self.ticked(Input::Idle),
            self.ticked(Input::No) == self.ticked(Input::Idle),
    {
        reveal(GameView::input_taken);
    }

    /// A confirmed restart starts a new run.
    pub proof fn confirmation_restarts(self)
        requires
            self.phase == Phase::Playing,
            self.confirm_restart,
        ensures
            self.input_taken(Input::Yes) == self.run_started(),
    {
        reveal(GameView::input_taken);
    }

    /// While the countdown of a fresh round runs, nobody moves and nothing is
    /// scored.
    pub proof fn nothing_moves_during_the_countdown(self, input: Input)
        requires
            self.wf(),
            self.phase == Phase::Playing,
            !self.restarts_on(input),
            self.countdown_left() > 0,
            self.frame < self.global_pause_until,
            forall|i: int| 0 <= i < 4 ==> (#[trigger] self.ghosts[i]).state == GhostState::House,
        ensures
            ({
                let next = self.ticked(input);
                &&& next.player.pos == self.player.pos
                &&& next.ghosts == self.ghosts
                &&& next.maze == self.maze
                &&& next.score == self.score
                &&& next.lives == self.lives
                &&& next.level == self.level
            }),
    {
        reveal(GameView::input_taken);
        reveal(GameView::played);
        reveal(GameView::player_updated);
        reveal(GameView::ghosts_updated);
        let ready = self.input_taken(input).info_checked();
        if !ready.confirm_restart {
            let checked = ready.power_checked().fruit_checked();
            assert(checked.ghosts =~= self.ghosts);
            assert(checked.player_updated() == checked);
            let calm = checked.moods_updated();
            assert(calm.ghosts =~= self.ghosts);
            calm.housed_ghosts_wait(0);
        }
    }

    pub(crate) proof fn housed_ghosts_wait(self, i: int)
        requires
            self.frame < self.global_pause_until,
            forall|j: int| 0 <= j < 4 ==> (#[trigger] self.ghosts[j]).state == GhostState::House,
            0 <= i,
        ensures
            self.moved_from(i) == self,
        decreases 4 - i,
    {
        if i < 4 {
            assert(self.ghosts[i].state == GhostState::House);
            assert(self.ghost_moved(i) == self) by {
                reveal(GameView::ghost_moved);
            }
            assert(self.met(i) == self) by {
                reveal(GameView::met);
            }
            self.housed_ghosts_wait(i + 1);
        }
    }

    // ---- power -----------------------------------------------------------

    /// Every frightened ghost is under the power in effect and not yet eaten in
    /// this power cycle.
    pub open spec fn fright_needs_power(self) -> bool {
        forall|i: int|
            0 <= i < 4 && (#[trigger] self.ghosts[i]).state == GhostState::Frightened
                ==> self.powered() && !self.power_eaten[i]
    }

    proof fn meeting_keeps_fright(self, i: int)
        requires
            self.wf(),
            self.fright_needs_power(),
            0 <= i < 4,
        ensures
            self.met(i).fright_needs_power(),
    {
        reveal(GameView::met);
        let next = self.met(i);
        assert(self.ghosts[i].id.place() == i);
        assert forall|j: int|
            0 <= j < 4 && (#[trigger] next.ghosts[j]).state
                == GhostState::Frightened implies next.powered() && !next.power_eaten[j] by {
            assert(self.ghosts[j].id.place() == j);
        }
    }

    proof fn ghost_move_keeps_fright(self, i: int)
        requires
            self.wf(),
            self.fright_needs_power(),
            0 <= i < 4,
        ensures
            self.ghost_moved(i).fright_needs_power(),
    {
        reveal(GameView::ghost_moved);
        reveal(GameView::ghost_stepped);
        let next = self.ghost_moved(i);
        assert forall|j: int|
            0 <= j < 4 && (#[trigger] next.ghosts[j]).state
                == GhostState::Frightened implies next.powered() && !next.power_eaten[j] by {
            assert(self.ghosts[j].id.place() == j);
        }
    }

    proof fn moves_keep_fright(self, i: int)
        requires
            self.wf(),
            self.fright_needs_power(),
            self.frame >= 0,
            0 <= i,
        ensures
            self.moved_from(i).fright_needs_power(),
        decreases 4 - i,
    {
        if i < 4 {
            let moved = self.ghost_moved(i);
            self.ghost_move_is_valid(i);
            self.ghost_move_keeps_fright(i);
            moved.meeting_is_valid(i);
            moved.meeting_keeps_fright(i);
            if moved.met(i).phase == Phase::Playing {
                moved.met(i).moves_keep_fright(i + 1);
            }
        }
    }

    /// When a frame of play is over, ghosts are frightened only by the power in
    /// effect, and never after they were eaten under it.
    pub proof fn fright_comes_from_power(self, input: Input)
        requires
            self.wf(),
            self.frame >= 0,
            self.ticked(input).phase == Phase::Playing,
            !self.ticked(input).confirm_restart,
        ensures
            forall|i: int|
                0 <= i < 4 && (#[trigger] self.ticked(input).ghosts[i]).state
                    == GhostState::Frightened ==> self.ticked(input).power_until > self.frame
                    && !self.ticked(input).power_eaten[i],
    {
        reveal(GameView::played);
        reveal(GameView::ghosts_updated);
        self.input_is_valid(input);
        let ready = self.input_taken(input).info_checked();
        ready.play_is_valid();
        ready.power_check_is_sound();
        let checked = ready.power_checked().fruit_checked();
        checked.player_update_is_valid();
        let m = checked.player_updated();
        let calm = m.moods_updated();
        m.moods_are_valid();
        assert forall|i: int|
            0 <= i < 4 && (#[trigger] calm.ghosts[i]).state
                == GhostState::Frightened implies calm.powered() && !calm.power_eaten[i] by {
            assert(m.ghosts[i].id.place() == i);
        }
        calm.moves_keep_fright(0);
        calm.moves_are_valid(0);
    }

    /// A ghost can be eaten once per power cycle: having been eaten, it is
    /// worth nothing until the next power pellet.
    pub proof fn no_ghost_is_eaten_twice(self, i: int)
        requires
            self.wf(),
            0 <= i < 4,
            self.ghosts[i].state == GhostState::Frightened,
            !self.power_eaten[i],
        ensures
            ({
                let next = self.ghost_eaten(i);
                &&& next.power_eaten[i]
                &&& next.ghosts[i].state == GhostState::Eyes
                &&& next.ghost_eaten(i) == next
                &&& next.score == self.score + rules::bounty(self.power_chain)
                &&& next.power_chain == self.power_chain + 1
            }),
    {
        assert(self.ghosts[i].id.place() == i);
    }

    /// A ghost that is not frightened cannot be eaten: nothing changes.
    pub proof fn only_frightened_ghosts_are_eaten(self, i: int)
        requires
            self.ghosts[i].state != GhostState::Frightened,
        ensures
            self.ghost_eaten(i) == self,
    {
    }

    /// After these ghosts were eaten, one after the other.
    pub open spec fn eaten_in_turn(self, order: Seq<int>) -> GameView
        decreases order.len(),
    {
        if order.len() == 0 {
            self
        } else {
            self.eaten_in_turn(order.drop_last()).ghost_eaten(order.last())
        }
    }

    /// The ghosts of a power cycle bring 200, 400, 800 and 1600 points in the
    /// order in which they are eaten, whoever they are, and so 3000 in all. Each
    /// is then only eyes and counts as eaten, and to eat it again changes
    /// nothing.
    pub proof fn a_power_cycle_brings_3000_points(self, order: Seq<int>)
        requires
            self.wf(),
            self.power_eaten == model::none_eaten(),
            order.len() <= 4,
            order.no_duplicates(),
            forall|k: int|
                0 <= k < order.len() ==> 0 <= #[trigger] order[k] < 4 && self.ghosts[order[k]].state
                    == GhostState::Frightened,
        ensures
            ({
                let next = self.eaten_in_turn(order);
                let n = order.len() as int;
                &&& n > 0 ==> next.score == self.eaten_in_turn(order.drop_last()).score
                    + seq![200int, 400, 800, 1600][n - 1]
                &&& next.score == self.score + seq![0int, 200, 600, 1400, 3000][n]
                &&& next.power_chain == n
                &&& forall|k: int|
                    0 <= k < n ==> next.ghosts[#[trigger] order[k]].state == GhostState::Eyes
                        && next.power_eaten[self.ghosts[order[k]].id.place()]
                        && next.ghost_eaten(order[k]) == next
                &&& forall|i: int|
                    0 <= i < 4 && !order.contains(i) ==> #[trigger] next.ghosts[i]
                        == self.ghosts[i] && !next.power_eaten[self.ghosts[i].id.place()]
            }),
    {
        self.power_cycle_runs(order);
    }

    proof fn power_cycle_runs(self, order: Seq<int>)
        requires
            self.wf(),
            self.power_eaten == model::none_eaten(),
            order.len() <= 4,
            order.no_duplicates(),
            forall|k: int|
                0 <= k < order.len() ==> 0 <= #[trigger] order[k] < 4 && self.ghosts[order[k]].state
                    == GhostState::Frightened,
        ensures
            ({
                let next = self.eaten_in_turn(order);
                let n = order.len() as int;
                &&& n > 0 ==> next.score == self.eaten_in_turn(order.drop_last()).score
                    + rules::bounty(n - 1)
                &&& next.score == self.score + seq![0int, 200, 600, 1400, 3000][n]
                &&& next.power_chain == n
                &&& next.ghosts.len() == 4
                &&& next.power_eaten.len() == 4
                &&& forall|i: int|
                    0 <= i < 4 ==> (#[trigger] next.ghosts[i]).id == self.ghosts[i].id && (
                    if order.contains(i) {
                        next.ghosts[i].state == GhostState::Eyes && next.power_eaten[i]
                    } else {
                        next.ghosts[i] == self.ghosts[i] && !next.power_eaten[i]
                    })
            }),
        decreases order.len(),
    {
        assert forall|i: int| 0 <= i < 4 implies (#[trigger] self.ghosts[i]).id.place() == i by {}
        if order.len() == 0 {
            soundness::none_eaten_counts_zero();
        } else {
            let before = order.drop_last();
            let i = order.last();
            assert(i == order[order.len() - 1]);
            assert(before.no_duplicates());
            assert forall|k: int| 0 <= k < before.len() implies 0 <= #[trigger] before[k] < 4
                && self.ghosts[before[k]].state == GhostState::Frightened by {
                assert(before[k] == order[k]);
            }
            self.power_cycle_runs(before);
            assert(!before.contains(i));
            assert forall|j: int| order.contains(j) <==> (before.contains(j) || j == i) by {
                if order.contains(j) && j != i {
                    let k = choose|k: int| 0 <= k < order.len() && order[k] == j;
                    assert(before[k] == j);
                }
                if before.contains(j) {
                    let k = choose|k: int| 0 <= k < before.len() && before[k] == j;
                    assert(order[k] == j);
                }
            }
        }
    }

    /// A power pellet frightens every ghost that is on its way, those eaten
    /// before included, for as long as the level says.
    pub proof fn power_frightens_all_that_are_out(self, i: int)
        requires
            0 <= i < self.ghosts.len(),
            self.ghosts[i].state == GhostState::Normal || self.ghosts[i].state
                == GhostState::Frightened,
            self.level >= 1,
        ensures
            ({
                let next = self.with_power();
                &&& next.ghosts[i].state == GhostState::Frightened
                &&& next.powered()
                &&& next.power_left() == rules::power_seconds(self.level)
                &&& next.power_eaten == model::none_eaten()
                &&& next.power_chain == 0
            }),
    {
    }

    /// After a death that does not end the run all ghosts wait in the house for
    /// four seconds at least, the player is back where the level started, and
    /// neither score nor board has changed.
    pub proof fn death_starts_the_round_over(self, i: int)
        requires
            self.wf(),
            self.frame >= 0,
            self.lives > 1,
            0 <= i < 4,
        ensures
            ({
                let next = self.life_lost();
                &&& next.lives == self.lives - 1
                &&& next.phase == self.phase
                &&& next.player.pos == self.player_start
                &&& next.ghosts[i].state == GhostState::House
                &&& next.ghosts[i].pos == self.ghost_spawn
                &&& next.ghosts[i].release_at >= self.frame + 240
                &&& next.global_pause_until == self.frame + 240
                &&& !next.powered()
                &&& next.score == self.score
                &&& next.maze == self.maze
            }),
    {
    }

    /// The four ghosts of a power cycle are worth 200, 400, 800 and 1600
    /// points: each twice the one before.
    pub proof fn bounties_double(chain: int)
        requires
            0 <= chain < 3,
        ensures
            rules::bounty(0) == 200,
            rules::bounty(chain + 1) == 2 * rules::bounty(chain),
    {
    }

    // ---- moving ghosts ---------------------------------------------------

    /// The eyes of a ghost step every eight frames, on every level and whoever
    /// they belong to.
    pub proof fn eyes_step_every_eight_frames(self, g: GhostView)
        requires
            g.state == GhostState::Eyes,
        ensures
            self.step_interval(g) == 8,
    {
        reveal(GameView::step_interval);
    }

    /// A ghost that steps goes to a walkable neighbour of its cell, in the
    /// direction it then heads in.
    pub proof fn ghosts_step_to_neighbours(self, i: int)
        requires
            self.wf(),
            0 <= i < 4,
        ensures
            ({
                let g = self.ghosts[i];
                let next = self.ghost_stepped(i).ghosts[i];
                &&& next.pos == g.pos || next.pos == self.maze.layout.step(g.pos, next.dir)
                &&& self.maze.layout.walkable(next.pos)
                &&& next.state == g.state
            }),
    {
        reveal(GameView::ghost_stepped);
        let g = self.ghosts[i];
        let l = self.maze.layout;
        let ways = model::considered(l, g.pos, g.dir);
        assert(g.id.place() == i);
        if ways.len() > 0 {
            let x = rules::xorshift(self.rng);
            soundness::considered_lead_on(l, g.pos, g.dir, x as int % ways.len() as int);
            let far = model::ways_to(l, ways, self.target_of(g));
            soundness::first_least_exists(far);
            soundness::considered_lead_on(l, g.pos, g.dir, model::first_least(far));
        }
    }

    /// A ghost turns back only at a dead end: where it has more than one way
    /// out, it does not take the one behind it.
    pub proof fn ghosts_turn_back_only_at_dead_ends(self, i: int)
        requires
            self.wf(),
            0 <= i < 4,
            model::exits(self.maze.layout, self.ghosts[i].pos, 4).len() > 1,
        ensures
            self.ghost_stepped(i).ghosts[i].dir != self.ghosts[i].dir.reversed(),
    {
        reveal(GameView::ghost_stepped);
        reveal(model::considered);
        let g = self.ghosts[i];
        let l = self.maze.layout;
        let back = g.dir.reversed();
        let all = model::exits(l, g.pos, 4);
        exits_go_different_ways(l, g.pos, 4);
        some_way_goes_on(all, back);
        let ways = model::considered(l, g.pos, g.dir);
        let x = rules::xorshift(self.rng);
        soundness::avoiding_keeps(all, back, all.len() as int, x as int % ways.len() as int);
        let far = model::ways_to(l, ways, self.target_of(g));
        soundness::first_least_exists(far);
        soundness::avoiding_keeps(all, back, all.len() as int, model::first_least(far));
    }

    /// A ghost that is not frightened takes the fastest way to its target, and
    /// the first of them if there are several.
    pub proof fn calm_ghosts_take_the_fastest_way(self, i: int, k: int)
        requires
            self.wf(),
            0 <= i < 4,
            self.ghosts[i].state != GhostState::Frightened,
            0 <= k < model::considered(
                self.maze.layout,
                self.ghosts[i].pos,
                self.ghosts[i].dir,
            ).len(),
        ensures
            ({
                let g = self.ghosts[i];
                let l = self.maze.layout;
                let target = self.target_of(g);
                let ways = model::considered(l, g.pos, g.dir);
                let next = self.ghost_stepped(i).ghosts[i];
                let far = model::ghost_distance(l, next.pos, target);
                &&& far <= model::ghost_distance(l, ways[k].0, target)
                &&& (forall|j: int| 0 <= j < k ==> #[trigger] ways[j] != (next.pos, next.dir))
                    && ways[k] != (next.pos, next.dir) ==> far < model::ghost_distance(
                    l,
                    ways[k].0,
                    target,
                )
            }),
    {
        reveal(GameView::ghost_stepped);
        let g = self.ghosts[i];
        let l = self.maze.layout;
        let ways = model::considered(l, g.pos, g.dir);
        let far = model::ways_to(l, ways, self.target_of(g));
        soundness::first_least_exists(far);
        let best = model::first_least(far);
        assert(far[best] <= far[k]);
        if best <= k {
            let next = self.ghost_stepped(i).ghosts[i];
            assert(ways[best] == (next.pos, next.dir));
        }
    }
}

/// The ways out of a cell go in different directions.
proof fn exits_go_different_ways(l: Layout, pos: Spot, n: int)
    requires
        0 <= n <= 4,
    ensures
        forall|i: int, j: int|
            0 <= i < j < model::exits(l, pos, n).len() ==> #[trigger] model::exits(l, pos, n)[i].1
                != #[trigger] model::exits(l, pos, n)[j].1,
    decreases n,
{
    if n > 0 {
        exits_go_different_ways(l, pos, n - 1);
        walk::ranks_follow_dirs(n - 1);
        let before = model::exits(l, pos, n - 1);
        assert forall|i: int| 0 <= i < before.len() implies #[trigger] before[i].1
            != DIRS@[n - 1] by {
            soundness::exits_lead_on(l, pos, n - 1, i);
        }
    }
}

/// Of several ways in different directions one does not go back.
proof fn some_way_goes_on(ways: Seq<(Spot, Dir)>, back: Dir)
    requires
        ways.len() > 1,
        forall|i: int, j: int|
            0 <= i < j < ways.len() ==> #[trigger] ways[i].1 != #[trigger] ways[j].1,
    ensures
        model::avoiding(ways, back, ways.len() as int).len() > 0,
{
    let k: int = if ways[0].1 == back {
        1
    } else {
        0
    };
    assert(ways[0].1 != ways[1].1);
    avoiding_finds(ways, back, ways.len() as int, k);
}

proof fn avoiding_finds(ways: Seq<(Spot, Dir)>, back: Dir, n: int, k: int)
    requires
        0 <= k < n <= ways.len(),
        ways[k].1 != back,
    ensures
        model::avoiding(ways, back, n).len() > 0,
    decreases n,
{
    if k < n - 1 {
        avoiding_finds(ways, back, n - 1, k);
    }
}

/// Walls are drawn with ten box characters, and with nothing else.
pub proof fn walls_are_box_characters(ch: char)
    ensures
        maze::is_wall_char(ch) <==> ch == '╔' || ch == '╗' || ch == '╚' || ch == '╝' || ch == '═'
            || ch == '║' || ch == '╦' || ch == '╩' || ch == '╠' || ch == '╣',
{
    let walls = maze::WALL_CHARS@;
    assert(walls[0] == '╔' && walls[1] == '╗' && walls[2] == '╚' && walls[3] == '╝');
    assert(walls[4] == '═' && walls[5] == '║' && walls[6] == '╦' && walls[7] == '╩');
    assert(walls[8] == '╠' && walls[9] == '╣');
}

/// A fresh cell holds a dot where the template draws one, a power pellet where it
/// draws one, and else nothing.
pub proof fn pellets_lie_where_they_are_drawn(ch: char)
    ensures
        maze::seeded(ch) == Pellet::Dot <==> ch == '·',
        maze::seeded(ch) == Pellet::Power <==> ch == '*',
{
}

} // verus!
