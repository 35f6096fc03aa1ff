//! Walks over the maze, and the breadth-first search that finds the first
//! walk to every cell.
//!
//! A walk is a list of directions. Walks are ordered by length first and then,
//! step by step, by the order of [`DIRS`]. Breadth-first search meets the cells
//! of the maze in the order of the first walks that lead to them, so "nearest"
//! and "first found" are both statements about this order.

use vstd::prelude::*;
use vstd::set_lib::*;

use crate::maze;
use crate::maze::{filled_grid, Layout, Maze, Spot};

verus! {

#[derive(Clone, Copy, PartialEq, Eq, Structural, Debug)]
pub enum Dir {
    Up,
    Down,
    Left,
    Right,
}

/// Order in which directions are tried; it decides ties.
pub const DIRS: [Dir; 4] = [Dir::Up, Dir::Left, Dir::Down, Dir::Right];

impl Dir {
    /// The row and column offset of one step.
    pub open spec fn offset(self) -> Spot {
        match self {
            Dir::Up => (-1, 0),
            Dir::Down => (1, 0),
            Dir::Left => (0, -1),
            Dir::Right => (0, 1),
        }
    }

    /// The direction that undoes a step.
    pub open spec fn reversed(self) -> Dir {
        match self {
            Dir::Up => Dir::Down,
            Dir::Down => Dir::Up,
            Dir::Left => Dir::Right,
            Dir::Right => Dir::Left,
        }
    }

    /// The position of a direction in [`DIRS`].
    pub open spec fn rank(self) -> int {
        match self {
            Dir::Up => 0,
            Dir::Left => 1,
            Dir::Down => 2,
            Dir::Right => 3,
        }
    }

    /// The row and column offset of one step.
    pub fn delta(self) -> (d: (i32, i32))
        ensures
            (d.0 as int, d.1 as int) == self.offset(),
    {
        match self {
            Dir::Up => (-1, 0),
            Dir::Down => (1, 0),
            Dir::Left => (0, -1),
            Dir::Right => (0, 1),
        }
    }

    /// The direction that undoes a step.
    pub fn opposite(self) -> (d: Dir)
        ensures
            d == self.reversed(),
    {
        match self {
            Dir::Up => Dir::Down,
            Dir::Down => Dir::Up,
            Dir::Left => Dir::Right,
            Dir::Right => Dir::Left,
        }
    }
}

/// Which cells a walk may enter.
#[derive(Clone, Copy, PartialEq, Eq, Structural, Debug)]
pub enum Passage {
    /// Every cell of the grid, walls too.
    Anywhere,
    /// Cells that are not walls.
    Walkable,
    /// Cells that are neither walls nor doors.
    OpenToPlayer,
}

impl Layout {
    /// The cell that one step from `p` leads to, tunnels applied.
    pub open spec fn step(self, p: Spot, d: Dir) -> Spot {
        self.tunnel((p.0 + d.offset().0, p.1 + d.offset().1))
    }

    /// Whether a walk may enter `p`.
    pub open spec fn admits(self, passage: Passage, p: Spot) -> bool {
        match passage {
            Passage::Anywhere => self.in_bounds(p),
            Passage::Walkable => self.walkable(p),
            Passage::OpenToPlayer => self.open_to_player(p),
        }
    }
}

/// The cell where a walk that starts at `from` ends.
pub open spec fn walk_end(l: Layout, from: Spot, walk: Seq<Dir>) -> Spot
    decreases walk.len(),
{
    if walk.len() == 0 {
        from
    } else {
        l.step(walk_end(l, from, walk.drop_last()), walk.last())
    }
}

/// Every cell that the walk enters may be entered. The starting cell itself is
/// not asked.
pub open spec fn is_walk(l: Layout, passage: Passage, from: Spot, walk: Seq<Dir>) -> bool
    decreases walk.len(),
{
    walk.len() == 0 || (is_walk(l, passage, from, walk.drop_last()) && l.admits(
        passage,
        walk_end(l, from, walk),
    ))
}

/// `walk` leads from `from` to `to`.
pub open spec fn leads(
    l: Layout,
    passage: Passage,
    from: Spot,
    to: Spot,
    walk: Seq<Dir>,
) -> bool {
    is_walk(l, passage, from, walk) && walk_end(l, from, walk) == to
}

/// Some walk leads from `from` to `to`.
pub open spec fn reaches(l: Layout, passage: Passage, from: Spot, to: Spot) -> bool {
    exists|walk: Seq<Dir>| leads(l, passage, from, to, walk)
}

/// `n` is the length of a shortest walk from `from` to `to`.
pub open spec fn is_distance(l: Layout, passage: Passage, from: Spot, to: Spot, n: int) -> bool {
    &&& exists|walk: Seq<Dir>| #[trigger] leads(l, passage, from, to, walk) && walk.len() == n
    &&& forall|walk: Seq<Dir>| #[trigger] leads(l, passage, from, to, walk) ==> n <= walk.len()
}

/// The length of a shortest walk from `from` to `to`, where there is one.
pub open spec fn distance(l: Layout, passage: Passage, from: Spot, to: Spot) -> int {
    choose|n: int| is_distance(l, passage, from, to, n)
}

/// Of two walks of one length, whether `a` is the first in the order of
/// [`DIRS`], compared step by step from the start.
pub open spec fn earlier_turn(a: Seq<Dir>, b: Seq<Dir>) -> bool
    decreases a.len(),
{
    a.len() == b.len() && a.len() > 0 && (earlier_turn(a.drop_last(), b.drop_last()) || (
    a.drop_last() == b.drop_last() && a.last().rank() < b.last().rank()))
}

/// The order of walks: shorter first, then by the order of [`DIRS`].
pub open spec fn precedes(a: Seq<Dir>, b: Seq<Dir>) -> bool {
    a.len() < b.len() || earlier_turn(a, b)
}

/// `a` is `b` or comes before it.
pub open spec fn at_or_before(a: Seq<Dir>, b: Seq<Dir>) -> bool {
    a == b || precedes(a, b)
}

/// A direction's rank is its place in [`DIRS`].
pub proof fn ranks_follow_dirs(k: int)
    requires
        0 <= k < 4,
    ensures
        DIRS@[k].rank() == k,
        forall|d: Dir| #[trigger] d.rank() == k ==> d == DIRS@[k],
{
}

proof fn earlier_turn_transitive(a: Seq<Dir>, b: Seq<Dir>, c: Seq<Dir>)
    requires
        earlier_turn(a, b),
        earlier_turn(b, c),
    ensures
        earlier_turn(a, c),
    decreases a.len(),
{
    if earlier_turn(a.drop_last(), b.drop_last()) && earlier_turn(b.drop_last(), c.drop_last()) {
        earlier_turn_transitive(a.drop_last(), b.drop_last(), c.drop_last());
    }
}

proof fn earlier_turn_irreflexive(a: Seq<Dir>)
    ensures
        !earlier_turn(a, a),
    decreases a.len(),
{
    if a.len() > 0 {
        earlier_turn_irreflexive(a.drop_last());
    }
}

/// The order of walks is transitive.
pub proof fn precedes_transitive(a: Seq<Dir>, b: Seq<Dir>, c: Seq<Dir>)
    requires
        precedes(a, b),
        precedes(b, c),
    ensures
        precedes(a, c),
{
    if earlier_turn(a, b) && earlier_turn(b, c) {
        earlier_turn_transitive(a, b, c);
    }
}

/// No walk comes before itself.
pub proof fn precedes_irreflexive(a: Seq<Dir>)
    ensures
        !precedes(a, a),
{
    earlier_turn_irreflexive(a);
}

/// Longer by one step each, two walks keep their order.
proof fn precedes_extends(a: Seq<Dir>, b: Seq<Dir>, d: Dir, e: Dir)
    requires
        precedes(a, b),
    ensures
        precedes(a.push(d), b.push(e)),
{
    assert(a.push(d).drop_last() =~= a);
    assert(b.push(e).drop_last() =~= b);
}

/// Two last steps decide between walks that otherwise agree.
proof fn precedes_by_last_step(a: Seq<Dir>, d: Dir, e: Dir)
    requires
        d.rank() < e.rank(),
    ensures
        precedes(a.push(d), a.push(e)),
{
    assert(a.push(d).drop_last() =~= a);
    assert(a.push(e).drop_last() =~= a);
}

/// One more step.
pub(crate) proof fn walk_extends(l: Layout, passage: Passage, from: Spot, walk: Seq<Dir>, d: Dir)
    ensures
        walk_end(l, from, walk.push(d)) == l.step(walk_end(l, from, walk), d),
        is_walk(l, passage, from, walk.push(d)) == (is_walk(l, passage, from, walk) && l.admits(
            passage,
            l.step(walk_end(l, from, walk), d),
        )),
{
    assert(walk.push(d).drop_last() =~= walk);
    assert(walk.push(d).last() == d);
}

/// One walk after the other.
pub(crate) proof fn walks_join(
    l: Layout,
    passage: Passage,
    from: Spot,
    first: Seq<Dir>,
    second: Seq<Dir>,
)
    ensures
        walk_end(l, from, first + second) == walk_end(l, walk_end(l, from, first), second),
        is_walk(l, passage, from, first + second) == (is_walk(l, passage, from, first) && is_walk(
            l,
            passage,
            walk_end(l, from, first),
            second,
        )),
    decreases second.len(),
{
    if second.len() == 0 {
        assert(first + second =~= first);
    } else {
        walks_join(l, passage, from, first, second.drop_last());
        assert((first + second).drop_last() =~= first + second.drop_last());
        assert((first + second).last() == second.last());
    }
}

/// What a breadth-first search has found: the cells in the order in which it
/// met them, the walk by which it met each, the cell and direction that each
/// was met from, and the length of the walk to each cell met (`u32::MAX` where
/// none was).
pub struct Search {
    pub order: Seq<Spot>,
    pub walks: Seq<Seq<Dir>>,
    pub parents: Seq<(int, Dir)>,
    pub dist: Seq<Seq<u32>>,
}

/// The step from cell `i` of the search in direction `d` has been tried before
/// step `k` of cell `head`.
spec fn tried(i: int, d: Dir, head: int, k: int) -> bool {
    i < head || (i == head && d.rank() < k)
}

impl Search {
    /// Cell `j` was met from an earlier cell, by one more step.
    spec fn descends(self, l: Layout, j: int, head: int, k: int) -> bool {
        let (i, d) = self.parents[j];
        &&& 0 <= i < j
        &&& tried(i, d, head, k)
        &&& self.walks[j] == self.walks[i].push(d)
    }

    /// Where cell `i` steps in direction `d`, if it may, an equally early or
    /// earlier walk has led.
    spec fn settled(self, l: Layout, passage: Passage, i: int, d: Dir) -> bool {
        l.admits(passage, l.step(self.order[i], d)) ==> exists|j: int|
            0 <= j < self.order.len() && #[trigger] self.order[j] == l.step(self.order[i], d)
                && at_or_before(self.walks[j], self.walks[i].push(d))
    }

    /// The state of a search that is about to try step `k` of cell `head`.
    spec fn searching(self, l: Layout, passage: Passage, from: Spot, head: int, k: int) -> bool {
        &&& self.order.len() == self.walks.len() == self.parents.len()
        &&& self.order.len() > 0
        &&& self.walks[0] == Seq::<Dir>::empty()
        &&& self.order[0] == from
        &&& forall|j: int|
            0 <= j < self.order.len() ==> l.in_bounds(#[trigger] self.order[j]) && leads(
                l,
                passage,
                from,
                self.order[j],
                self.walks[j],
            ) && self.walks[j].len() <= j
        &&& forall|j: int|
            0 < j < self.order.len() ==> #[trigger] self.descends(l, j, head, k)
        &&& forall|i: int, j: int|
            0 <= i < j < self.order.len() ==> self.order[i] != self.order[j] && precedes(
                #[trigger] self.walks[i],
                #[trigger] self.walks[j],
            )
        &&& forall|i: int, d: Dir|
            0 <= i < self.order.len() && tried(i, d, head, k) ==> #[trigger] self.settled(
                l,
                passage,
                i,
                d,
            )
        &&& maze::is_grid(self.dist, l.rows, l.cols)
        &&& forall|j: int|
            0 <= j < self.order.len() ==> self.dist[(#[trigger] self.order[j]).0][self.order[j].1]
                == self.walks[j].len()
        &&& forall|r: int, c: int|
            l.in_bounds((r, c)) && #[trigger] self.dist[r][c] != u32::MAX ==> self.order.contains(
                (r, c),
            )
    }

    /// A search that has met every cell it can reach from `from`, by the first
    /// walk that leads there.
    pub open spec fn complete(self, l: Layout, passage: Passage, from: Spot) -> bool {
        &&& self.order.len() == self.walks.len()
        &&& forall|j: int|
            0 <= j < self.order.len() ==> l.in_bounds(#[trigger] self.order[j]) && leads(
                l,
                passage,
                from,
                self.order[j],
                self.walks[j],
            )
        &&& forall|i: int, j: int|
            0 <= i < j < self.order.len() ==> precedes(
                #[trigger] self.walks[i],
                #[trigger] self.walks[j],
            )
        &&& forall|w: Seq<Dir>| #[trigger]
            is_walk(l, passage, from, w) ==> self.covers(walk_end(l, from, w), w)
        &&& maze::is_grid(self.dist, l.rows, l.cols)
        &&& forall|j: int|
            0 <= j < self.order.len() ==> self.dist[(#[trigger] self.order[j]).0][self.order[j].1]
                == self.walks[j].len()
        &&& forall|r: int, c: int|
            l.in_bounds((r, c)) && #[trigger] self.dist[r][c] != u32::MAX ==> self.order.contains(
                (r, c),
            )
        &&& forall|j: int| 0 <= j < self.order.len() ==> (#[trigger] self.walks[j]).len() < u32::MAX
    }

    /// The search met `to` by a walk that is no later than `w`.
    pub open spec fn covers(self, to: Spot, w: Seq<Dir>) -> bool {
        exists|j: int|
            0 <= j < self.order.len() && #[trigger] self.order[j] == to && at_or_before(
                self.walks[j],
                w,
            )
    }

    /// The search after it has met `to` by step `d` of cell `head`.
    spec fn met(self, head: int, d: Dir, to: Spot) -> Search {
        Search {
            order: self.order.push(to),
            walks: self.walks.push(self.walks[head].push(d)),
            parents: self.parents.push((head, d)),
            dist: self.dist.update(
                to.0,
                self.dist[to.0].update(to.1, (self.walks[head].len() + 1) as u32),
            ),
        }
    }

    /// All walks so far come before the one about to be tried.
    proof fn older_precedes(self, l: Layout, passage: Passage, from: Spot, head: int, k: int, j: int)
        requires
            self.searching(l, passage, from, head, k),
            0 <= head < self.order.len(),
            0 <= k < 4,
            0 <= j < self.order.len(),
        ensures
            precedes(self.walks[j], self.walks[head].push(DIRS@[k])),
    {
        if j > 0 {
            assert(self.descends(l, j, head, k));
            let (i, d) = self.parents[j];
            if i < head {
                assert(precedes(self.walks[i], self.walks[head]));
                precedes_extends(self.walks[i], self.walks[head], d, DIRS@[k]);
            } else {
                ranks_follow_dirs(k);
                precedes_by_last_step(self.walks[head], d, DIRS@[k]);
            }
        }
    }

    /// Meeting a new cell.
    proof fn meets(self, l: Layout, passage: Passage, from: Spot, head: int, k: int)
        requires
            self.searching(l, passage, from, head, k),
            0 <= head < self.order.len(),
            0 <= k < 4,
            l.wf(),
            ({
                let to = l.step(self.order[head], DIRS@[k]);
                l.admits(passage, to) && self.dist[to.0][to.1] == u32::MAX
            }),
            self.walks[head].len() + 1 < u32::MAX,
        ensures
            self.met(head, DIRS@[k], l.step(self.order[head], DIRS@[k])).searching(
                l,
                passage,
                from,
                head,
                k + 1,
            ),
    {
        let d = DIRS@[k];
        let to = l.step(self.order[head], d);
        let next = self.met(head, d, to);
        let n = self.order.len() as int;
        ranks_follow_dirs(k);
        assert(!self.order.contains(to)) by {
            if self.order.contains(to) {
                let j = choose|j: int| 0 <= j < n && self.order[j] == to;
                assert(self.dist[self.order[j].0][self.order[j].1] == self.walks[j].len());
                assert(self.walks[j].len() <= j);
                self.older_precedes(l, passage, from, head, k, j);
                assert(self.walks[j].len() <= self.walks[head].len() + 1);
            }
        }
        walk_extends(l, passage, from, self.walks[head], d);
        assert forall|j: int| 0 <= j < next.order.len() implies l.in_bounds(
            #[trigger] next.order[j],
        ) && leads(l, passage, from, next.order[j], next.walks[j]) && next.walks[j].len() <= j by {
            if j < n {
                assert(next.order[j] == self.order[j]);
                assert(next.walks[j] == self.walks[j]);
            } else {
                assert(l.in_bounds(self.order[head]));
            }
        }
        assert forall|j: int| 0 < j < next.order.len() implies #[trigger] next.descends(
            l,
            j,
            head,
            k + 1,
        ) by {
            if j < n {
                assert(self.descends(l, j, head, k));
            }
        }
        assert forall|i: int, j: int| 0 <= i < j < next.order.len() implies next.order[i]
            != next.order[j] && precedes(#[trigger] next.walks[i], #[trigger] next.walks[j]) by {
            assert(next.walks[i] == self.walks[i] && next.order[i] == self.order[i]);
            if j < n {
                assert(next.walks[j] == self.walks[j]);
                assert(precedes(self.walks[i], self.walks[j]));
            } else {
                self.older_precedes(l, passage, from, head, k, i);
                assert(self.order.contains(self.order[i]));
            }
        }
        assert forall|i: int, e: Dir|
            0 <= i < next.order.len() && tried(i, e, head, k + 1) implies #[trigger] next.settled(
            l,
            passage,
            i,
            e,
        ) by {
            assert(next.order[i] == self.order[i]);
            assert(next.walks[i] == self.walks[i]);
            if tried(i, e, head, k) {
                assert(self.settled(l, passage, i, e));
                if l.admits(passage, l.step(self.order[i], e)) {
                    let j = choose|j: int|
                        0 <= j < n && #[trigger] self.order[j] == l.step(self.order[i], e)
                            && at_or_before(self.walks[j], self.walks[i].push(e));
                    assert(next.order[j] == l.step(next.order[i], e));
                }
            } else {
                assert(e == d);
                assert(next.order[n] == to);
            }
        }
        assert(maze::is_grid(next.dist, l.rows, l.cols)) by {
            assert forall|i: int| 0 <= i < l.rows implies (#[trigger] next.dist[i]).len()
                == l.cols by {
                assert(self.dist[i].len() == l.cols);
            }
        }
        assert forall|j: int| 0 <= j < next.order.len() implies next.dist[(
        #[trigger] next.order[j]).0][next.order[j].1] == next.walks[j].len() by {
            if j < n {
                assert(next.order[j] == self.order[j]);
                assert(self.dist[self.order[j].0][self.order[j].1] == self.walks[j].len());
                assert(self.order.contains(self.order[j]));
            }
        }
        assert forall|r: int, c: int|
            l.in_bounds((r, c)) && #[trigger] next.dist[r][c]
                != u32::MAX implies next.order.contains((r, c)) by {
            if (r, c) == to {
                assert(next.order[n] == to);
            } else {
                assert(self.dist[r][c] == next.dist[r][c]);
                let j = choose|j: int| 0 <= j < n && self.order[j] == (r, c);
                assert(next.order[j] == (r, c));
            }
        }
    }

    /// Passing over a cell that may not be entered or was met before.
    proof fn passes(self, l: Layout, passage: Passage, from: Spot, head: int, k: int)
        requires
            self.searching(l, passage, from, head, k),
            0 <= head < self.order.len(),
            0 <= k < 4,
            ({
                let to = l.step(self.order[head], DIRS@[k]);
                l.admits(passage, to) ==> l.in_bounds(to) && self.dist[to.0][to.1] != u32::MAX
            }),
        ensures
            self.searching(l, passage, from, head, k + 1),
    {
        let d = DIRS@[k];
        let to = l.step(self.order[head], d);
        ranks_follow_dirs(k);
        assert forall|j: int| 0 < j < self.order.len() implies #[trigger] self.descends(
            l,
            j,
            head,
            k + 1,
        ) by {
            assert(self.descends(l, j, head, k));
        }
        assert forall|i: int, e: Dir|
            0 <= i < self.order.len() && tried(i, e, head, k + 1) implies #[trigger] self.settled(
            l,
            passage,
            i,
            e,
        ) by {
            if tried(i, e, head, k) {
            } else {
                assert(e == d && i == head);
                if l.admits(passage, to) {
                    assert(self.order.contains((to.0, to.1)));
                    let j = choose|j: int| 0 <= j < self.order.len() && self.order[j] == to;
                    self.older_precedes(l, passage, from, head, k, j);
                    assert(self.order[j] == l.step(self.order[head], d));
                }
            }
        }
    }

    /// Going on to the next cell.
    proof fn advances(self, l: Layout, passage: Passage, from: Spot, head: int)
        requires
            self.searching(l, passage, from, head, 4),
            0 <= head < self.order.len(),
        ensures
            self.searching(l, passage, from, head + 1, 0),
    {
        assert forall|j: int| 0 < j < self.order.len() implies #[trigger] self.descends(
            l,
            j,
            head + 1,
            0,
        ) by {
            assert(self.descends(l, j, head, 4));
        }
        assert forall|i: int, e: Dir|
            0 <= i < self.order.len() && tried(i, e, head + 1, 0) implies #[trigger] self.settled(
            l,
            passage,
            i,
            e,
        ) by {
            assert(tried(i, e, head, 4));
        }
    }

    /// A search with nothing left to try has covered every walk.
    proof fn covers_all(self, l: Layout, passage: Passage, from: Spot, w: Seq<Dir>)
        requires
            self.searching(l, passage, from, self.order.len() as int, 0),
            is_walk(l, passage, from, w),
        ensures
            self.covers(walk_end(l, from, w), w),
        decreases w.len(),
    {
        if w.len() == 0 {
            assert(w =~= Seq::<Dir>::empty());
            assert(self.order[0] == from);
        } else {
            let u = w.drop_last();
            let d = w.last();
            assert(w =~= u.push(d));
            self.covers_all(l, passage, from, u);
            let i = choose|i: int|
                0 <= i < self.order.len() && #[trigger] self.order[i] == walk_end(l, from, u)
                    && at_or_before(self.walks[i], u);
            assert(tried(i, d, self.order.len() as int, 0));
            assert(self.settled(l, passage, i, d));
            let j = choose|j: int|
                0 <= j < self.order.len() && #[trigger] self.order[j] == l.step(self.order[i], d)
                    && at_or_before(self.walks[j], self.walks[i].push(d));
            if self.walks[i] != u {
                precedes_extends(self.walks[i], u, d, d);
                if self.walks[j] != self.walks[i].push(d) {
                    precedes_transitive(self.walks[j], self.walks[i].push(d), w);
                }
            }
            assert(self.order[j] == walk_end(l, from, w));
        }
    }
}

/// The place of a cell in reading order.
spec fn reading_index(p: Spot, cols: int) -> int {
    p.0 * cols + p.1
}

proof fn reading_index_injective(p: Spot, q: Spot, cols: int)
    requires
        0 <= p.1 < cols,
        0 <= q.1 < cols,
        reading_index(p, cols) == reading_index(q, cols),
    ensures
        p == q,
{
    assert(p.0 == q.0) by (nonlinear_arith)
        requires
            0 <= p.1 < cols,
            0 <= q.1 < cols,
            p.0 * cols + p.1 == q.0 * cols + q.1,
    ;
}

/// A list of different cells of the grid is no longer than the grid has cells.
pub(crate) proof fn distinct_cells_fit(l: Layout, order: Seq<Spot>)
    requires
        l.rows >= 0,
        l.cols >= 0,
        forall|j: int| 0 <= j < order.len() ==> l.in_bounds(#[trigger] order[j]),
        forall|i: int, j: int|
            0 <= i < j < order.len() ==> #[trigger] order[i] != #[trigger] order[j],
    ensures
        order.len() <= l.rows * l.cols,
{
    let places = Seq::new(order.len(), |j: int| reading_index(order[j], l.cols));
    assert forall|i: int, j: int| 0 <= i < j < places.len() implies #[trigger] places[i]
        != #[trigger] places[j] by {
        if places[i] == places[j] {
            assert(l.in_bounds(order[i]) && l.in_bounds(order[j]));
            reading_index_injective(order[i], order[j], l.cols);
        }
    }
    assert(0 <= l.rows * l.cols) by (nonlinear_arith)
        requires
            l.rows >= 0,
            l.cols >= 0,
    ;
    assert forall|x: int| places.to_set().contains(x) implies set_int_range(
        0,
        l.rows * l.cols,
    ).contains(x) by {
        let j = choose|j: int| 0 <= j < places.len() && places[j] == x;
        let p = order[j];
        assert(l.in_bounds(p));
        assert(0 <= p.0 * l.cols + p.1 < l.rows * l.cols) by (nonlinear_arith)
            requires
                0 <= p.0 < l.rows,
                0 <= p.1 < l.cols,
        ;
    }
    lemma_int_range(0, l.rows * l.cols);
    lemma_len_subset(places.to_set(), set_int_range(0, l.rows * l.cols));
    places.unique_seq_to_set();
}

/// A list of coordinates as cells.
pub open spec fn cells(list: Seq<(i32, i32)>) -> Seq<Spot> {
    Seq::new(list.len(), |i: int| (list[i].0 as int, list[i].1 as int))
}

/// The outcome of a breadth-first search.
pub struct Flood {
    /// The cells met, in the order in which they were met.
    pub order: Vec<(i32, i32)>,
    /// The length of a shortest walk to each cell; `u32::MAX` where there is
    /// none.
    pub dist: Vec<Vec<u32>>,
    /// The first walk to each cell met.
    pub walks: Ghost<Seq<Seq<Dir>>>,
}

impl Flood {
    pub open spec fn search(self) -> Search {
        Search {
            order: cells(self.order@),
            walks: self.walks@,
            parents: Seq::empty(),
            dist: maze::grid(self.dist@),
        }
    }
}

impl Maze {
    /// Whether a walk may enter the cell.
    fn admits(&self, passage: Passage, r: i32, c: i32) -> (b: bool)
        requires
            self.wf(),
        ensures
            b == self@.layout.admits(passage, (r as int, c as int)),
    {
        match passage {
            Passage::Anywhere => self.in_bounds(r, c),
            Passage::Walkable => self.is_walkable(r, c),
            Passage::OpenToPlayer => self.is_walkable(r, c) && !self.is_door(r, c),
        }
    }

    /// Breadth-first search from `start`, directions tried in the order of
    /// [`DIRS`].
    pub(crate) fn flood(&self, passage: Passage, start: (i32, i32)) -> (found: Flood)
        requires
            self.wf(),
            self@.layout.in_bounds((start.0 as int, start.1 as int)),
            self.rows * self.cols < u32::MAX,
        ensures
            found.search().complete(
                self@.layout,
                passage,
                (start.0 as int, start.1 as int),
            ),
    {
        let ghost l = self@.layout;
        let ghost from: Spot = (start.0 as int, start.1 as int);
        let mut dist: Vec<Vec<u32>> = filled_grid(self.rows, self.cols, u32::MAX);
        let ghost blank = maze::grid(dist@);
        assert(blank[from.0].len() == l.cols);
        dist[start.0 as usize][start.1 as usize] = 0;
        assert(maze::grid(dist@) =~= blank.update(from.0, blank[from.0].update(from.1, 0)));
        let mut order: Vec<(i32, i32)> = Vec::new();
        order.push(start);
        let ghost mut walks: Seq<Seq<Dir>> = seq![Seq::<Dir>::empty()];
        let ghost mut parents: Seq<(int, Dir)> = seq![(0int, Dir::Up)];
        let mut head: usize = 0;
        proof {
            let s = Search { order: cells(order@), walks, parents, dist: maze::grid(dist@) };
            assert(s.order =~= seq![from]);
            assert forall|r: int, c: int|
                l.in_bounds((r, c)) && #[trigger] s.dist[r][c] != u32::MAX implies s.order.contains(
                (r, c),
            ) by {
                assert(blank[r][c] == u32::MAX);
                assert(s.order[0] == from);
            }
            assert(maze::is_grid(s.dist, l.rows, l.cols));
            assert(s.searching(l, passage, from, 0, 0));
        }
        while head < order.len()
            invariant
                self.wf(),
                l == self@.layout,
                self.rows * self.cols < u32::MAX,
                head <= order@.len(),
                (Search { order: cells(order@), walks, parents, dist: maze::grid(dist@) }).searching(
                    l,
                    passage,
                    from,
                    head as int,
                    0,
                ),
            decreases self.rows * self.cols - head,
        {
            let (r, c) = order[head];
            proof {
                distinct_cells_fit(l, cells(order@));
                assert(l.in_bounds(cells(order@)[head as int]));
            }
            let mut k: usize = 0;
            while k < 4
                invariant
                    self.wf(),
                    l == self@.layout,
                    self.rows * self.cols < u32::MAX,
                    head < order@.len(),
                    k <= 4,
                    order@[head as int] == (r, c),
                    l.in_bounds((r as int, c as int)),
                    (Search { order: cells(order@), walks, parents, dist: maze::grid(dist@) }).searching(
                        l,
                        passage,
                        from,
                        head as int,
                        k as int,
                    ),
                decreases 4 - k,
            {
                let ghost s = Search { order: cells(order@), walks, parents, dist: maze::grid(dist@) };
                let dir: Dir = DIRS[k];
                let (dr, dc) = dir.delta();
                let (nr, nc) = self.apply_tunnel(r + dr, c + dc);
                let ghost to: Spot = (nr as int, nc as int);
                proof {
                    distinct_cells_fit(l, cells(order@));
                    assert(cells(order@)[head as int] == (r as int, c as int));
                    assert(to == l.step(s.order[head as int], DIRS@[k as int]));
                    assert(s.walks[head as int].len() <= head);
                    assert(maze::grid(dist@)[r as int].len() == l.cols);
                    assert(s.dist[s.order[head as int].0][s.order[head as int].1]
                        == s.walks[head as int].len());
                    if l.admits(passage, to) {
                        assert(maze::grid(dist@)[to.0].len() == l.cols);
                    }
                }
                if self.admits(passage, nr, nc) && dist[nr as usize][nc as usize] == u32::MAX {
                    let ghost met = s.met(head as int, dir, to);
                    proof {
                        s.meets(l, passage, from, head as int, k as int);
                        distinct_cells_fit(l, met.order);
                    }
                    let d: u32 = dist[r as usize][c as usize] + 1;
                    dist[nr as usize][nc as usize] = d;
                    order.push((nr, nc));
                    proof {
                        walks = met.walks;
                        parents = met.parents;
                        assert(cells(order@) =~= met.order);
                        assert(maze::grid(dist@) =~= met.dist);
                    }
                } else {
                    proof {
                        s.passes(l, passage, from, head as int, k as int);
                    }
                }
                k = k + 1;
            }
            proof {
                let s = Search { order: cells(order@), walks, parents, dist: maze::grid(dist@) };
                s.advances(l, passage, from, head as int);
            }
            head = head + 1;
        }
        let found = Flood { order, dist, walks: Ghost(walks) };
        proof {
            let s = Search { order: cells(order@), walks, parents, dist: maze::grid(dist@) };
            let f = found.search();
            distinct_cells_fit(l, s.order);
            assert forall|w: Seq<Dir>| #[trigger]
                is_walk(l, passage, from, w) implies f.covers(walk_end(l, from, w), w) by {
                s.covers_all(l, passage, from, w);
                let j = choose|j: int|
                    0 <= j < s.order.len() && #[trigger] s.order[j] == walk_end(l, from, w)
                        && at_or_before(s.walks[j], w);
                assert(f.order[j] == walk_end(l, from, w));
            }
            assert forall|j: int| 0 <= j < f.order.len() implies (#[trigger] f.walks[j]).len()
                < u32::MAX by {
                assert(l.in_bounds(s.order[j]));
            }
        }
        found
    }
}

impl Search {
    /// What a complete search says of one cell: whether it can be reached, and
    /// how far it is.
    pub proof fn tells_distance(self, l: Layout, passage: Passage, from: Spot, to: Spot)
        requires
            self.complete(l, passage, from),
            l.in_bounds(to),
        ensures
            self.dist[to.0][to.1] != u32::MAX <==> reaches(l, passage, from, to),
            reaches(l, passage, from, to) ==> self.dist[to.0][to.1] == distance(
                l,
                passage,
                from,
                to,
            ),
    {
        let n = self.dist[to.0][to.1] as int;
        if n != u32::MAX {
            assert(self.order.contains((to.0, to.1)));
            let j = choose|j: int| 0 <= j < self.order.len() && self.order[j] == to;
            assert(leads(l, passage, from, self.order[j], self.walks[j]));
        }
        if reaches(l, passage, from, to) {
            let w = choose|w: Seq<Dir>| leads(l, passage, from, to, w);
            assert(self.covers(walk_end(l, from, w), w));
            let j = choose|j: int|
                0 <= j < self.order.len() && #[trigger] self.order[j] == to && at_or_before(
                    self.walks[j],
                    w,
                );
            assert(leads(l, passage, from, self.order[j], self.walks[j]));
            assert(self.walks[j].len() < u32::MAX);
            assert(self.dist[self.order[j].0][self.order[j].1] == self.walks[j].len());
            assert forall|v: Seq<Dir>| #[trigger] leads(l, passage, from, to, v) implies n
                <= v.len() by {
                assert(self.covers(walk_end(l, from, v), v));
                let i = choose|i: int|
                    0 <= i < self.order.len() && #[trigger] self.order[i] == to && at_or_before(
                        self.walks[i],
                        v,
                    );
                assert(self.dist[self.order[i].0][self.order[i].1] == self.walks[i].len());
            }
            assert(is_distance(l, passage, from, to, n));
            distance_is(l, passage, from, to, n);
        }
    }
}

/// There is only one distance.
pub proof fn distance_is(l: Layout, passage: Passage, from: Spot, to: Spot, n: int)
    requires
        is_distance(l, passage, from, to, n),
    ensures
        distance(l, passage, from, to) == n,
{
    let m = distance(l, passage, from, to);
    assert(is_distance(l, passage, from, to, m));
    let v = choose|w: Seq<Dir>| #[trigger] leads(l, passage, from, to, w) && w.len() == m;
    let w = choose|w: Seq<Dir>| #[trigger] leads(l, passage, from, to, w) && w.len() == n;
    assert(n <= v.len() && m <= w.len());
}

/// A walk that goes anywhere ends on the grid.
pub proof fn no_walk_leaves_the_grid(l: Layout, passage: Passage, from: Spot, to: Spot)
    requires
        l.in_bounds(from),
        !l.in_bounds(to),
    ensures
        !reaches(l, passage, from, to),
{
    if reaches(l, passage, from, to) {
        let w = choose|w: Seq<Dir>| leads(l, passage, from, to, w);
        assert(w.len() == 0 || l.admits(passage, walk_end(l, from, w)));
    }
}

/// `walk` leads from `from`, through walls if it must, to a cell that a player
/// may stand on.
pub open spec fn leads_to_open(l: Layout, from: Spot, walk: Seq<Dir>) -> bool {
    is_walk(l, Passage::Anywhere, from, walk) && l.open_to_player(walk_end(l, from, walk))
}

/// No walk that leads to an open cell comes before `walk`.
pub open spec fn is_first_to_open(l: Layout, from: Spot, walk: Seq<Dir>) -> bool {
    &&& leads_to_open(l, from, walk)
    &&& forall|other: Seq<Dir>| #[trigger]
        leads_to_open(l, from, other) ==> at_or_before(walk, other)
}

/// The cell nearest to `from` that a player may stand on. Among cells equally
/// near, the one that the first walk leads to. Where there is none, row 1,
/// column 1.
pub open spec fn nearest_open(l: Layout, from: Spot) -> Spot {
    if l.in_bounds(from) && exists|walk: Seq<Dir>| leads_to_open(l, from, walk) {
        walk_end(l, from, choose|walk: Seq<Dir>| is_first_to_open(l, from, walk))
    } else {
        (1, 1)
    }
}

/// There is only one first walk to an open cell.
pub proof fn nearest_open_is(l: Layout, from: Spot, walk: Seq<Dir>)
    requires
        l.in_bounds(from),
        is_first_to_open(l, from, walk),
    ensures
        nearest_open(l, from) == walk_end(l, from, walk),
{
    let other = choose|w: Seq<Dir>| is_first_to_open(l, from, w);
    assert(at_or_before(walk, other) && at_or_before(other, walk));
    if walk != other {
        precedes_transitive(walk, other, walk);
        precedes_irreflexive(walk);
    }
}

/// An open cell is its own nearest open cell.
pub proof fn open_is_nearest_to_itself(l: Layout, from: Spot)
    requires
        l.open_to_player(from),
    ensures
        nearest_open(l, from) == from,
{
    let stay = Seq::<Dir>::empty();
    assert(leads_to_open(l, from, stay));
    assert forall|other: Seq<Dir>| #[trigger] leads_to_open(l, from, other) implies at_or_before(
        stay,
        other,
    ) by {
        if other.len() == 0 {
            assert(other =~= stay);
        }
    }
    nearest_open_is(l, from, stay);
}

impl Maze {
    /// The cell nearest to the given one that a player may stand on, by
    /// breadth-first search over all cells; row 1, column 1 if there is none.
    pub(crate) fn nearest_open_cell(&self, start_r: i32, start_c: i32) -> (p: (i32, i32))
        requires
            self.wf(),
            self.rows * self.cols < u32::MAX,
        ensures
            (p.0 as int, p.1 as int) == nearest_open(
                self@.layout,
                (start_r as int, start_c as int),
            ),
    {
        let ghost l = self@.layout;
        let ghost from: Spot = (start_r as int, start_c as int);
        if !self.in_bounds(start_r, start_c) {
            return (1, 1);
        }
        let found = self.flood(Passage::Anywhere, (start_r, start_c));
        let ghost s = found.search();
        let mut i: usize = 0;
        while i < found.order.len()
            invariant
                self.wf(),
                l == self@.layout,
                from == (start_r as int, start_c as int),
                l.in_bounds(from),
                i <= found.order@.len(),
                s == found.search(),
                s.complete(l, Passage::Anywhere, from),
                forall|j: int| 0 <= j < i ==> !l.open_to_player(#[trigger] s.order[j]),
            decreases found.order@.len() - i,
        {
            let (r, c) = found.order[i];
            assert(s.order[i as int] == (r as int, c as int));
            if self.is_walkable(r, c) && !self.is_door(r, c) {
                proof {
                    let walk = s.walks[i as int];
                    assert(leads(l, Passage::Anywhere, from, s.order[i as int], walk));
                    assert forall|other: Seq<Dir>| #[trigger]
                        leads_to_open(l, from, other) implies at_or_before(walk, other) by {
                        assert(s.covers(walk_end(l, from, other), other));
                        let j = choose|j: int|
                            0 <= j < s.order.len() && #[trigger] s.order[j] == walk_end(
                                l,
                                from,
                                other,
                            ) && at_or_before(s.walks[j], other);
                        if i < j {
                            assert(precedes(walk, s.walks[j]));
                            if s.walks[j] != other {
                                precedes_transitive(walk, s.walks[j], other);
                            }
                        }
                    }
                    nearest_open_is(l, from, walk);
                }
                return (r, c);
            }
            i = i + 1;
        }
        proof {
            assert forall|other: Seq<Dir>| !leads_to_open(l, from, other) by {
                if leads_to_open(l, from, other) {
                    assert(s.covers(walk_end(l, from, other), other));
                }
            }
        }
        (1, 1)
    }

    /// Marks the cells that some walk from `start` reaches.
    pub(crate) fn reachable_mask(&self, passage: Passage, start: (i32, i32)) -> (mask: Vec<
        Vec<bool>,
    >)
        requires
            self.wf(),
            self@.layout.in_bounds((start.0 as int, start.1 as int)),
            self.rows * self.cols < u32::MAX,
        ensures
            maze::is_grid(maze::grid(mask@), self.rows as int, self.cols as int),
            forall|r: int, c: int|
                self@.layout.in_bounds((r, c)) ==> #[trigger] maze::grid(mask@)[r][c] == reaches(
                    self@.layout,
                    passage,
                    (start.0 as int, start.1 as int),
                    (r, c),
                ),
    {
        let ghost l = self@.layout;
        let ghost from: Spot = (start.0 as int, start.1 as int);
        let found = self.flood(passage, start);
        let ghost s = found.search();
        let mut mask: Vec<Vec<bool>> = Vec::new();
        let mut r: usize = 0;
        while r < self.rows
            invariant
                l == self@.layout,
                s == found.search(),
                s.complete(l, passage, from),
                r <= self.rows,
                mask@.len() == r,
                forall|i: int| 0 <= i < r ==> (#[trigger] mask@[i])@.len() == l.cols,
                forall|i: int, j: int|
                    0 <= i < r && 0 <= j < l.cols ==> #[trigger] mask@[i]@[j] == reaches(
                        l,
                        passage,
                        from,
                        (i, j),
                    ),
            decreases self.rows - r,
        {
            let mut row: Vec<bool> = Vec::new();
            let mut c: usize = 0;
            while c < self.cols
                invariant
                    l == self@.layout,
                    s == found.search(),
                    s.complete(l, passage, from),
                    r < self.rows,
                    c <= self.cols,
                    row@.len() == c,
                    forall|j: int|
                        0 <= j < c ==> #[trigger] row@[j] == reaches(
                            l,
                            passage,
                            from,
                            (r as int, j),
                        ),
                decreases self.cols - c,
            {
                proof {
                    s.tells_distance(l, passage, from, (r as int, c as int));
                    assert(s.dist[r as int].len() == l.cols);
                }
                row.push(found.dist[r][c] != u32::MAX);
                c = c + 1;
            }
            mask.push(row);
            r = r + 1;
        }
        mask
    }
}

} // verus!
