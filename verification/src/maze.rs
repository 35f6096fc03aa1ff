//! The maze: its template, its parsed form and the questions asked of it.
//!
//! The template is drawn upright, 26 rows of 21 characters. [`parse`] lays it
//! on its side (21 rows of 26 columns) so that the board fits a wide, short
//! pane. Turning a maze over its diagonal keeps which cells touch which, so
//! play is the same in either orientation.

use vstd::prelude::*;

verus! {

/// Ordinary pellet character.
pub const PELLET: char = '·';

/// Power pellet character.
pub const POWER: char = '*';

/// Ghost-house door character.
pub const DOOR: char = '-';

/// Left tunnel mouth marker in the template.
pub const TUNNEL_LEFT: char = '<';

/// Right tunnel mouth marker in the template.
pub const TUNNEL_RIGHT: char = '>';

/// Characters that count as walls.
pub const WALL_CHARS: [char; 10] = ['╔', '╗', '╚', '╝', '═', '║', '╦', '╩', '╠', '╣'];

/// The upright maze, 26 rows of 21 characters.
pub const NATIVE_TEMPLATE: [&'static str; 26] = [
    "╔═════════╦═════════╗",
    "║·········║·········║",
    "║·╔═╗·╔═╗·║·╔═╗·╔═╗·║",
    "║*║ ║·║ ║·║·║ ║·║ ║*║",
    "║·╚═╝·╚═╝·║·╚═╝·╚═╝·║",
    "║···················║",
    "║·╔═╗·║·╔═══╗·║·╔═╗·║",
    "║·╚═╝·║·╚═╦═╝·║·╚═╝·║",
    "║·····║···║···║·····║",
    "╚═══╗·╠══ ║ ══╣·╔═══╝",
    "    ║·║       ║·║    ",
    "════╝·║ ╔═-═╗ ║·╚════",
    "<    ·  ║   ║  ·    >",
    "════╗·║ ╚═══╝ ║·╔════",
    "    ║·║       ║·║    ",
    "    ║·║ ╔═══╗ ║·║    ",
    "╔═══╝·║ ╚═╦═╝ ║·╚═══╗",
    "║·········║·········║",
    "║·══╗·═══·║·═══·╔══·║",
    "║*··║···········║··*║",
    "╠═╗·║·║·╔═══╗·║·║·╔═╣",
    "╠═╝·║·║·╚═╦═╝·║·║·╚═╣",
    "║·····║···║···║·····║",
    "║·════╩══·║·══╩════·║",
    "║···················║",
    "╚═══════════════════╝",
];

/// Pellet state of one cell, kept apart from the base maze.
#[derive(Clone, Copy, PartialEq, Eq, Structural, Debug)]
pub enum Pellet {
    Empty,
    Dot,
    Power,
}

/// Parsed maze, lying on its side: 21 rows of 26 columns.
#[derive(Debug)]
pub struct Maze {
    pub rows: usize,
    pub cols: usize,
    /// Base characters: walls, door, tunnel mouths, pellet-track marks.
    pub base: Vec<Vec<char>>,
    /// Pellet state per cell.
    pub pellets: Vec<Vec<Pellet>>,
    /// Ghost-house door cells.
    pub door_cells: Vec<(usize, usize)>,
    /// Both tunnel mouths; the maze always has exactly two.
    pub tunnel_left: (usize, usize),
    pub tunnel_right: (usize, usize),
}

/// A cell of the grid, row first.
pub type Spot = (int, int);

/// The part of a maze that play never changes.
#[verifier::ext_equal]
pub struct Layout {
    pub rows: int,
    pub cols: int,
    pub base: Seq<Seq<char>>,
    pub door_cells: Seq<Spot>,
    pub tunnel_left: Spot,
    pub tunnel_right: Spot,
}

/// What a [`Maze`] stands for: a layout and the pellets lying on it.
#[verifier::ext_equal]
pub struct MazeView {
    pub layout: Layout,
    pub pellets: Seq<Seq<Pellet>>,
}

/// The contents of a vector of vectors.
pub open spec fn grid<T>(rows: Seq<Vec<T>>) -> Seq<Seq<T>> {
    Seq::new(rows.len(), |i: int| rows[i]@)
}

/// A pair of indices as a cell.
pub open spec fn spot(cell: (usize, usize)) -> Spot {
    (cell.0 as int, cell.1 as int)
}

/// A list of pairs of indices as cells.
pub open spec fn spots(cells: Seq<(usize, usize)>) -> Seq<Spot> {
    Seq::new(cells.len(), |i: int| spot(cells[i]))
}

/// Every row of `g` has `cols` entries, and there are `rows` of them.
pub open spec fn is_grid<T>(g: Seq<Seq<T>>, rows: int, cols: int) -> bool {
    &&& g.len() == rows
    &&& forall|i: int| 0 <= i < rows ==> (#[trigger] g[i]).len() == cols
}

/// Whether `ch` draws a wall.
pub open spec fn is_wall_char(ch: char) -> bool {
    WALL_CHARS@.contains(ch)
}

impl Layout {
    /// The grid is rectangular and its marked cells lie on it. Indices fit the
    /// signed coordinates that callers use.
    pub open spec fn wf(self) -> bool {
        &&& 0 < self.rows <= i32::MAX
        &&& 0 < self.cols <= i32::MAX
        &&& self.is_drawn()
        &&& self.in_bounds(self.tunnel_left)
        &&& self.in_bounds(self.tunnel_right)
        &&& forall|i: int|
            0 <= i < self.door_cells.len() ==> self.in_bounds(#[trigger] self.door_cells[i])
    }

    /// Every cell of the grid has its character.
    pub open spec fn is_drawn(self) -> bool {
        is_grid(self.base, self.rows, self.cols)
    }

    /// The height and both mouths fit the signed coordinates that callers use.
    pub open spec fn mouths_fit(self) -> bool {
        &&& 0 <= self.rows <= i32::MAX
        &&& 0 <= self.tunnel_left.0 <= i32::MAX
        &&& 0 <= self.tunnel_left.1 <= i32::MAX
        &&& 0 <= self.tunnel_right.0 <= i32::MAX
        &&& 0 <= self.tunnel_right.1 <= i32::MAX
    }

    pub open spec fn in_bounds(self, p: Spot) -> bool {
        0 <= p.0 < self.rows && 0 <= p.1 < self.cols
    }

    /// The character drawn at `p`.
    pub open spec fn at(self, p: Spot) -> char {
        self.base[p.0][p.1]
    }

    /// `p` lies on the grid and is not a wall.
    pub open spec fn walkable(self, p: Spot) -> bool {
        self.in_bounds(p) && !is_wall_char(self.at(p))
    }

    /// `p` is a cell of the ghost-house door.
    pub open spec fn door(self, p: Spot) -> bool {
        self.in_bounds(p) && self.at(p) == DOOR
    }

    /// Where a player may stand: neither wall nor door.
    pub open spec fn open_to_player(self, p: Spot) -> bool {
        self.walkable(p) && !self.door(p)
    }

    /// A step that leaves the grid above the left mouth comes out at the right
    /// mouth, and one that leaves it below the right mouth comes out at the
    /// left. Any other cell stays where it is.
    pub open spec fn tunnel(self, p: Spot) -> Spot {
        if p.1 == self.tunnel_left.1 && p.0 < 0 {
            self.tunnel_right
        } else if p.1 == self.tunnel_right.1 && p.0 >= self.rows {
            self.tunnel_left
        } else {
            p
        }
    }
}

impl MazeView {
    /// A valid layout with one pellet entry for each of its cells.
    pub open spec fn wf(self) -> bool {
        &&& self.layout.wf()
        &&& is_grid(self.pellets, self.layout.rows, self.layout.cols)
    }
}

impl View for Maze {
    type V = MazeView;

    open spec fn view(&self) -> MazeView {
        MazeView {
            layout: Layout {
                rows: self.rows as int,
                cols: self.cols as int,
                base: grid(self.base@),
                door_cells: spots(self.door_cells@),
                tunnel_left: spot(self.tunnel_left),
                tunnel_right: spot(self.tunnel_right),
            },
            pellets: grid(self.pellets@),
        }
    }
}

/// The pellets among the first `n` cells of a row.
pub open spec fn pellets_in_row(row: Seq<Pellet>, n: int) -> nat
    decreases n,
{
    if n <= 0 {
        0
    } else {
        pellets_in_row(row, n - 1) + if row[n - 1] == Pellet::Empty {
            0nat
        } else {
            1nat
        }
    }
}

/// The pellets in the first `n` rows.
pub open spec fn pellets_in_rows(pellets: Seq<Seq<Pellet>>, n: int) -> nat
    decreases n,
{
    if n <= 0 {
        0
    } else {
        pellets_in_rows(pellets, n - 1) + pellets_in_row(
            pellets[n - 1],
            pellets[n - 1].len() as int,
        )
    }
}

/// How many dots and power pellets lie on the board.
pub open spec fn pellets_on(pellets: Seq<Seq<Pellet>>) -> nat {
    pellets_in_rows(pellets, pellets.len() as int)
}

/// The character of the template that lands on row `r`, column `c` of the
/// board. Short template rows count as padded with spaces.
pub open spec fn template_at(r: int, c: int) -> char {
    if r < NATIVE_TEMPLATE@[c]@.len() {
        NATIVE_TEMPLATE@[c]@[r]
    } else {
        ' '
    }
}

/// The pellet that a fresh board holds on a cell drawn as `ch`.
pub open spec fn seeded(ch: char) -> Pellet {
    if ch == PELLET {
        Pellet::Dot
    } else if ch == POWER {
        Pellet::Power
    } else {
        Pellet::Empty
    }
}

/// The layout of the template, with its door and its tunnel mouths.
#[verifier::opaque]
pub open spec fn native_layout() -> Layout {
    Layout {
        rows: 21,
        cols: 26,
        base: Seq::new(21, |r: int| Seq::new(26, |c: int| template_at(r, c))),
        door_cells: seq![(10int, 11int)],
        tunnel_left: (0, 12),
        tunnel_right: (20, 12),
    }
}

/// The template's maze with every pellet still on it.
#[verifier::opaque]
pub open spec fn native_maze() -> MazeView {
    MazeView {
        layout: native_layout(),
        pellets: Seq::new(21, |r: int| Seq::new(26, |c: int| seeded(template_at(r, c)))),
    }
}

/// A fresh copy of a vector of vectors.
pub(crate) fn copy_grid<T: Copy>(rows: &Vec<Vec<T>>) -> (copy: Vec<Vec<T>>)
    ensures
        grid(copy@) == grid(rows@),
{
    let mut copy: Vec<Vec<T>> = Vec::new();
    let mut r: usize = 0;
    while r < rows.len()
        invariant
            r <= rows@.len(),
            grid(copy@) =~= grid(rows@).take(r as int),
        decreases rows@.len() - r,
    {
        let mut row: Vec<T> = Vec::new();
        let mut c: usize = 0;
        while c < rows[r].len()
            invariant
                r < rows@.len(),
                c <= rows@[r as int]@.len(),
                row@ =~= rows@[r as int]@.take(c as int),
            decreases rows@[r as int]@.len() - c,
        {
            row.push(rows[r][c]);
            c = c + 1;
        }
        let ghost before = copy@;
        assert(row@ =~= rows@[r as int]@);
        copy.push(row);
        assert(grid(copy@) =~= grid(before).push(row@));
        r = r + 1;
    }
    copy
}

/// A grid of `rows` rows and `cols` columns that holds `value` everywhere.
pub(crate) fn filled_grid<T: Copy>(rows: usize, cols: usize, value: T) -> (g: Vec<Vec<T>>)
    ensures
        is_grid(grid(g@), rows as int, cols as int),
        forall|r: int, c: int|
            0 <= r < rows && 0 <= c < cols ==> #[trigger] grid(g@)[r][c] == value,
{
    let mut g: Vec<Vec<T>> = Vec::new();
    let mut r: usize = 0;
    while r < rows
        invariant
            r <= rows,
            g@.len() == r,
            forall|i: int| 0 <= i < r ==> (#[trigger] g@[i])@.len() == cols,
            forall|i: int, j: int| 0 <= i < r && 0 <= j < cols ==> #[trigger] g@[i]@[j] == value,
        decreases rows - r,
    {
        let mut row: Vec<T> = Vec::new();
        let mut c: usize = 0;
        while c < cols
            invariant
                c <= cols,
                row@.len() == c,
                forall|j: int| 0 <= j < c ==> #[trigger] row@[j] == value,
            decreases cols - c,
        {
            row.push(value);
            c = c + 1;
        }
        g.push(row);
        r = r + 1;
    }
    g
}

impl Clone for Maze {
    fn clone(&self) -> (copy: Maze)
        ensures
            copy@ == self@,
    {
        let mut door_cells: Vec<(usize, usize)> = Vec::new();
        let mut i: usize = 0;
        while i < self.door_cells.len()
            invariant
                i <= self.door_cells@.len(),
                door_cells@ =~= self.door_cells@.take(i as int),
            decreases self.door_cells@.len() - i,
        {
            door_cells.push(self.door_cells[i]);
            i = i + 1;
        }
        Maze {
            rows: self.rows,
            cols: self.cols,
            base: copy_grid(&self.base),
            pellets: copy_grid(&self.pellets),
            door_cells,
            tunnel_left: self.tunnel_left,
            tunnel_right: self.tunnel_right,
        }
    }
}

impl Maze {
    /// The maze's grids have its dimensions and its marked cells lie on them.
    pub open spec fn wf(&self) -> bool {
        self@.wf()
    }

    /// Whether the cell lies on the grid.
    pub fn in_bounds(&self, r: i32, c: i32) -> (b: bool)
        ensures
            b == self@.layout.in_bounds((r as int, c as int)),
    {
        r >= 0 && c >= 0 && (r as usize) < self.rows && (c as usize) < self.cols
    }

    /// Whether the cell is a wall; out of bounds counts as wall.
    pub fn is_wall(&self, r: i32, c: i32) -> (b: bool)
        requires
            self@.layout.is_drawn(),
        ensures
            b == !self@.layout.walkable((r as int, c as int)),
    {
        !self.in_bounds(r, c) || self.is_wall_strict(r, c)
    }

    /// Whether the cell belongs to the ghost-house door.
    pub fn is_door(&self, r: i32, c: i32) -> (b: bool)
        requires
            self@.layout.is_drawn(),
        ensures
            b == self@.layout.door((r as int, c as int)),
    {
        self.in_bounds(r, c) && {
            assert(grid(self.base@)[r as int].len() == self.cols);
            self.base[r as usize][c as usize] == DOOR
        }
    }

    /// Whether the cell lies on the grid and is not a wall.
    pub fn is_walkable(&self, r: i32, c: i32) -> (b: bool)
        requires
            self@.layout.is_drawn(),
        ensures
            b == self@.layout.walkable((r as int, c as int)),
    {
        self.in_bounds(r, c) && !self.is_wall_strict(r, c)
    }

    /// Wall test without the out-of-bounds-as-wall collapse. Caller must
    /// keep coordinates in bounds.
    pub fn is_wall_strict(&self, r: i32, c: i32) -> (b: bool)
        requires
            self@.layout.is_drawn(),
            self@.layout.in_bounds((r as int, c as int)),
        ensures
            b == is_wall_char(self@.layout.at((r as int, c as int))),
    {
        assert(grid(self.base@)[r as int].len() == self.cols);
        let ch: char = self.base[r as usize][c as usize];
        let mut i: usize = 0;
        while i < WALL_CHARS.len()
            invariant
                i <= 10,
                ch == self@.layout.at((r as int, c as int)),
                forall|j: int| 0 <= j < i ==> WALL_CHARS@[j] != ch,
            decreases 10 - i,
        {
            if WALL_CHARS[i] == ch {
                assert(WALL_CHARS@[i as int] == ch);
                return true;
            }
            i = i + 1;
        }
        false
    }

    /// Wraps a step that leaves the grid through a tunnel mouth. Both mouths
    /// sit in one column, so wrapping triggers when the row leaves the grid.
    pub fn apply_tunnel(&self, r: i32, c: i32) -> (p: (i32, i32))
        requires
            self@.layout.mouths_fit(),
        ensures
            (p.0 as int, p.1 as int) == self@.layout.tunnel((r as int, c as int)),
    {
        let (lr, lc) = self.tunnel_left;
        let (rr, rc) = self.tunnel_right;
        if c == lc as i32 && r < 0 {
            return (rr as i32, rc as i32);
        }
        if c == rc as i32 && r >= self.rows as i32 {
            return (lr as i32, lc as i32);
        }
        (r, c)
    }

    /// Where a player's step to this cell ends: on a cell that is neither
    /// wall nor house door, or nowhere.
    pub fn can_move_player(&self, r: i32, c: i32) -> (p: Option<(i32, i32)>)
        requires
            self@.layout.is_drawn(),
            self@.layout.mouths_fit(),
        ensures
            ({
                let to = self@.layout.tunnel((r as int, c as int));
                match p {
                    Some(q) => (q.0 as int, q.1 as int) == to && self@.layout.open_to_player(to),
                    None => !self@.layout.open_to_player(to),
                }
            }),
    {
        let (r, c) = self.apply_tunnel(r, c);
        if !self.in_bounds(r, c) || self.is_wall_strict(r, c) || self.is_door(r, c) {
            None
        } else {
            Some((r, c))
        }
    }

    /// Where a ghost's step to this cell ends: on a walkable cell, doors
    /// allowed, or nowhere.
    pub fn can_move_ghost(&self, r: i32, c: i32) -> (p: Option<(i32, i32)>)
        requires
            self@.layout.is_drawn(),
            self@.layout.mouths_fit(),
        ensures
            ({
                let to = self@.layout.tunnel((r as int, c as int));
                match p {
                    Some(q) => (q.0 as int, q.1 as int) == to && self@.layout.walkable(to),
                    None => !self@.layout.walkable(to),
                }
            }),
    {
        let (r, c) = self.apply_tunnel(r, c);
        if !self.in_bounds(r, c) || self.is_wall_strict(r, c) {
            None
        } else {
            Some((r, c))
        }
    }

    /// Counts the dots and power pellets currently on the board, as far as a
    /// 32-bit counter goes.
    pub fn pellet_count(&self) -> (n: u32)
        ensures
            n == pellets_on(self@.pellets) % 0x1_0000_0000,
    {
        let mut n: u32 = 0;
        let mut r: usize = 0;
        while r < self.pellets.len()
            invariant
                r <= self.pellets@.len(),
                n == pellets_in_rows(grid(self.pellets@), r as int) % 0x1_0000_0000,
            decreases self.pellets@.len() - r,
        {
            let ghost row = grid(self.pellets@)[r as int];
            let ghost above = pellets_in_rows(grid(self.pellets@), r as int);
            let mut c: usize = 0;
            while c < self.pellets[r].len()
                invariant
                    r < self.pellets@.len(),
                    row == self.pellets@[r as int]@,
                    c <= row.len(),
                    n == (above + pellets_in_row(row, c as int)) % 0x1_0000_0000,
                decreases row.len() - c,
            {
                if self.pellets[r][c] != Pellet::Empty {
                    n = n.wrapping_add(1);
                }
                c = c + 1;
            }
            r = r + 1;
        }
        n
    }
}

/// Every template row has 21 characters, and the door and the tunnel mouths
/// are drawn exactly once.
pub(crate) proof fn template_marks(r: int, c: int)
    requires
        0 <= r < 21,
        0 <= c < 26,
    ensures
        NATIVE_TEMPLATE@[c]@.len() == 21,
        template_at(r, c) == DOOR <==> (r == 10 && c == 11),
        template_at(r, c) == TUNNEL_LEFT <==> (r == 0 && c == 12),
        template_at(r, c) == TUNNEL_RIGHT <==> (r == 20 && c == 12),
{
    if c == 0 {
        reveal_strlit("╔═════════╦═════════╗");
    } else if c == 1 {
        reveal_strlit("║·········║·········║");
    } else if c == 2 {
        reveal_strlit("║·╔═╗·╔═╗·║·╔═╗·╔═╗·║");
    } else if c == 3 {
        reveal_strlit("║*║ ║·║ ║·║·║ ║·║ ║*║");
    } else if c == 4 {
        reveal_strlit("║·╚═╝·╚═╝·║·╚═╝·╚═╝·║");
    } else if c == 5 {
        reveal_strlit("║···················║");
    } else if c == 6 {
        reveal_strlit("║·╔═╗·║·╔═══╗·║·╔═╗·║");
    } else if c == 7 {
        reveal_strlit("║·╚═╝·║·╚═╦═╝·║·╚═╝·║");
    } else if c == 8 {
        reveal_strlit("║·····║···║···║·····║");
    } else if c == 9 {
        reveal_strlit("╚═══╗·╠══ ║ ══╣·╔═══╝");
    } else if c == 10 {
        reveal_strlit("    ║·║       ║·║    ");
    } else if c == 11 {
        reveal_strlit("════╝·║ ╔═-═╗ ║·╚════");
    } else if c == 12 {
        reveal_strlit("<    ·  ║   ║  ·    >");
    } else if c == 13 {
        reveal_strlit("════╗·║ ╚═══╝ ║·╔════");
    } else if c == 14 {
        reveal_strlit("    ║·║       ║·║    ");
    } else if c == 15 {
        reveal_strlit("    ║·║ ╔═══╗ ║·║    ");
    } else if c == 16 {
        reveal_strlit("╔═══╝·║ ╚═╦═╝ ║·╚═══╗");
    } else if c == 17 {
        reveal_strlit("║·········║·········║");
    } else if c == 18 {
        reveal_strlit("║·══╗·═══·║·═══·╔══·║");
    } else if c == 19 {
        reveal_strlit("║*··║···········║··*║");
    } else if c == 20 {
        reveal_strlit("╠═╗·║·║·╔═══╗·║·║·╔═╣");
    } else if c == 21 {
        reveal_strlit("╠═╝·║·║·╚═╦═╝·║·║·╚═╣");
    } else if c == 22 {
        reveal_strlit("║·····║···║···║·····║");
    } else if c == 23 {
        reveal_strlit("║·════╩══·║·══╩════·║");
    } else if c == 24 {
        reveal_strlit("║···················║");
    } else if c == 25 {
        reveal_strlit("╚═══════════════════╝");
    }
}

/// A fresh board holds 191 pellets.
pub proof fn native_maze_holds_191_pellets()
    ensures
        pellets_on(native_maze().pellets) == 191,
{
    reveal(native_maze);
    reveal_strlit("╔═════════╦═════════╗");
    reveal_strlit("║·········║·········║");
    reveal_strlit("║·╔═╗·╔═╗·║·╔═╗·╔═╗·║");
    reveal_strlit("║*║ ║·║ ║·║·║ ║·║ ║*║");
    reveal_strlit("║·╚═╝·╚═╝·║·╚═╝·╚═╝·║");
    reveal_strlit("║···················║");
    reveal_strlit("║·╔═╗·║·╔═══╗·║·╔═╗·║");
    reveal_strlit("║·╚═╝·║·╚═╦═╝·║·╚═╝·║");
    reveal_strlit("║·····║···║···║·····║");
    reveal_strlit("╚═══╗·╠══ ║ ══╣·╔═══╝");
    reveal_strlit("    ║·║       ║·║    ");
    reveal_strlit("════╝·║ ╔═-═╗ ║·╚════");
    reveal_strlit("<    ·  ║   ║  ·    >");
    reveal_strlit("════╗·║ ╚═══╝ ║·╔════");
    reveal_strlit("    ║·║ ╔═══╗ ║·║    ");
    reveal_strlit("╔═══╝·║ ╚═╦═╝ ║·╚═══╗");
    reveal_strlit("║·══╗·═══·║·═══·╔══·║");
    reveal_strlit("║*··║···········║··*║");
    reveal_strlit("╠═╗·║·║·╔═══╗·║·║·╔═╣");
    reveal_strlit("╠═╝·║·║·╚═╦═╝·║·║·╚═╣");
    reveal_strlit("║·════╩══·║·══╩════·║");
    reveal_strlit("╚═══════════════════╝");
    reveal_with_fuel(pellets_in_row, 27);
    reveal_with_fuel(pellets_in_rows, 22);
    let p = native_maze().pellets;
    assert(pellets_in_row(p[0], 26) == 0);
    assert(pellets_in_row(p[1], 26) == 14);
    assert(pellets_in_row(p[2], 26) == 7);
    assert(pellets_in_row(p[3], 26) == 9);
    assert(pellets_in_row(p[4], 26) == 6);
    assert(pellets_in_row(p[5], 26) == 23);
    assert(pellets_in_row(p[6], 26) == 5);
    assert(pellets_in_row(p[7], 26) == 11);
    assert(pellets_in_row(p[8], 26) == 7);
    assert(pellets_in_row(p[9], 26) == 12);
    assert(pellets_in_row(p[10], 26) == 3);
    assert(pellets_in_row(p[11], 26) == 12);
    assert(pellets_in_row(p[12], 26) == 7);
    assert(pellets_in_row(p[13], 26) == 11);
    assert(pellets_in_row(p[14], 26) == 5);
    assert(pellets_in_row(p[15], 26) == 23);
    assert(pellets_in_row(p[16], 26) == 6);
    assert(pellets_in_row(p[17], 26) == 9);
    assert(pellets_in_row(p[18], 26) == 7);
    assert(pellets_in_row(p[19], 26) == 14);
    assert(pellets_in_row(p[20], 26) == 0);
}

/// The template's layout is valid, 21 rows of 26 columns, and the cells that a
/// level starts from are free to stand on.
pub proof fn native_layout_is_valid()
    ensures
        native_maze().wf(),
        native_maze().layout == native_layout(),
        native_layout().rows == 21,
        native_layout().cols == 26,
        native_layout().door_cells == seq![(10int, 11int)],
        native_layout().tunnel_left == (0int, 12int),
        native_layout().tunnel_right == (20int, 12int),
        native_layout().open_to_player((9, 18)),
        native_layout().open_to_player((10, 12)),
        native_layout().open_to_player((10, 14)),
{
    reveal(native_layout);
    reveal(native_maze);
    let l = native_layout();
    reveal_strlit("║·══╗·═══·║·═══·╔══·║");
    reveal_strlit("<    ·  ║   ║  ·    >");
    reveal_strlit("    ║·║       ║·║    ");
    assert(l.at((9, 18)) == '·');
    assert(l.at((10, 12)) == ' ');
    assert(l.at((10, 14)) == ' ');
}

/// The character of the template that lands on row `r`, column `c`.
fn template_char(r: usize, c: usize) -> (ch: char)
    requires
        c < 26,
    ensures
        ch == template_at(r as int, c as int),
{
    let row: &'static str = NATIVE_TEMPLATE[c];
    if r < row.unicode_len() {
        row.get_char(r)
    } else {
        ' '
    }
}

/// The number of characters in the longest template row.
fn template_width() -> (n: usize)
    ensures
        n == 21,
{
    let mut n: usize = 0;
    let mut c: usize = 0;
    while c < NATIVE_TEMPLATE.len()
        invariant
            c <= 26,
            n == if c == 0 {
                0int
            } else {
                21
            },
        decreases 26 - c,
    {
        proof {
            template_marks(0, c as int);
        }
        let width: usize = NATIVE_TEMPLATE[c].unicode_len();
        if width > n {
            n = width;
        }
        c = c + 1;
    }
    n
}

/// Whether the cell comes after `mark` in reading order.
spec fn past(r: int, c: int, mark: Spot) -> bool {
    r > mark.0 || (r == mark.0 && c > mark.1)
}

/// Parses [`NATIVE_TEMPLATE`] into the board, lying on its side.
///
/// Pellet-track characters stay visible in `base`, pellets are seeded from
/// them, door and tunnel cells are recorded.
pub fn parse() -> (maze: Maze)
    ensures
        maze@ == native_maze(),
        maze.wf(),
        maze.rows == 21,
        maze.cols == 26,
        maze.door_cells@ == seq![(10usize, 11usize)],
        maze.tunnel_left == (0usize, 12usize),
        maze.tunnel_right == (20usize, 12usize),
{
    reveal(native_layout);
    reveal(native_maze);
    let rows: usize = template_width();
    let cols: usize = NATIVE_TEMPLATE.len();
    let mut base: Vec<Vec<char>> = Vec::new();
    let mut pellets: Vec<Vec<Pellet>> = Vec::new();
    let mut door_cells: Vec<(usize, usize)> = Vec::new();
    let mut tunnel_left: (usize, usize) = (0, 0);
    let mut tunnel_right: (usize, usize) = (0, 0);
    let mut r: usize = 0;
    while r < rows
        invariant
            rows == 21,
            cols == 26,
            r <= 21,
            grid(base@) =~= native_layout().base.take(r as int),
            grid(pellets@) =~= native_maze().pellets.take(r as int),
            door_cells@ =~= if past(r as int, 0, (10, 11)) {
                seq![(10usize, 11usize)]
            } else {
                seq![]
            },
            past(r as int, 0, (0, 12)) ==> tunnel_left == (0usize, 12usize),
            past(r as int, 0, (20, 12)) ==> tunnel_right == (20usize, 12usize),
        decreases 21 - r,
    {
        reveal(native_layout);
        reveal(native_maze);
        let ghost base_above = base@;
        let ghost pellets_above = pellets@;
        let mut base_row: Vec<char> = Vec::new();
        let mut pellet_row: Vec<Pellet> = Vec::new();
        let mut c: usize = 0;
        while c < cols
            invariant
                cols == 26,
                r < 21,
                c <= 26,
                base_row@ =~= native_layout().base[r as int].take(c as int),
                pellet_row@ =~= native_maze().pellets[r as int].take(c as int),
                door_cells@ =~= if past(r as int, c as int, (10, 11)) {
                    seq![(10usize, 11usize)]
                } else {
                    seq![]
                },
                past(r as int, c as int, (0, 12)) ==> tunnel_left == (0usize, 12usize),
                past(r as int, c as int, (20, 12)) ==> tunnel_right == (20usize, 12usize),
            decreases 26 - c,
        {
            reveal(native_layout);
            reveal(native_maze);
            let ch: char = template_char(r, c);
            base_row.push(ch);
            pellet_row.push(
                if ch == PELLET {
                    Pellet::Dot
                } else if ch == POWER {
                    Pellet::Power
                } else {
                    Pellet::Empty
                },
            );
            proof {
                template_marks(r as int, c as int);
            }
            if ch == DOOR {
                door_cells.push((r, c));
            } else if ch == TUNNEL_LEFT {
                tunnel_left = (r, c);
            } else if ch == TUNNEL_RIGHT {
                tunnel_right = (r, c);
            }
            c = c + 1;
        }
        assert(base_row@ =~= native_layout().base[r as int]);
        assert(pellet_row@ =~= native_maze().pellets[r as int]);
        base.push(base_row);
        pellets.push(pellet_row);
        assert(grid(base@) =~= grid(base_above).push(base_row@));
        assert(grid(pellets@) =~= grid(pellets_above).push(pellet_row@));
        r = r + 1;
    }
    let maze = Maze { rows, cols, base, pellets, door_cells, tunnel_left, tunnel_right };
    proof {
        native_layout_is_valid();
        assert(maze@.layout =~= native_layout());
        assert(maze@.pellets =~= native_maze().pellets);
    }
    maze
}

} // verus!
