//! Counting pellets and points: what is left on the board, and the most that a
//! run can still score.

use vstd::prelude::*;

use crate::maze;
use crate::maze::Pellet;

verus! {

/// The most that a pellet can bring: its own points and, for a power pellet,
/// the four ghosts of its power cycle.
pub open spec fn worth_of(p: Pellet) -> int {
    match p {
        Pellet::Empty => 0,
        Pellet::Dot => 10,
        Pellet::Power => 3050,
    }
}

/// The most that the first `n` cells of a row can bring.
pub open spec fn worth_in_row(row: Seq<Pellet>, n: int) -> int
    decreases n,
{
    if n <= 0 {
        0
    } else {
        worth_in_row(row, n - 1) + worth_of(row[n - 1])
    }
}

/// The most that the first `n` rows can bring.
pub open spec fn worth_in_rows(pellets: Seq<Seq<Pellet>>, n: int) -> int
    decreases n,
{
    if n <= 0 {
        0
    } else {
        worth_in_rows(pellets, n - 1) + worth_in_row(
            pellets[n - 1],
            pellets[n - 1].len() as int,
        )
    }
}

/// The most that the pellets on the board can bring.
pub open spec fn worth_on(pellets: Seq<Seq<Pellet>>) -> int {
    worth_in_rows(pellets, pellets.len() as int)
}

/// The board after the pellet on one cell is gone.
pub open spec fn without(pellets: Seq<Seq<Pellet>>, r: int, c: int) -> Seq<Seq<Pellet>> {
    pellets.update(r, pellets[r].update(c, Pellet::Empty))
}

/// A fresh board can bring 14070 points.
pub proof fn native_maze_is_worth_14070()
    ensures
        worth_on(maze::native_maze().pellets) == 14070,
{
    reveal(maze::native_maze);
    reveal_strlit("╔═════════╦═════════╗");
    reveal_strlit("║·········║·········║");
    reveal_strlit("║·╔═╗·╔═╗·║·╔═╗·╔═╗·║");
    reveal_strlit("║*║ ║·║ ║·║·║ ║·║ ║*║");
    reveal_strlit("║·╚═╝·╚═╝·║·╚═╝·╚═╝·║");
    reveal_strlit("║···················║");
    reveal_strlit("║·╔═╗·║·╔═══╗·║·╔═╗·║");
    reveal_strlit("║·╚═╝·║·╚═╦═╝·║·╚═╝·║");
    reveal_strlit("║·····║···║···║·····║");
    reveal_strlit("╚═══╗·╠══ ║ ══╣·╔═══╝");
    reveal_strlit("    ║·║       ║·║    ");
    reveal_strlit("════╝·║ ╔═-═╗ ║·╚════");
    reveal_strlit("<    ·  ║   ║  ·    >");
    reveal_strlit("════╗·║ ╚═══╝ ║·╔════");
    reveal_strlit("    ║·║ ╔═══╗ ║·║    ");
    reveal_strlit("╔═══╝·║ ╚═╦═╝ ║·╚═══╗");
    reveal_strlit("║·══╗·═══·║·═══·╔══·║");
    reveal_strlit("║*··║···········║··*║");
    reveal_strlit("╠═╗·║·║·╔═══╗·║·║·╔═╣");
    reveal_strlit("╠═╝·║·║·╚═╦═╝·║·║·╚═╣");
    reveal_strlit("║·════╩══·║·══╩════·║");
    reveal_strlit("╚═══════════════════╝");
    reveal_with_fuel(worth_in_row, 27);
    reveal_with_fuel(worth_in_rows, 22);
    let p = maze::native_maze().pellets;
    assert(worth_in_row(p[0], 26) == 0);
    assert(worth_in_row(p[1], 26) == 6220);
    assert(worth_in_row(p[2], 26) == 70);
    assert(worth_in_row(p[3], 26) == 90);
    assert(worth_in_row(p[4], 26) == 60);
    assert(worth_in_row(p[5], 26) == 230);
    assert(worth_in_row(p[6], 26) == 50);
    assert(worth_in_row(p[7], 26) == 110);
    assert(worth_in_row(p[8], 26) == 70);
    assert(worth_in_row(p[9], 26) == 120);
    assert(worth_in_row(p[10], 26) == 30);
    assert(worth_in_row(p[11], 26) == 120);
    assert(worth_in_row(p[12], 26) == 70);
    assert(worth_in_row(p[13], 26) == 110);
    assert(worth_in_row(p[14], 26) == 50);
    assert(worth_in_row(p[15], 26) == 230);
    assert(worth_in_row(p[16], 26) == 60);
    assert(worth_in_row(p[17], 26) == 90);
    assert(worth_in_row(p[18], 26) == 70);
    assert(worth_in_row(p[19], 26) == 6220);
    assert(worth_in_row(p[20], 26) == 0);
}

proof fn row_without(row: Seq<Pellet>, c: int, n: int)
    requires
        0 <= c < row.len(),
        0 <= n <= row.len(),
    ensures
        worth_in_row(row.update(c, Pellet::Empty), n) == worth_in_row(row, n) - if c < n {
            worth_of(row[c])
        } else {
            0
        },
        maze::pellets_in_row(row.update(c, Pellet::Empty), n) == maze::pellets_in_row(row, n) - if c
            < n && row[c] != Pellet::Empty {
            1int
        } else {
            0
        },
    decreases n,
{
    if n > 0 {
        row_without(row, c, n - 1);
    }
}

proof fn rows_without(pellets: Seq<Seq<Pellet>>, r: int, c: int, n: int)
    requires
        0 <= r < pellets.len(),
        0 <= c < pellets[r].len(),
        0 <= n <= pellets.len(),
    ensures
        worth_in_rows(without(pellets, r, c), n) == worth_in_rows(pellets, n) - if r < n {
            worth_of(pellets[r][c])
        } else {
            0
        },
        maze::pellets_in_rows(without(pellets, r, c), n) == maze::pellets_in_rows(pellets, n) - if r
            < n && pellets[r][c] != Pellet::Empty {
            1int
        } else {
            0
        },
    decreases n,
{
    if n > 0 {
        rows_without(pellets, r, c, n - 1);
        if r == n - 1 {
            row_without(pellets[r], c, pellets[r].len() as int);
        }
    }
}

/// Taking one pellet off the board lowers the count by one, and the worth by
/// what that pellet could bring.
pub proof fn taking_a_pellet(pellets: Seq<Seq<Pellet>>, r: int, c: int)
    requires
        0 <= r < pellets.len(),
        0 <= c < pellets[r].len(),
        pellets[r][c] != Pellet::Empty,
    ensures
        maze::pellets_on(without(pellets, r, c)) == maze::pellets_on(pellets) - 1,
        worth_on(without(pellets, r, c)) == worth_on(pellets) - worth_of(pellets[r][c]),
{
    rows_without(pellets, r, c, pellets.len() as int);
}

proof fn row_worth_is_not_negative(row: Seq<Pellet>, n: int)
    ensures
        worth_in_row(row, n) >= 0,
    decreases n,
{
    if n > 0 {
        row_worth_is_not_negative(row, n - 1);
    }
}

/// No board is worth less than nothing.
pub proof fn worth_is_not_negative(pellets: Seq<Seq<Pellet>>, n: int)
    ensures
        worth_in_rows(pellets, n) >= 0,
    decreases n,
{
    if n > 0 {
        worth_is_not_negative(pellets, n - 1);
        row_worth_is_not_negative(pellets[n - 1], pellets[n - 1].len() as int);
    }
}

} // verus!
