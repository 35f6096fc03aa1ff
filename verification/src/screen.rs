//! What the pane shows: the maze, the score board beside it and the banner
//! below, cell by cell and line by line.

use vstd::prelude::*;

use crate::{laws, maze, rules, text};
use crate::engine::{Game, GhostInfo};
use crate::maze::{Maze, MazeView, Pellet, Spot};
use crate::model::{GameView, GhostView};
use crate::rules::{Banner, BannerColor, GhostId, GhostState};
use crate::text::{digits, join, repeated, spaced_out};

verus! {

/// Rows of the maze.
pub const MAZE_ROWS: u16 = 21;

/// Columns of the maze.
pub const MAZE_COLS: u16 = 26;

/// Rows that the pane needs: the maze and the banner.
pub const MIN_ROWS: u16 = 22;

/// Columns that the pane needs: the maze and the score board.
pub const MIN_COLS: u16 = 40;

/// Lines of the score board.
pub const HUD_ROWS: u16 = 17;

/// The pane's name.
pub const TITLE: &'static str = "Pac-Man";

/// The keys, as the pane's lower border names them.
pub const KEY_HINTS: &'static str = " ↑↓←→ move · r restart · y/n confirm ";

/// The colors that the pane draws with.
#[derive(Clone, Copy, Debug, PartialEq, Eq, Structural)]
pub enum Color {
    Red,
    Green,
    Yellow,
    Blue,
    Magenta,
    Cyan,
    White,
    DarkGray,
    LightYellow,
    LightBlue,
    LightCyan,
    Rgb(u8, u8, u8),
}

/// A rectangle of the screen.
#[derive(Clone, Copy, Debug, PartialEq, Eq, Structural)]
pub struct Area {
    pub x: u16,
    pub y: u16,
    pub width: u16,
    pub height: u16,
}

/// A coordinate, or the last one if it lies beyond.
pub open spec fn at_most_last(n: int) -> u16 {
    if n > u16::MAX {
        u16::MAX
    } else {
        n as u16
    }
}

/// What is left of a width or a height without its two borders.
pub open spec fn without_borders(n: u16) -> u16 {
    if n >= 2 {
        (n - 2) as u16
    } else {
        0
    }
}

/// Where the inside starts: one past the border, as far as there is room.
pub open spec fn past_border(start: u16, extent: u16) -> u16 {
    if extent == 0 {
        start
    } else {
        at_most_last(start + 1)
    }
}

impl Area {
    /// The area inside a border on all four sides.
    pub open spec fn inside(self) -> Area {
        Area {
            x: past_border(self.x, self.width),
            y: past_border(self.y, self.height),
            width: without_borders(self.width),
            height: without_borders(self.height),
        }
    }

    /// Whether the board fits.
    pub open spec fn has_room(self) -> bool {
        self.width >= MIN_COLS && self.height >= MIN_ROWS
    }

    /// Whether all that the board draws has coordinates.
    pub open spec fn placeable(self) -> bool {
        &&& self.x + MAZE_COLS + 1 <= u16::MAX
        &&& self.y + MAZE_ROWS <= u16::MAX
        &&& self.y + (self.height - HUD_ROWS) / 2 <= u16::MAX
    }

    /// Where the score board goes: beside the maze, half way down.
    pub open spec fn hud_place(self) -> Area {
        Area {
            x: (self.x + 27) as u16,
            y: (self.y + (self.height - 17) / 2) as u16,
            width: (self.width - 27) as u16,
            height: 17,
        }
    }

    /// Where the banner goes: the row below the maze.
    pub open spec fn banner_place(self) -> Area {
        Area { x: self.x, y: (self.y + 21) as u16, width: self.width, height: 1 }
    }
}

/// [`ratatui::widgets::Block::inner`] of a block with all borders: the area
/// shrinks by one cell on each side, and to nothing where there is no room; the
/// corner stays on the screen.
#[verifier::external_body]
fn inside_border(area: Area) -> (inner: Area)
    ensures
        inner == area.inside(),
{
    let outer = ratatui::layout::Rect {
        x: area.x,
        y: area.y,
        width: area.width,
        height: area.height,
    };
    let block = ratatui::widgets::Block::default().borders(ratatui::widgets::Borders::ALL);
    let inner = block.inner(outer);
    Area { x: inner.x, y: inner.y, width: inner.width, height: inner.height }
}

// ---- colors and texts ----------------------------------------------------

/// A ghost's own color.
pub open spec fn color_of_ghost(id: GhostId) -> Color {
    match id {
        GhostId::Blinky => Color::Red,
        GhostId::Pinky => Color::Magenta,
        GhostId::Inky => Color::Cyan,
        GhostId::Clyde => Color::Rgb(255, 165, 0),
    }
}

/// A ghost's own color.
pub fn ghost_color(id: GhostId) -> (color: Color)
    ensures
        color == color_of_ghost(id),
{
    match id {
        GhostId::Blinky => Color::Red,
        GhostId::Pinky => Color::Magenta,
        GhostId::Inky => Color::Cyan,
        GhostId::Clyde => Color::Rgb(255, 165, 0),
    }
}

/// A banner's color on the screen.
pub open spec fn color_of_banner(color: BannerColor) -> Color {
    match color {
        BannerColor::Yellow => Color::Yellow,
        BannerColor::Cyan => Color::Cyan,
        BannerColor::Magenta => Color::Magenta,
        BannerColor::Green => Color::Green,
        BannerColor::Red => Color::Red,
        BannerColor::Gray => Color::DarkGray,
    }
}

/// A banner's color on the screen.
pub fn banner_color(color: BannerColor) -> (shown: Color)
    ensures
        shown == color_of_banner(color),
{
    match color {
        BannerColor::Yellow => Color::Yellow,
        BannerColor::Cyan => Color::Cyan,
        BannerColor::Magenta => Color::Magenta,
        BannerColor::Green => Color::Green,
        BannerColor::Red => Color::Red,
        BannerColor::Gray => Color::DarkGray,
    }
}

/// What a banner says in a game with these scores.
pub open spec fn words_of(banner: Banner, score: nat, best: nat) -> Seq<char> {
    match banner {
        Banner::Blank => Seq::empty(),
        Banner::Countdown(n) => text::decimal(n as nat),
        Banner::Ready => "Ready!"@,
        Banner::Power => "Power Pellet Active!"@,
        Banner::Fruit => "Fruit Collected!"@,
        Banner::GhostEaten => "Ghost eaten!"@,
        Banner::Waiting => "Ghosts retreating..."@,
        Banner::LevelClear(n) => "Level Cleared! "@ + text::decimal(n as nat),
        Banner::Won => "You collected all the dots! · r to restart"@,
        Banner::Lost => "Game Over · score "@ + text::decimal(score) + " · best "@
            + text::decimal(best) + " · r to restart"@,
        Banner::ConfirmRestart => "Confirm restart? [Y] Yes / [N] No"@,
    }
}

/// What a banner says.
pub fn banner_text(game: &Game, banner: Banner) -> (words: String)
    ensures
        words@ == words_of(banner, game@.score as nat, game@.best_score as nat),
{
    match banner {
        Banner::Blank => String::new(),
        Banner::Countdown(n) => digits(n),
        Banner::Ready => "Ready!".to_owned(),
        Banner::Power => "Power Pellet Active!".to_owned(),
        Banner::Fruit => "Fruit Collected!".to_owned(),
        Banner::GhostEaten => "Ghost eaten!".to_owned(),
        Banner::Waiting => "Ghosts retreating...".to_owned(),
        Banner::LevelClear(n) => join("Level Cleared! ".to_owned(), digits(n as u32).as_str()),
        Banner::Won => "You collected all the dots! · r to restart".to_owned(),
        Banner::Lost => {
            let score = join("Game Over · score ".to_owned(), digits(game.score()).as_str());
            let best = join(join(score, " · best "), digits(game.best_score()).as_str());
            join(best, " · r to restart")
        },
        Banner::ConfirmRestart => "Confirm restart? [Y] Yes / [N] No".to_owned(),
    }
}

// ---- the maze ------------------------------------------------------------

/// The first of the ghosts, from the `i`-th on, that stands on `p`.
pub open spec fn ghost_on(ghosts: Seq<GhostView>, p: Spot, i: int) -> Option<GhostView>
    decreases ghosts.len() - i,
{
    if i < 0 || i >= ghosts.len() {
        None
    } else if ghosts[i].pos == p {
        Some(ghosts[i])
    } else {
        ghost_on(ghosts, p, i + 1)
    }
}

/// How a ghost looks: only its eyes after it was eaten, blue while it can be
/// eaten, else in its own color.
pub open spec fn look_of_ghost(v: GameView, g: GhostView) -> Color {
    if g.state == GhostState::Eyes {
        Color::White
    } else if g.state == GhostState::Frightened && !v.power_eaten[g.id.place()] {
        Color::LightBlue
    } else {
        color_of_ghost(g.id)
    }
}

/// How the cell `p` of the maze looks where neither player nor ghost nor fruit
/// hides it.
pub open spec fn look_of_floor(m: MazeView, p: Spot) -> (char, Color) {
    match m.pellets[p.0][p.1] {
        Pellet::Dot => ('·', Color::White),
        Pellet::Power => ('*', Color::Yellow),
        Pellet::Empty => if maze::is_wall_char(m.layout.at(p)) {
            (m.layout.at(p), Color::Blue)
        } else if m.layout.door(p) {
            ('-', Color::White)
        } else {
            (' ', Color::White)
        },
    }
}

/// How the cell `p` looks: the player hides the ghosts, these hide the fruit,
/// and the fruit hides the floor.
pub open spec fn look_of(v: GameView, m: MazeView, p: Spot) -> (char, Color) {
    if v.player.pos == p {
        (
            '@',
            if v.power_left() > 0 {
                Color::LightCyan
            } else {
                Color::LightYellow
            },
        )
    } else if ghost_on(v.ghosts, p, 0) is Some {
        ('&', look_of_ghost(v, ghost_on(v.ghosts, p, 0)->0))
    } else if v.fruit.active && v.fruit.pos == p {
        (rules::fruit_of(v.level).0, Color::Magenta)
    } else {
        look_of_floor(m, p)
    }
}

/// The first ghost on a cell.
fn find_ghost(game: &Game, r: i32, c: i32) -> (found: Option<GhostInfo>)
    ensures
        found is Some <==> ghost_on(game@.ghosts, (r as int, c as int), 0) is Some,
        found matches Some(g) ==> g.shows(ghost_on(game@.ghosts, (r as int, c as int), 0)->0),
{
    let ghosts = game.ghosts();
    let mut i: usize = 0;
    while i < ghosts.len()
        invariant
            i <= ghosts@.len(),
            ghosts@.len() == game@.ghosts.len(),
            forall|j: int|
                0 <= j < ghosts@.len() ==> #[trigger] ghosts@[j].shows(game@.ghosts[j]),
            ghost_on(game@.ghosts, (r as int, c as int), 0) == ghost_on(
                game@.ghosts,
                (r as int, c as int),
                i as int,
            ),
        decreases ghosts@.len() - i,
    {
        let g: GhostInfo = ghosts[i];
        assert(ghosts@[i as int].shows(game@.ghosts[i as int]));
        if g.r == r && g.c == c {
            return Some(g);
        }
        i = i + 1;
    }
    None
}

/// How a cell of the maze looks.
pub fn cell_visual(game: &Game, maze: &Maze, r: i32, c: i32) -> (look: (char, Color))
    requires
        game.wf(),
        maze.wf(),
        maze@.layout.in_bounds((r as int, c as int)),
    ensures
        look == look_of(game@, maze@, (r as int, c as int)),
{
    let (pr, pc): (i32, i32) = game.player();
    if pr == r && pc == c {
        let color = if game.power_seconds_left() > 0 {
            Color::LightCyan
        } else {
            Color::LightYellow
        };
        return ('@', color);
    }
    if let Some(ghost) = find_ghost(game, r, c) {
        if ghost.state == GhostState::Eyes {
            return ('&', Color::White);
        }
        if ghost.state == GhostState::Frightened && !game.ghost_was_eaten(ghost.id) {
            return ('&', Color::LightBlue);
        }
        return ('&', ghost_color(ghost.id));
    }
    if let Some(fruit) = game.fruit() {
        if fruit.r == r && fruit.c == c {
            return (fruit.symbol, Color::Magenta);
        }
    }
    assert(maze@.pellets[r as int].len() == maze.cols);
    assert(maze@.layout.base[r as int].len() == maze.cols);
    match maze.pellets[r as usize][c as usize] {
        Pellet::Dot => ('·', Color::White),
        Pellet::Power => ('*', Color::Yellow),
        Pellet::Empty => if maze.is_wall_strict(r, c) {
            (maze.base[r as usize][c as usize], Color::Blue)
        } else if maze.is_door(r, c) {
            ('-', Color::White)
        } else {
            (' ', Color::White)
        },
    }
}

/// One character of the maze on the screen.
#[derive(Clone, Copy, Debug, PartialEq, Eq, Structural)]
pub struct Glyph {
    pub x: u16,
    pub y: u16,
    pub ch: char,
    pub color: Color,
}

/// The cell `p` of the maze, drawn from the corner of `inner`.
pub open spec fn glyph_of(v: GameView, inner: Area, p: Spot) -> Glyph {
    let (ch, color) = look_of(v, v.maze, p);
    Glyph { x: (inner.x + p.1) as u16, y: (inner.y + p.0) as u16, ch, color }
}

/// One row of the maze.
fn draw_row(game: &Game, inner: Area, r: u16) -> (row: Vec<Glyph>)
    requires
        game.wf(),
        inner.placeable(),
        r < MAZE_ROWS,
    ensures
        row@ == Seq::new(26, |c: int| glyph_of(game@, inner, (r as int, c))),
{
    let mut row: Vec<Glyph> = Vec::new();
    let mut c: u16 = 0;
    proof {
        maze::native_layout_is_valid();
    }
    while c < MAZE_COLS
        invariant
            c <= MAZE_COLS,
            r < MAZE_ROWS,
            game.wf(),
            game@.maze.layout.rows == 21,
            game@.maze.layout.cols == 26,
            inner.placeable(),
            row@ == Seq::new(c as nat, |k: int| glyph_of(game@, inner, (r as int, k))),
        decreases MAZE_COLS - c,
    {
        let (ch, color): (char, Color) = cell_visual(game, game.maze(), r as i32, c as i32);
        row.push(Glyph { x: inner.x + c, y: inner.y + r, ch, color });
        c = c + 1;
        assert(row@ =~= Seq::new(c as nat, |k: int| glyph_of(game@, inner, (r as int, k))));
    }
    row
}

/// The maze on the screen, one row of characters per row of cells.
fn draw_maze(game: &Game, inner: Area) -> (rows: Vec<Vec<Glyph>>)
    requires
        game.wf(),
        inner.placeable(),
    ensures
        maze_drawn(rows@, game@, inner),
{
    let mut rows: Vec<Vec<Glyph>> = Vec::new();
    let mut r: u16 = 0;
    while r < MAZE_ROWS
        invariant
            r <= MAZE_ROWS,
            game.wf(),
            inner.placeable(),
            rows@.len() == r,
            forall|i: int|
                0 <= i < r ==> (#[trigger] rows@[i])@ == Seq::new(
                    26,
                    |c: int| glyph_of(game@, inner, (i, c)),
                ),
        decreases MAZE_ROWS - r,
    {
        rows.push(draw_row(game, inner, r));
        r = r + 1;
    }
    rows
}

/// Whether `rows` is the whole maze, drawn from the corner of `inner`.
pub open spec fn maze_drawn(rows: Seq<Vec<Glyph>>, v: GameView, inner: Area) -> bool {
    &&& rows.len() == 21
    &&& forall|r: int|
        0 <= r < 21 ==> (#[trigger] rows[r])@ == Seq::new(26, |c: int| glyph_of(v, inner, (r, c)))
}

// ---- the score board -----------------------------------------------------

/// How a line of the score board is set.
#[derive(Clone, Copy, Debug, PartialEq, Eq, Structural)]
pub enum Tone {
    /// A label: dim, so that the value under it is read first.
    Dim,
    /// A value: full white.
    Bright,
    /// Nothing special.
    Plain,
}

/// One line of the score board.
#[derive(Debug)]
pub struct HudLine {
    pub text: String,
    pub tone: Tone,
}

impl View for HudLine {
    type V = (Seq<char>, Tone);

    open spec fn view(&self) -> (Seq<char>, Tone) {
        (self.text@, self.tone)
    }
}

fn dim(text: &str) -> (line: HudLine)
    ensures
        line@ == (text@, Tone::Dim),
{
    HudLine { text: text.to_owned(), tone: Tone::Dim }
}

fn bright(text: String) -> (line: HudLine)
    ensures
        line@ == (text@, Tone::Bright),
{
    HudLine { text, tone: Tone::Bright }
}

fn blank() -> (line: HudLine)
    ensures
        line@ == (Seq::<char>::empty(), Tone::Plain),
{
    HudLine { text: String::new(), tone: Tone::Plain }
}

/// The fruits of a run on the score board.
pub open spec fn fruit_words(symbols: Seq<char>) -> Seq<char> {
    if symbols.len() == 0 {
        "-"@
    } else {
        text::spaced(symbols)
    }
}

/// The score board of a game.
pub open spec fn hud_of(v: GameView) -> Seq<(Seq<char>, Tone)> {
    let gap = (Seq::<char>::empty(), Tone::Plain);
    seq![
        ("High Score"@, Tone::Dim),
        (text::decimal(v.best_score as nat), Tone::Bright),
        gap,
        ("Current Score"@, Tone::Dim),
        (text::decimal(v.score as nat), Tone::Bright),
        gap,
        ("Game Time"@, Tone::Dim),
        (text::decimal((v.elapsed() % 0x1_0000_0000) as nat) + "s"@, Tone::Bright),
        gap,
        ("Level"@, Tone::Dim),
        (text::decimal(v.level as nat), Tone::Bright),
        gap,
        ("Lives"@, Tone::Dim),
        (text::row_of('♥', v.lives as nat), Tone::Bright),
        gap,
        ("Fruit"@, Tone::Dim),
        (fruit_words(v.collected_fruits), Tone::Bright),
    ]
}

/// The lines of a score board, as they read.
pub open spec fn lines_of(hud: Seq<HudLine>) -> Seq<(Seq<char>, Tone)> {
    Seq::new(hud.len(), |i: int| hud[i]@)
}

/// The score board of a game.
pub fn hud_lines(game: &Game) -> (hud: Vec<HudLine>)
    ensures
        lines_of(hud@) == hud_of(game@),
{
    let fruits = if game.collected_fruits().len() == 0 {
        "-".to_owned()
    } else {
        spaced_out(game.collected_fruits())
    };
    let mut hud: Vec<HudLine> = Vec::new();
    hud.push(dim("High Score"));
    hud.push(bright(digits(game.best_score())));
    hud.push(blank());
    hud.push(dim("Current Score"));
    hud.push(bright(digits(game.score())));
    hud.push(blank());
    hud.push(dim("Game Time"));
    hud.push(bright(join(digits(game.elapsed_seconds()), "s")));
    hud.push(blank());
    hud.push(dim("Level"));
    hud.push(bright(digits(game.level() as u32)));
    hud.push(blank());
    hud.push(dim("Lives"));
    hud.push(bright(repeated('♥', game.lives())));
    hud.push(blank());
    hud.push(dim("Fruit"));
    hud.push(bright(fruits));
    assert(lines_of(hud@) =~= hud_of(game@));
    hud
}

// ---- the whole -----------------------------------------------------------

/// All that is drawn where there is room.
#[derive(Debug)]
pub struct Board {
    pub maze: Vec<Vec<Glyph>>,
    pub hud: Vec<HudLine>,
    pub hud_area: Area,
    pub banner: String,
    pub banner_color: Color,
    pub banner_area: Area,
}

impl Board {
    /// Whether this is the board of the game, drawn into `inner`.
    pub open spec fn shows(self, v: GameView, inner: Area) -> bool {
        &&& maze_drawn(self.maze@, v, inner)
        &&& lines_of(self.hud@) == hud_of(v)
        &&& self.hud_area == inner.hud_place()
        &&& self.banner@ == words_of(v.shown_banner().0, v.score as nat, v.best_score as nat)
        &&& self.banner_color == color_of_banner(v.shown_banner().1)
        &&& self.banner_area == inner.banner_place()
    }
}

/// What is drawn inside the pane's border.
#[derive(Debug)]
pub enum Screen {
    /// There is no room for anything.
    Nothing,
    /// There is too little room: how much it takes, and where to say so.
    Hint(String, Area),
    Board(Board),
}

/// What the pane says when the board does not fit.
pub open spec fn hint_of(inner: Area) -> Seq<char> {
    "Pac-Man needs "@ + text::decimal(40) + "×"@ + text::decimal(22) + " cells · now "@
        + text::decimal(inner.width as nat) + "×"@ + text::decimal(inner.height as nat)
}

/// What the pane says when the board does not fit.
fn size_hint(inner: Area) -> (hint: String)
    ensures
        hint@ == hint_of(inner),
{
    let needed = join(
        join(
            join("Pac-Man needs ".to_owned(), digits(MIN_COLS as u32).as_str()),
            "×",
        ),
        digits(MIN_ROWS as u32).as_str(),
    );
    let width = join(join(needed, " cells · now "), digits(inner.width as u32).as_str());
    join(join(width, "×"), digits(inner.height as u32).as_str())
}

impl Screen {
    /// Whether this is what a pane with the game shows in `area`.
    pub open spec fn shows(self, v: GameView, area: Area) -> bool {
        let inner = area.inside();
        if inner.width == 0 || inner.height == 0 {
            self is Nothing
        } else if !inner.has_room() {
            self matches Screen::Hint(hint, place) && hint@ == hint_of(inner) && place == inner
        } else {
            self matches Screen::Board(board) && board.shows(v, inner)
        }
    }

    /// Whether all that would be drawn in `area` has coordinates.
    pub fn fits(area: Area) -> (fits: bool)
        ensures
            fits == (area.inside().has_room() ==> area.inside().placeable()),
    {
        let inner = inside_border(area);
        if inner.width < MIN_COLS || inner.height < MIN_ROWS {
            return true;
        }
        let below: u16 = (inner.height - HUD_ROWS) / 2;
        inner.x <= u16::MAX - (MAZE_COLS + 1) && inner.y <= u16::MAX - MAZE_ROWS && inner.y
            <= u16::MAX - below
    }

    /// What a pane with the game shows in `area`.
    pub fn of(game: &Game, area: Area) -> (screen: Screen)
        requires
            game.wf(),
            area.inside().has_room() ==> area.inside().placeable(),
        ensures
            screen.shows(game@, area),
    {
        let inner = inside_border(area);
        if inner.width == 0 || inner.height == 0 {
            return Screen::Nothing;
        }
        if inner.width < MIN_COLS || inner.height < MIN_ROWS {
            return Screen::Hint(size_hint(inner), inner);
        }
        let (banner, color): (Banner, BannerColor) = game.banner();
        Screen::Board(
            Board {
                maze: draw_maze(game, inner),
                hud: hud_lines(game),
                hud_area: Area {
                    x: inner.x + MAZE_COLS + 1,
                    y: inner.y + (inner.height - HUD_ROWS) / 2,
                    width: inner.width - (MAZE_COLS + 1),
                    height: HUD_ROWS,
                },
                banner: banner_text(game, banner),
                banner_color: banner_color(color),
                banner_area: Area {
                    x: inner.x,
                    y: inner.y + MAZE_ROWS,
                    width: inner.width,
                    height: 1,
                },
            },
        )
    }
}

// ---- laws ----------------------------------------------------------------

/// The pane needs the maze, a row for the banner below it, and a column of space
/// and thirteen of score board beside it.
pub proof fn needed_room_follows_the_maze()
    ensures
        MIN_ROWS == MAZE_ROWS + 1,
        MIN_COLS == MAZE_COLS + 14,
        maze::native_layout().rows == MAZE_ROWS,
        maze::native_layout().cols == MAZE_COLS,
{
    maze::native_layout_is_valid();
}

/// Whatever is drawn lies inside the pane's border, and maze, score board and
/// banner do not overlap.
pub proof fn parts_lie_side_by_side(inner: Area, p: Spot)
    requires
        inner.has_room(),
        inner.x + inner.width <= u16::MAX,
        inner.y + inner.height <= u16::MAX,
        0 <= p.0 < 21,
        0 <= p.1 < 26,
    ensures
        inner.placeable(),
        ({
            let hud = inner.hud_place();
            let banner = inner.banner_place();
            &&& inner.x <= inner.x + p.1 < hud.x
            &&& hud.x + hud.width == inner.x + inner.width
            &&& hud.width >= 13
            &&& inner.y <= hud.y
            &&& hud.y + hud.height <= inner.y + inner.height
            &&& inner.y <= inner.y + p.0 < banner.y
            &&& banner.y + banner.height <= inner.y + inner.height
            &&& banner.x + banner.width <= inner.x + inner.width
        }),
{
}

/// An area that lies on the screen keeps its inside on the screen.
pub proof fn inside_lies_within(area: Area)
    requires
        area.x + area.width <= u16::MAX,
        area.y + area.height <= u16::MAX,
    ensures
        area.x <= area.inside().x,
        area.inside().x + area.inside().width <= area.x + area.width,
        area.y <= area.inside().y,
        area.inside().y + area.inside().height <= area.y + area.height,
{
}

/// The player is always in sight.
pub proof fn the_player_is_in_sight(v: GameView)
    requires
        v.wf(),
    ensures
        look_of(v, v.maze, v.player.pos).0 == '@',
        0 <= v.player.pos.0 < 21,
        0 <= v.player.pos.1 < 26,
{
    maze::native_layout_is_valid();
}

/// A ghost is in sight unless the player or another ghost stands before it.
pub proof fn ghosts_are_in_sight(v: GameView, i: int)
    requires
        v.wf(),
        0 <= i < 4,
        v.ghosts[i].pos != v.player.pos,
    ensures
        look_of(v, v.maze, v.ghosts[i].pos).0 == '&',
{
    ghost_is_found(v.ghosts, i, 0);
}

proof fn ghost_is_found(ghosts: Seq<GhostView>, i: int, from: int)
    requires
        0 <= from <= i < ghosts.len(),
    ensures
        ghost_on(ghosts, ghosts[i].pos, from) is Some,
    decreases i - from,
{
    if from < i && ghosts[from].pos != ghosts[i].pos {
        ghost_is_found(ghosts, i, from + 1);
    }
}

/// Nobody and no fruit stands on a cell.
pub open spec fn bare(v: GameView, p: Spot) -> bool {
    &&& v.player.pos != p
    &&& forall|i: int| 0 <= i < v.ghosts.len() ==> (#[trigger] v.ghosts[i]).pos != p
    &&& !(v.fruit.active && v.fruit.pos == p)
}

/// A pellet is in sight exactly where there is one: where nobody and no fruit
/// stands, a cell of the board shows a dot if and only if one lies there, and a
/// power pellet if and only if one lies there. What has neither shows its wall, or
/// the door, or nothing.
pub proof fn pellets_are_in_sight_where_they_lie(v: GameView, p: Spot)
    requires
        v.wf(),
        0 <= p.0 < 21,
        0 <= p.1 < 26,
        bare(v, p),
    ensures
        ({
            let (ch, color) = look_of(v, v.maze, p);
            let pellet = v.maze.pellets[p.0][p.1];
            let wall = maze::is_wall_char(v.maze.layout.at(p));
            &&& ch == '·' <==> pellet == Pellet::Dot
            &&& ch == '*' <==> pellet == Pellet::Power
            &&& pellet == Pellet::Dot ==> color == Color::White
            &&& pellet == Pellet::Power ==> color == Color::Yellow
            &&& pellet == Pellet::Empty && wall ==> ch == v.maze.layout.at(p) && color
                == Color::Blue
            &&& pellet == Pellet::Empty && v.maze.layout.door(p) ==> ch == '-' && color
                == Color::White
            &&& pellet == Pellet::Empty && !wall && !v.maze.layout.door(p) ==> ch == ' ' && color
                == Color::White
        }),
{
    maze::native_layout_is_valid();
    nobody_is_there(v.ghosts, p, 0);
    laws::walls_are_box_characters(v.maze.layout.at(p));
}

proof fn nobody_is_there(ghosts: Seq<GhostView>, p: Spot, i: int)
    requires
        0 <= i <= ghosts.len(),
        forall|j: int| 0 <= j < ghosts.len() ==> (#[trigger] ghosts[j]).pos != p,
    ensures
        ghost_on(ghosts, p, i) is None,
    decreases ghosts.len() - i,
{
    if i < ghosts.len() {
        nobody_is_there(ghosts, p, i + 1);
    }
}

/// The player is shown on their cell, in another color while power is in effect.
pub proof fn the_player_shows_power(v: GameView)
    requires
        v.power_until - v.frame <= 360,
    ensures
        look_of(v, v.maze, v.player.pos) == (
            '@',
            if v.power_until > v.frame {
                Color::LightCyan
            } else {
                Color::LightYellow
            },
        ),
{
}

/// A ghost that neither the player nor an earlier ghost hides is shown in white if
/// it is only eyes, in light blue while it can be eaten, and else in its own color:
/// red, magenta, cyan and orange, from Blinky to Clyde.
pub proof fn ghosts_show_their_state(v: GameView, i: int)
    requires
        v.wf(),
        0 <= i < 4,
        v.ghosts[i].pos != v.player.pos,
        forall|j: int| 0 <= j < i ==> (#[trigger] v.ghosts[j]).pos != v.ghosts[i].pos,
    ensures
        ({
            let g = v.ghosts[i];
            let own = seq![
                Color::Red,
                Color::Magenta,
                Color::Cyan,
                Color::Rgb(255, 165, 0),
            ][i];
            look_of(v, v.maze, g.pos) == (
                '&',
                if g.state == GhostState::Eyes {
                    Color::White
                } else if g.state == GhostState::Frightened && !v.power_eaten[i] {
                    Color::LightBlue
                } else {
                    own
                },
            )
        }),
{
    assert(v.ghosts[i].id.place() == i);
    the_first_is_found(v.ghosts, i, 0);
}

proof fn the_first_is_found(ghosts: Seq<GhostView>, i: int, from: int)
    requires
        0 <= from <= i < ghosts.len(),
        forall|j: int| 0 <= j < i ==> (#[trigger] ghosts[j]).pos != ghosts[i].pos,
    ensures
        ghost_on(ghosts, ghosts[i].pos, from) == Some(ghosts[i]),
    decreases i - from,
{
    if from < i {
        assert(ghosts[from].pos != ghosts[i].pos);
        the_first_is_found(ghosts, i, from + 1);
    }
}

/// Fruit is shown by its symbol where neither the player nor a ghost stands, and
/// only while it is there.
pub proof fn fruit_shows_while_it_is_there(v: GameView)
    requires
        v.wf(),
        v.fruit.pos != v.player.pos,
        forall|i: int| 0 <= i < 4 ==> (#[trigger] v.ghosts[i]).pos != v.fruit.pos,
    ensures
        v.fruit.active ==> look_of(v, v.maze, v.fruit.pos) == (
            rules::fruit_of(v.level).0,
            Color::Magenta,
        ),
        !v.fruit.active ==> look_of(v, v.maze, v.fruit.pos) == look_of_floor(v.maze, v.fruit.pos),
{
    nobody_is_there(v.ghosts, v.fruit.pos, 0);
}

/// The maze is drawn cell by cell from the corner: a row further down is a row
/// further down, a column further right is a column further right.
pub proof fn the_maze_is_drawn_in_place(v: GameView, inner: Area, p: Spot)
    requires
        inner.placeable(),
        0 <= p.0 < 21,
        0 <= p.1 < 26,
    ensures
        glyph_of(v, inner, p).x - inner.x == p.1,
        glyph_of(v, inner, p).y - inner.y == p.0,
        (glyph_of(v, inner, p).ch, glyph_of(v, inner, p).color) == look_of(v, v.maze, p),
{
}

/// The score board reads as the game stands: under their labels stand the best
/// score, the score, the whole seconds, the level, a heart for every life, and the
/// fruits in the order in which they were collected.
pub proof fn the_score_board_reads_as_the_game_stands(v: GameView, i: int)
    requires
        v.best_score >= 0,
        v.score >= 0,
        v.level >= 0,
        v.lives >= 0,
        0 <= v.elapsed() < 0x1_0000_0000,
    ensures
        ({
            let hud = hud_of(v);
            let time = hud[7].0;
            &&& hud.len() == HUD_ROWS
            &&& hud[0].0 == "High Score"@ && text::reading(hud[1].0) == v.best_score
            &&& hud[3].0 == "Current Score"@ && text::reading(hud[4].0) == v.score
            &&& hud[6].0 == "Game Time"@ && time.last() == 's' && text::reading(time.drop_last())
                == v.elapsed()
            &&& hud[9].0 == "Level"@ && text::reading(hud[10].0) == v.level
            &&& hud[12].0 == "Lives"@ && hud[13].0.len() == v.lives
            &&& 0 <= i < v.lives ==> hud[13].0[i] == '♥'
            &&& hud[15].0 == "Fruit"@
            &&& v.collected_fruits.len() == 0 ==> hud[16].0 == "-"@
            &&& 0 <= i < v.collected_fruits.len() ==> hud[16].0[2 * i] == v.collected_fruits[i]
                && hud[16].0.len() == 2 * v.collected_fruits.len() - 1
            &&& hud[0].1 == Tone::Dim && hud[1].1 == Tone::Bright && hud[2].0.len() == 0
        }),
{
    text::decimals_read_as_their_number(v.best_score as nat);
    text::decimals_read_as_their_number(v.score as nat);
    text::decimals_read_as_their_number(v.elapsed() as nat);
    text::decimals_read_as_their_number(v.level as nat);
    reveal_strlit("s");
    let time = hud_of(v)[7].0;
    assert(v.elapsed() % 0x1_0000_0000 == v.elapsed());
    assert(time.drop_last() =~= text::decimal(v.elapsed() as nat));
    if 0 <= i < v.collected_fruits.len() {
        text::spaced_symbols_keep_their_order(v.collected_fruits, i);
    }
}

/// Banners with a number show that number: the countdown its seconds, a cleared
/// level the one that begins, and a lost run its score and the best one.
pub proof fn banners_show_their_numbers(n: u32, level: u8, score: nat, best: nat)
    ensures
        text::reading(words_of(Banner::Countdown(n), score, best)) == n,
        ({
            let words = words_of(Banner::LevelClear(level), score, best);
            &&& words.take(15) == "Level Cleared! "@
            &&& text::reading(words.skip(15)) == level
        }),
        ({
            let words = words_of(Banner::Lost, score, best);
            exists|a: int, b: int|
                18 <= a && a + 8 <= b <= words.len() && words.take(18) == "Game Over · score "@
                    && text::reading(#[trigger] words.subrange(18, a)) == score && words.subrange(
                    a,
                    a + 8,
                ) == " · best "@ && text::reading(#[trigger] words.subrange(a + 8, b)) == best
                    && words.skip(b) == " · r to restart"@
        }),
{
    text::decimals_read_as_their_number(n as nat);
    text::decimals_read_as_their_number(level as nat);
    text::decimals_read_as_their_number(score);
    text::decimals_read_as_their_number(best);
    reveal_strlit("Level Cleared! ");
    reveal_strlit("Game Over · score ");
    reveal_strlit(" · best ");
    reveal_strlit(" · r to restart");
    let clear = words_of(Banner::LevelClear(level), score, best);
    assert(clear.take(15) =~= "Level Cleared! "@);
    assert(clear.skip(15) =~= text::decimal(level as nat));
    let words = words_of(Banner::Lost, score, best);
    let a: int = 18 + text::decimal(score).len() as int;
    let b: int = a + 8 + text::decimal(best).len();
    assert(words.take(18) =~= "Game Over · score "@);
    assert(words.subrange(18, a as int) =~= text::decimal(score));
    assert(words.subrange(a as int, a + 8) =~= " · best "@);
    assert(words.subrange(a + 8, b as int) =~= text::decimal(best));
    assert(words.skip(b as int) =~= " · r to restart"@);
}

/// The score board stands one column beside the maze and half way down: what is
/// left above and below it differs by one row at most.
pub proof fn the_score_board_stands_half_way_down(inner: Area)
    requires
        inner.has_room(),
        inner.placeable(),
    ensures
        ({
            let hud = inner.hud_place();
            let above = hud.y - inner.y;
            let below = inner.height - above - hud.height;
            &&& 0 <= above <= below <= above + 1
            &&& hud.x == inner.x + 26 + 1
            &&& hud.height == 17
            &&& hud.width == inner.width - 27
            &&& inner.banner_place().y == inner.y + 21
            &&& inner.banner_place().x == inner.x
            &&& inner.banner_place().width == inner.width
            &&& inner.banner_place().height == 1
        }),
{
}

} // verus!
