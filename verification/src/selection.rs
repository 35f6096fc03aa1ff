//! Selecting text with the mouse: click streaks and the highlighted range.
//!
//! [`ClickStreak`] counts clicks on points of a scrolling grid; it is all that a
//! pane needs whose terminal keeps the selection itself. [`SelectionState`] is
//! the whole selection of a surface without a grid, in rows and columns of what
//! is on show.

use vstd::prelude::*;

use crate::clock::Moment;

verus! {

/// Longest gap between two clicks of a streak, in milliseconds.
pub const MULTI_CLICK_MS: u128 = 400;

/// How much of the text a drag takes at a time; a double click takes words, a
/// triple click lines.
#[derive(Clone, Copy, Debug, PartialEq, Eq, Structural)]
pub enum Granularity {
    Char,
    Word,
    Line,
}

impl Default for Granularity {
    fn default() -> (mode: Granularity)
        ensures
            mode == Granularity::Char,
    {
        Granularity::Char
    }
}

/// A point of a terminal's grid: lines above the visible ones are negative.
#[derive(Clone, Copy, Debug, PartialEq, Eq, Structural)]
pub struct Point {
    pub line: i32,
    pub column: usize,
}

/// A cell of what is on show.
#[derive(Clone, Copy, Debug, PartialEq, Eq, Structural)]
pub struct Cell {
    pub row: u16,
    pub col: u16,
}

impl Cell {
    /// Whether this cell comes no later than the other when read row by row.
    pub open spec fn up_to(self, other: Cell) -> bool {
        self.row < other.row || (self.row == other.row && self.col <= other.col)
    }
}

impl Default for Cell {
    fn default() -> (cell: Cell)
        ensures
            cell == (Cell { row: 0, col: 0 }),
    {
        Cell { row: 0, col: 0 }
    }
}

// ---- streaks -------------------------------------------------------------

/// Whether a click at `at` continues what the click `last` began.
pub open spec fn continues<P>(last: Option<(Moment, P)>, at: P, now: Moment) -> bool {
    last is Some && last.unwrap().1 == at && now.millis_after(last.unwrap().0) < MULTI_CLICK_MS
}

/// Where a streak stands after one more click: it runs 1, 2, 3 and starts over.
pub open spec fn streak_after<P>(
    last: Option<(Moment, P)>,
    streak: int,
    at: P,
    now: Moment,
) -> int {
    if continues(last, at, now) {
        streak % 3 + 1
    } else {
        1
    }
}

/// What a streak selects.
pub open spec fn granularity_of(streak: int) -> Granularity {
    if streak == 2 {
        Granularity::Word
    } else if streak == 3 {
        Granularity::Line
    } else {
        Granularity::Char
    }
}

/// What a streak selects.
fn promote(streak: u8) -> (mode: Granularity)
    ensures
        mode == granularity_of(streak as int),
{
    match streak {
        2 => Granularity::Word,
        3 => Granularity::Line,
        _ => Granularity::Char,
    }
}

/// What a [`ClickStreak`] remembers.
#[verifier::ext_equal]
pub struct StreakView {
    pub last_click: Option<(Moment, Point)>,
    pub click_streak: int,
}

impl StreakView {
    /// After a click at `at`.
    pub open spec fn clicked(self, at: Point, now: Moment) -> StreakView {
        StreakView {
            last_click: Some((now, at)),
            click_streak: streak_after(self.last_click, self.click_streak, at, now),
        }
    }

    /// Before any click.
    pub open spec fn fresh() -> StreakView {
        StreakView { last_click: None, click_streak: 0 }
    }

    /// What the streak selects.
    pub open spec fn selects(self) -> Granularity {
        granularity_of(self.click_streak)
    }

    /// A streak is fresh, or stands at one, two or three clicks.
    pub open spec fn wf(self) -> bool {
        &&& 0 <= self.click_streak <= 3
        &&& self.last_click is Some <==> self.click_streak > 0
    }
}

/// Counts clicks on one point of the grid.
#[derive(Clone, Copy, Debug)]
pub struct ClickStreak {
    /// When and where the last click was.
    last_click: Option<(Moment, Point)>,
    /// 1 for characters, 2 for words, 3 for lines.
    click_streak: u8,
}

impl View for ClickStreak {
    type V = StreakView;

    closed spec fn view(&self) -> StreakView {
        StreakView { last_click: self.last_click, click_streak: self.click_streak as int }
    }
}

impl Default for ClickStreak {
    fn default() -> (streak: ClickStreak)
        ensures
            streak@ == StreakView::fresh(),
    {
        ClickStreak { last_click: None, click_streak: 0 }
    }
}

impl ClickStreak {
    /// Takes a click at `at`. A click on the point of the last one, less than
    /// [`MULTI_CLICK_MS`] after it, selects more: words, then lines, then
    /// characters again.
    pub fn begin(&mut self, at: Point, now: Moment) -> (mode: Granularity)
        ensures
            final(self)@ == old(self)@.clicked(at, now),
            mode == final(self)@.selects(),
    {
        let streak: u8 = match self.last_click {
            Some((then, point)) => if point == at && now.millis_since(then) < MULTI_CLICK_MS {
                self.click_streak % 3 + 1
            } else {
                1
            },
            None => 1,
        };
        self.click_streak = streak;
        self.last_click = Some((now, at));
        promote(streak)
    }

    /// Forgets all clicks.
    pub fn reset(&mut self)
        ensures
            final(self)@ == StreakView::fresh(),
    {
        self.click_streak = 0;
        self.last_click = None;
    }
}

// ---- selections ----------------------------------------------------------

/// What a [`SelectionState`] holds.
#[verifier::ext_equal]
pub struct SelectionView {
    /// The end that stays; none if nothing is selected.
    pub anchor: Option<Cell>,
    /// The end that moves.
    pub cursor: Cell,
    pub mode: Granularity,
    /// Whether the mouse button was released.
    pub frozen: bool,
    pub last_click: Option<(Moment, Cell)>,
    pub click_streak: int,
}

impl SelectionView {
    /// Before any click.
    pub open spec fn fresh() -> SelectionView {
        SelectionView {
            anchor: None,
            cursor: Cell { row: 0, col: 0 },
            mode: Granularity::Char,
            frozen: false,
            last_click: None,
            click_streak: 0,
        }
    }

    /// After a click at `at`.
    pub open spec fn begun(self, at: Cell, now: Moment) -> SelectionView {
        let streak = streak_after(self.last_click, self.click_streak, at, now);
        SelectionView {
            anchor: Some(at),
            cursor: at,
            mode: granularity_of(streak),
            frozen: false,
            last_click: Some((now, at)),
            click_streak: streak,
        }
    }

    /// After a drag to `to`.
    pub open spec fn extended(self, to: Cell) -> SelectionView {
        if self.anchor is Some {
            SelectionView { cursor: to, frozen: false, ..self }
        } else {
            self
        }
    }

    /// After a click at `to` that grows the selection.
    pub open spec fn shift_extended(self, to: Cell) -> SelectionView {
        if self.anchor is Some {
            SelectionView { cursor: to, frozen: false, ..self }
        } else {
            SelectionView {
                anchor: Some(to),
                cursor: to,
                mode: Granularity::Char,
                frozen: false,
                click_streak: 1,
                ..self
            }
        }
    }

    /// After the mouse button was released.
    pub open spec fn committed(self) -> SelectionView {
        SelectionView { frozen: self.frozen || self.anchor is Some, ..self }
    }

    /// Without a selection; the last click is remembered.
    pub open spec fn cleared(self) -> SelectionView {
        SelectionView {
            anchor: None,
            cursor: Cell { row: 0, col: 0 },
            mode: Granularity::Char,
            frozen: false,
            ..self
        }
    }

    /// The two ends, the earlier one first.
    pub open spec fn range(self) -> Option<(Cell, Cell)> {
        match self.anchor {
            None => None,
            Some(anchor) => Some(
                if anchor.up_to(self.cursor) {
                    (anchor, self.cursor)
                } else {
                    (self.cursor, anchor)
                },
            ),
        }
    }

    /// Whether a cell is highlighted on a surface `cols` wide: by lines, all of
    /// every row from the first end to the second; else what is read from the
    /// first end to the second, where only the last row may reach past the
    /// surface.
    pub open spec fn covers(self, cell: Cell, cols: u16) -> bool {
        match self.range() {
            None => false,
            Some((start, end)) => if self.mode == Granularity::Line {
                start.row <= cell.row <= end.row
            } else {
                start.up_to(cell) && cell.up_to(end) && (cell.row == end.row || cell.col < cols)
            },
        }
    }

    /// Without an anchor nothing else is left of a selection, and a streak
    /// stands at three clicks at most.
    pub open spec fn wf(self) -> bool {
        &&& self.anchor is None ==> self.cursor == (Cell { row: 0, col: 0 }) && self.mode
            == Granularity::Char && !self.frozen
        &&& 0 <= self.click_streak <= 3
    }
}

/// A selection on a surface without a grid.
#[derive(Clone, Copy, Debug)]
pub struct SelectionState {
    /// The end that stays; none if nothing is selected.
    anchor: Option<Cell>,
    /// The end that moves.
    cursor: Cell,
    mode: Granularity,
    /// Set when the mouse button is released: the highlight stays until the
    /// next click.
    frozen: bool,
    /// When and where the last click was.
    last_click: Option<(Moment, Cell)>,
    /// 1 for characters, 2 for words, 3 for lines.
    click_streak: u8,
}

impl View for SelectionState {
    type V = SelectionView;

    closed spec fn view(&self) -> SelectionView {
        SelectionView {
            anchor: self.anchor,
            cursor: self.cursor,
            mode: self.mode,
            frozen: self.frozen,
            last_click: self.last_click,
            click_streak: self.click_streak as int,
        }
    }
}

impl Default for SelectionState {
    fn default() -> (selection: SelectionState)
        ensures
            selection@ == SelectionView::fresh(),
    {
        SelectionState {
            anchor: None,
            cursor: Cell { row: 0, col: 0 },
            mode: Granularity::Char,
            frozen: false,
            last_click: None,
            click_streak: 0,
        }
    }
}

impl SelectionState {
    /// Starts a selection at `at`. A click on the cell of the last one, less than
    /// [`MULTI_CLICK_MS`] after it, selects words, then lines, then characters
    /// again.
    pub fn begin(&mut self, at: Cell, now: Moment)
        ensures
            final(self)@ == old(self)@.begun(at, now),
    {
        let streak: u8 = match self.last_click {
            Some((then, cell)) => if cell == at && now.millis_since(then) < MULTI_CLICK_MS {
                self.click_streak % 3 + 1
            } else {
                1
            },
            None => 1,
        };
        self.click_streak = streak;
        self.last_click = Some((now, at));
        self.mode = promote(streak);
        self.anchor = Some(at);
        self.cursor = at;
        self.frozen = false;
    }

    /// Moves the free end while the mouse is dragged. Does nothing without a
    /// selection.
    pub fn extend(&mut self, to: Cell)
        ensures
            final(self)@ == old(self)@.extended(to),
    {
        if self.anchor.is_some() {
            self.cursor = to;
            self.frozen = false;
        }
    }

    /// Moves the free end by a click with the shift key, or starts a selection
    /// of characters if there is none.
    pub fn shift_extend(&mut self, to: Cell)
        ensures
            final(self)@ == old(self)@.shift_extended(to),
    {
        if self.anchor.is_none() {
            self.anchor = Some(to);
            self.click_streak = 1;
            self.mode = Granularity::Char;
        }
        self.cursor = to;
        self.frozen = false;
    }

    /// Freezes the highlight when the mouse button is released.
    pub fn commit(&mut self)
        ensures
            final(self)@ == old(self)@.committed(),
    {
        if self.anchor.is_some() {
            self.frozen = true;
        }
    }

    /// Drops the selection. The last click is kept: a quick click on the same
    /// cell still selects a word.
    pub fn clear(&mut self)
        ensures
            final(self)@ == old(self)@.cleared(),
    {
        self.anchor = None;
        self.cursor = Cell { row: 0, col: 0 };
        self.frozen = false;
        self.mode = Granularity::Char;
    }

    /// Whether anything is highlighted.
    pub fn is_active(&self) -> (active: bool)
        ensures
            active == self@.anchor is Some,
    {
        self.anchor.is_some()
    }

    /// Whether the highlight was committed.
    pub fn is_frozen(&self) -> (frozen: bool)
        ensures
            frozen == self@.frozen,
    {
        self.frozen
    }

    /// How much of the text is taken at a time.
    pub fn granularity(&self) -> (mode: Granularity)
        ensures
            mode == self@.mode,
    {
        self.mode
    }

    /// The two ends of the selection in reading order.
    pub fn char_range(&self) -> (range: Option<(Cell, Cell)>)
        ensures
            range == self@.range(),
    {
        match self.anchor {
            None => None,
            Some(anchor) => {
                let in_order = anchor.row < self.cursor.row || (anchor.row == self.cursor.row
                    && anchor.col <= self.cursor.col);
                if in_order {
                    Some((anchor, self.cursor))
                } else {
                    Some((self.cursor, anchor))
                }
            },
        }
    }

    /// Whether a cell is highlighted on a surface `cols` wide.
    pub fn contains(&self, row: u16, col: u16, cols: u16) -> (covered: bool)
        ensures
            covered == self@.covers(Cell { row, col }, cols),
    {
        match self.char_range() {
            None => false,
            Some((start, end)) => match self.mode {
                Granularity::Line => row >= start.row && row <= end.row,
                Granularity::Char | Granularity::Word => {
                    if row < start.row || row > end.row {
                        false
                    } else if start.row == end.row {
                        col >= start.col && col <= end.col
                    } else if row == start.row {
                        col >= start.col && col < cols
                    } else if row == end.row {
                        col <= end.col
                    } else {
                        col < cols
                    }
                },
            },
        }
    }
}

// ---- laws ----------------------------------------------------------------

impl StreakView {
    /// After clicks at `at` at these moments.
    pub open spec fn clicked_at(self, at: Point, times: Seq<Moment>) -> StreakView
        decreases times.len(),
    {
        if times.len() == 0 {
            self
        } else {
            self.clicked_at(at, times.drop_last()).clicked(at, times.last())
        }
    }
}

/// Clicks on one point, each within the time of the one before, select
/// characters, words, lines, characters, words, lines and so on.
pub proof fn quick_clicks_cycle(at: Point, times: Seq<Moment>)
    requires
        times.len() > 0,
        forall|i: int, j: int|
            0 <= i && j == i + 1 && j < times.len() ==> (#[trigger] times[j]).millis_after(
                #[trigger] times[i],
            ) < MULTI_CLICK_MS,
    ensures
        ({
            let end = StreakView::fresh().clicked_at(at, times);
            &&& end.click_streak == (times.len() - 1) % 3 + 1
            &&& end.last_click == Some((times.last(), at))
            &&& end.selects() == granularity_of((times.len() - 1) % 3 + 1)
        }),
    decreases times.len(),
{
    let before = times.drop_last();
    if before.len() > 0 {
        quick_clicks_cycle(at, before);
        let n = times.len() as int;
        assert(times[n - 1].millis_after(times[n - 2]) < MULTI_CLICK_MS);
        assert(before.last() == times[n - 2]);
    } else {
        assert(StreakView::fresh().clicked_at(at, before) == StreakView::fresh());
    }
}

/// A click on another point, or one that comes too late, selects characters.
pub proof fn other_clicks_start_over(streak: StreakView, at: Point, now: Moment)
    requires
        streak.last_click is None || streak.last_click.unwrap().1 != at || now.millis_after(
            streak.last_click.unwrap().0,
        ) >= MULTI_CLICK_MS,
    ensures
        streak.clicked(at, now) == (StreakView { last_click: Some((now, at)), click_streak: 1 }),
        streak.clicked(at, now).selects() == Granularity::Char,
{
}

/// Every operation on a streak keeps it valid, and a click leaves it at one,
/// two or three.
pub proof fn streaks_stay_valid(streak: StreakView, at: Point, now: Moment)
    requires
        streak.wf(),
    ensures
        StreakView::fresh().wf(),
        streak.clicked(at, now).wf(),
        1 <= streak.clicked(at, now).click_streak,
{
}

/// Every operation on a selection keeps it valid.
pub proof fn selections_stay_valid(selection: SelectionView, at: Cell, now: Moment)
    requires
        selection.wf(),
    ensures
        SelectionView::fresh().wf(),
        selection.begun(at, now).wf(),
        selection.extended(at).wf(),
        selection.shift_extended(at).wf(),
        selection.committed().wf(),
        selection.cleared().wf(),
{
}

/// Dropping the selection does not disturb a streak: the next click does the
/// same as without it.
pub proof fn clearing_keeps_the_streak(selection: SelectionView, at: Cell, now: Moment)
    ensures
        selection.cleared().begun(at, now) == selection.begun(at, now),
{
}

/// A selection and a click streak promote the same clicks in the same way.
pub proof fn both_count_alike(
    selection: SelectionView,
    streak: StreakView,
    at: Cell,
    point: Point,
    now: Moment,
)
    requires
        selection.click_streak == streak.click_streak,
        selection.last_click is Some <==> streak.last_click is Some,
        selection.last_click is Some ==> selection.last_click.unwrap().0 == streak.last_click.unwrap().0 && (
        selection.last_click.unwrap().1 == at <==> streak.last_click.unwrap().1 == point),
    ensures
        selection.begun(at, now).mode == streak.clicked(point, now).selects(),
        selection.begun(at, now).click_streak == streak.clicked(point, now).click_streak,
{
}

/// Without a selection there is nothing to drag, to commit or to cover.
pub proof fn nothing_happens_without_an_anchor(
    selection: SelectionView,
    to: Cell,
    cell: Cell,
    cols: u16,
)
    requires
        selection.anchor is None,
    ensures
        selection.extended(to) == selection,
        selection.committed() == selection,
        selection.range() is None,
        !selection.covers(cell, cols),
{
}

/// The ends of the range are the two ends of the selection, in reading order.
pub proof fn ranges_are_in_order(selection: SelectionView)
    requires
        selection.anchor is Some,
    ensures
        ({
            let anchor = selection.anchor->0;
            let (start, end) = selection.range()->0;
            &&& selection.range() is Some
            &&& start.up_to(end)
            &&& (start == anchor && end == selection.cursor) || (start == selection.cursor && end
                == anchor)
        }),
{
}

/// It does not matter which end was grabbed: dragging from one cell to another
/// covers what dragging back covers.
pub proof fn dragging_back_covers_the_same(
    selection: SelectionView,
    from: Cell,
    to: Cell,
    cell: Cell,
    cols: u16,
)
    ensures
        (SelectionView { anchor: Some(from), cursor: to, ..selection }).covers(cell, cols)
            == (SelectionView { anchor: Some(to), cursor: from, ..selection }).covers(cell, cols),
{
}

/// A selection covers both its ends, as far as they lie on the surface.
pub proof fn ends_are_covered(selection: SelectionView, cols: u16)
    requires
        selection.anchor is Some,
        selection.anchor->0.col < cols,
        selection.cursor.col < cols,
    ensures
        selection.covers(selection.anchor->0, cols),
        selection.covers(selection.cursor, cols),
{
}

/// Committing changes nothing about what is covered, and the highlight stays
/// until the next click.
pub proof fn committing_keeps_the_highlight(selection: SelectionView, cell: Cell, cols: u16)
    ensures
        selection.committed().covers(cell, cols) == selection.covers(cell, cols),
        selection.anchor is Some ==> selection.committed().frozen,
{
}

/// Growing a selection, by dragging or by a click with the shift key, moves its
/// free end and nothing else: the other end, how much is taken at a time, and the
/// streak stay as they are, and it counts as not released yet.
pub proof fn growing_moves_the_free_end_only(selection: SelectionView, to: Cell)
    requires
        selection.anchor is Some,
    ensures
        ({
            let dragged = selection.extended(to);
            let clicked = selection.shift_extended(to);
            &&& dragged.anchor == selection.anchor && clicked.anchor == selection.anchor
            &&& dragged.cursor == to && clicked.cursor == to
            &&& dragged.mode == selection.mode && clicked.mode == selection.mode
            &&& dragged.click_streak == selection.click_streak && clicked.click_streak
                == selection.click_streak
            &&& dragged.last_click == selection.last_click && clicked.last_click
                == selection.last_click
            &&& !dragged.frozen && !clicked.frozen
        }),
{
}

/// A click with the shift key covers the same cells as dragging there.
pub proof fn shift_click_covers_what_dragging_covers(
    selection: SelectionView,
    to: Cell,
    cell: Cell,
    cols: u16,
)
    requires
        selection.anchor is Some,
    ensures
        selection.shift_extended(to).covers(cell, cols) == selection.extended(to).covers(
            cell,
            cols,
        ),
        selection.shift_extended(to) == selection.extended(to),
{
}

/// Without a selection, a click with the shift key starts one of characters on
/// its cell alone, which counts as a first click but is not remembered as one.
pub proof fn shift_click_starts_a_selection(
    selection: SelectionView,
    to: Cell,
    cell: Cell,
    cols: u16,
)
    requires
        selection.anchor is None,
    ensures
        ({
            let next = selection.shift_extended(to);
            &&& next.anchor == Some(to)
            &&& next.cursor == to
            &&& next.mode == Granularity::Char
            &&& !next.frozen
            &&& next.click_streak == 1
            &&& next.last_click == selection.last_click
            &&& next.covers(cell, cols) <==> cell == to
        }),
{
}

/// A click starts a selection on its cell, not released yet, whatever was
/// selected before. Taken by characters or words it covers that cell alone, by
/// lines the whole row.
pub proof fn a_click_selects_its_cell(
    selection: SelectionView,
    at: Cell,
    now: Moment,
    cell: Cell,
    cols: u16,
)
    ensures
        ({
            let next = selection.begun(at, now);
            &&& next.anchor == Some(at)
            &&& next.cursor == at
            &&& !next.frozen
            &&& next.last_click == Some((now, at))
            &&& next.mode != Granularity::Line ==> (next.covers(cell, cols) <==> cell == at)
            &&& next.mode == Granularity::Line ==> (next.covers(cell, cols) <==> cell.row
                == at.row)
        }),
{
}

/// A click counts on if it comes on the same cell less than 400 milliseconds
/// after the last one; then characters give way to words, words to lines, lines to
/// characters. Any other click takes characters.
pub proof fn clicks_count_within_four_hundred_milliseconds(
    selection: SelectionView,
    at: Cell,
    now: Moment,
)
    requires
        selection.wf(),
    ensures
        ({
            let next = selection.begun(at, now);
            let counts = selection.last_click matches Some(last) && last.1 == at && now.nanos
                < last.0.nanos + 400_000_000;
            &&& counts ==> next.click_streak == if selection.click_streak == 3 {
                1
            } else {
                selection.click_streak + 1
            }
            &&& !counts ==> next.click_streak == 1
            &&& next.click_streak == 1 ==> next.mode == Granularity::Char
            &&& next.click_streak == 2 ==> next.mode == Granularity::Word
            &&& next.click_streak == 3 ==> next.mode == Granularity::Line
            &&& 1 <= next.click_streak <= 3
        }),
{
}

/// The same holds of clicks on the grid of a terminal.
pub proof fn grid_clicks_count_within_four_hundred_milliseconds(
    streak: StreakView,
    at: Point,
    now: Moment,
)
    requires
        streak.wf(),
    ensures
        ({
            let next = streak.clicked(at, now);
            let counts = streak.last_click matches Some(last) && last.1 == at && now.nanos
                < last.0.nanos + 400_000_000;
            &&& next.last_click == Some((now, at))
            &&& counts ==> next.click_streak == if streak.click_streak == 3 {
                1
            } else {
                streak.click_streak + 1
            }
            &&& !counts ==> next.click_streak == 1
            &&& next.click_streak == 1 ==> next.selects() == Granularity::Char
            &&& next.click_streak == 2 ==> next.selects() == Granularity::Word
            &&& next.click_streak == 3 ==> next.selects() == Granularity::Line
        }),
{
}

/// Where a cell comes when a surface is read row by row.
pub open spec fn place_in_text(cell: Cell, cols: u16) -> int {
    cell.row * cols + cell.col
}

/// On the surface, a selection by characters or words covers exactly the text from
/// one end to the other: the cells whose place lies between those of the two ends,
/// both included.
pub proof fn selections_cover_the_text_between_their_ends(
    selection: SelectionView,
    cell: Cell,
    cols: u16,
)
    requires
        selection.anchor is Some,
        selection.mode != Granularity::Line,
        selection.anchor->0.col < cols,
        selection.cursor.col < cols,
        cell.col < cols,
    ensures
        ({
            let a = place_in_text(selection.anchor->0, cols);
            let b = place_in_text(selection.cursor, cols);
            let c = place_in_text(cell, cols);
            selection.covers(cell, cols) <==> a <= c <= b || b <= c <= a
        }),
{
    let a = selection.anchor->0;
    let b = selection.cursor;
    reading_follows_places(a, cell, cols);
    reading_follows_places(cell, a, cols);
    reading_follows_places(b, cell, cols);
    reading_follows_places(cell, b, cols);
    reading_follows_places(a, b, cols);
    reading_follows_places(b, a, cols);
}

proof fn reading_follows_places(a: Cell, b: Cell, cols: u16)
    requires
        a.col < cols,
        b.col < cols,
    ensures
        a.up_to(b) <==> place_in_text(a, cols) <= place_in_text(b, cols),
{
    let n = cols as int;
    let (r, s) = (a.row as int, b.row as int);
    if r < s {
        assert(r * n + n <= s * n) by (nonlinear_arith)
            requires
                r < s,
                n >= 0,
        ;
    } else if s < r {
        assert(s * n + n <= r * n) by (nonlinear_arith)
            requires
                s < r,
                n >= 0,
        ;
    }
}

/// A selection by lines covers exactly the rows from one end to the other, whole.
pub proof fn line_selections_cover_whole_rows(selection: SelectionView, cell: Cell, cols: u16)
    requires
        selection.anchor is Some,
        selection.mode == Granularity::Line,
    ensures
        selection.covers(cell, cols) <==> selection.anchor->0.row <= cell.row
            <= selection.cursor.row || selection.cursor.row <= cell.row
            <= selection.anchor->0.row,
{
}

/// Past the width of the surface only the last row of a selection by characters or
/// words is covered, up to its end.
pub proof fn only_the_last_row_reaches_past_the_surface(
    selection: SelectionView,
    cell: Cell,
    cols: u16,
)
    requires
        selection.anchor is Some,
        selection.mode != Granularity::Line,
        cell.col >= cols,
        selection.covers(cell, cols),
    ensures
        cell.row == if selection.anchor->0.row > selection.cursor.row {
            selection.anchor->0.row
        } else {
            selection.cursor.row
        },
        cell.col <= selection.anchor->0.col || cell.col <= selection.cursor.col,
{
}

/// Dropping a selection leaves nothing covered and nothing to copy; only the last
/// click and its streak are remembered. Releasing the button marks a selection and
/// changes nothing else.
pub proof fn dropping_and_releasing(selection: SelectionView, cell: Cell, cols: u16)
    ensures
        ({
            let dropped = selection.cleared();
            let released = selection.committed();
            &&& dropped.anchor is None
            &&& dropped.range() is None
            &&& !dropped.covers(cell, cols)
            &&& !dropped.frozen
            &&& dropped.mode == Granularity::Char
            &&& dropped.last_click == selection.last_click
            &&& dropped.click_streak == selection.click_streak
            &&& selection.anchor is Some ==> released.frozen
            &&& selection.anchor is None ==> released.frozen == selection.frozen
            &&& released.anchor == selection.anchor
            &&& released.cursor == selection.cursor
            &&& released.mode == selection.mode
            &&& released.last_click == selection.last_click
            &&& released.click_streak == selection.click_streak
        }),
{
}

} // verus!
