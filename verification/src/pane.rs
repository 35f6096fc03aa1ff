//! The pane that holds a game: it takes keys, plays the frames that are due, and
//! knows when there is a best score to store.

use vstd::prelude::*;

use crate::{conduct, storage, text};
use crate::clock::{Moment, TICK};
use crate::engine::Game;
use crate::model::GameView;
use crate::rules::Input;
use crate::screen::{Area, Screen, TITLE};
use crate::storage::{load_best, save_best};

verus! {

/// Frames that one poll plays at most: a pane that fell further behind lets the
/// rest go.
pub const MOST_FRAMES: u8 = 8;

/// A key, as far as the pane tells keys apart.
#[derive(Clone, Copy, Debug, PartialEq, Eq, Structural)]
pub enum Key {
    Up,
    Down,
    Left,
    Right,
    Char(char),
    Other,
}

/// A pressed key and the modifiers that matter.
#[derive(Clone, Copy, Debug, PartialEq, Eq, Structural)]
pub struct KeyPress {
    pub key: Key,
    pub control: bool,
    pub alt: bool,
}

/// What a key asks the game for.
pub open spec fn input_of(key: Key) -> Option<Input> {
    match key {
        Key::Up => Some(Input::Up),
        Key::Down => Some(Input::Down),
        Key::Left => Some(Input::Left),
        Key::Right => Some(Input::Right),
        Key::Char(ch) => if ch == 'r' || ch == 'R' {
            Some(Input::Restart)
        } else if ch == 'y' || ch == 'Y' {
            Some(Input::Yes)
        } else if ch == 'n' || ch == 'N' {
            Some(Input::No)
        } else {
            None
        },
        Key::Other => None,
    }
}

/// What a pressed key asks the game for: with control or alt, nothing.
pub open spec fn input_of_press(press: KeyPress) -> Option<Input> {
    if press.control || press.alt {
        None
    } else {
        input_of(press.key)
    }
}

/// The best score if the run ended now.
pub open spec fn live_best(game: GameView) -> int {
    if game.score > game.best_score {
        game.score
    } else {
        game.best_score
    }
}

/// Where a poll stands; each step but the last takes a reading of the clock.
#[derive(Debug)]
pub enum Poll {
    /// Is a frame due at all?
    Opening,
    /// So many frames were played; is another one due?
    Playing(u8),
    /// So many frames were played; is the pane still behind?
    Closing(u8),
    /// So many frames were played, and the pane lets the rest go.
    Late(u8),
    /// The poll is over: whether it played, and the text to store, if any.
    Done(bool, Option<String>),
}

/// Where a poll stands.
pub enum PollView {
    Opening,
    Playing(int),
    Closing(int),
    Late(int),
    Done(bool, Option<Seq<char>>),
}

impl View for Poll {
    type V = PollView;

    open spec fn view(&self) -> PollView {
        match *self {
            Poll::Opening => PollView::Opening,
            Poll::Playing(frames) => PollView::Playing(frames as int),
            Poll::Closing(frames) => PollView::Closing(frames as int),
            Poll::Late(frames) => PollView::Late(frames as int),
            Poll::Done(played, None) => PollView::Done(played, None),
            Poll::Done(played, Some(text)) => PollView::Done(played, Some(text@)),
        }
    }
}

/// What a [`GamePane`] holds.
#[verifier::ext_equal]
pub struct PaneView {
    pub game: GameView,
    /// When the next frame is due, in nanoseconds.
    pub next_tick: int,
    /// What the last key asks for.
    pub pending: Option<Input>,
    /// The best score that was stored last.
    pub saved_best: int,
    pub visible: bool,
}

impl PaneView {
    /// A pane with a new game.
    pub open spec fn opened(best: int, now: int) -> PaneView {
        PaneView {
            game: GameView::blank(best).run_started(),
            next_tick: now + TICK,
            pending: None,
            saved_best: best,
            visible: true,
        }
    }

    /// After a key.
    pub open spec fn pressed(self, press: KeyPress) -> PaneView {
        match input_of_press(press) {
            Some(input) => PaneView { pending: Some(input), ..self },
            None => self,
        }
    }

    /// After it was shown or hidden: a pane that comes into view starts its
    /// clock anew.
    pub open spec fn shown(self, visible: bool, now: int) -> PaneView {
        PaneView {
            visible,
            next_tick: if visible {
                now + TICK
            } else {
                self.next_tick
            },
            ..self
        }
    }

    /// After its best score was stored.
    pub open spec fn saved(self) -> PaneView {
        PaneView { saved_best: live_best(self.game), ..self }
    }

    /// What the next frame takes in.
    pub open spec fn next_input(self) -> Input {
        match self.pending {
            Some(input) => input,
            None => Input::Idle,
        }
    }

    /// After one frame, which takes the pending key.
    pub open spec fn advanced(self) -> PaneView {
        PaneView {
            game: self.game.ticked(self.next_input()),
            next_tick: self.next_tick + TICK,
            pending: None,
            ..self
        }
    }

    /// The end of a poll: the best score is stored if it has changed.
    pub open spec fn settled(self, frames: int) -> (PaneView, PollView) {
        if live_best(self.game) != self.saved_best {
            (
                self.saved(),
                PollView::Done(frames > 0, Some(text::decimal(live_best(self.game) as nat))),
            )
        } else {
            (self, PollView::Done(frames > 0, None))
        }
    }

    /// How a poll begins: a hidden pane does nothing.
    pub open spec fn poll_start(self) -> PollView {
        if self.visible {
            PollView::Opening
        } else {
            PollView::Done(false, None)
        }
    }

    /// One step of a poll, with a reading of the clock.
    pub open spec fn polled(self, stage: PollView, now: int) -> (PaneView, PollView) {
        match stage {
            PollView::Opening => if now < self.next_tick {
                (self, PollView::Done(false, None))
            } else {
                (self, PollView::Playing(0))
            },
            PollView::Playing(frames) => if now >= self.next_tick && frames < MOST_FRAMES {
                (self.advanced(), PollView::Playing(frames + 1))
            } else {
                (self, PollView::Closing(frames))
            },
            PollView::Closing(frames) => if now >= self.next_tick {
                (self, PollView::Late(frames))
            } else {
                self.settled(frames)
            },
            PollView::Late(frames) => (PaneView { next_tick: now + TICK, ..self }).settled(frames),
            PollView::Done(..) => (self, stage),
        }
    }

    /// What holds of a pane at all times: its game is valid and its counters
    /// agree.
    pub open spec fn wf(self) -> bool {
        self.game.wf() && self.game.consistent() && self.game.frame >= 0
    }
}

/// A pane that holds a game.
pub struct GamePane {
    pub game: Game,
    pub next_tick: Moment,
    pub pending: Option<Input>,
    pub saved_best: u32,
    pub visible: bool,
}

impl View for GamePane {
    type V = PaneView;

    open spec fn view(&self) -> PaneView {
        PaneView {
            game: self.game@,
            next_tick: self.next_tick.nanos as int,
            pending: self.pending,
            saved_best: self.saved_best as int,
            visible: self.visible,
        }
    }
}

impl GamePane {
    /// What holds of a pane at all times.
    pub open spec fn wf(&self) -> bool {
        self@.wf()
    }

    /// A pane with a new game. `raw` is the stored best score, if there is one:
    /// a bare JSON number; any other text counts as none.
    pub fn new(raw: Option<&str>, now: Moment) -> (pane: GamePane)
        requires
            now.nanos + TICK <= u128::MAX,
        ensures
            pane@ == PaneView::opened(pane.saved_best as int, now.nanos as int),
            raw matches Some(text) ==> storage::stored(Some(text@), pane.saved_best),
            raw is None ==> pane.saved_best == 0,
            pane.wf(),
    {
        let best: u32 = load_best(raw);
        proof {
            GameView::new_game_is_consistent(best as int);
        }
        GamePane {
            game: Game::new(best),
            next_tick: now.next_frame(),
            pending: None,
            saved_best: best,
            visible: true,
        }
    }

    /// The name on the pane's border.
    pub fn title(&self) -> (title: &'static str)
        ensures
            title@ == TITLE@,
    {
        TITLE
    }

    /// The best score if the run ended now.
    pub fn live_best(&self) -> (best: u32)
        ensures
            best == live_best(self@.game),
    {
        if self.game.score() > self.game.best_score() {
            self.game.score()
        } else {
            self.game.best_score()
        }
    }

    /// The text to store so that a run that is left keeps its score; from then
    /// on it counts as stored.
    pub fn save_best(&mut self) -> (encoded: Option<String>)
        ensures
            final(self)@ == old(self)@.saved(),
            encoded is Some,
            encoded->0@ == text::decimal(live_best(old(self)@.game) as nat),
    {
        let best: u32 = self.live_best();
        self.saved_best = best;
        save_best(best)
    }

    /// What the pane shows in `area`, border included.
    pub fn render(&self, area: Area) -> (screen: Screen)
        requires
            self.game.wf(),
            area.inside().has_room() ==> area.inside().placeable(),
        ensures
            screen.shows(self@.game, area),
    {
        Screen::of(&self.game, area)
    }

    /// Takes a key, and says whether it meant anything. The next frame takes
    /// the last key only.
    pub fn on_key(&mut self, press: KeyPress) -> (taken: bool)
        ensures
            taken == input_of_press(press) is Some,
            final(self)@ == old(self)@.pressed(press),
    {
        if press.control || press.alt {
            return false;
        }
        let input: Input = match press.key {
            Key::Up => Input::Up,
            Key::Down => Input::Down,
            Key::Left => Input::Left,
            Key::Right => Input::Right,
            Key::Char('r') | Key::Char('R') => Input::Restart,
            Key::Char('y') | Key::Char('Y') => Input::Yes,
            Key::Char('n') | Key::Char('N') => Input::No,
            _ => {
                return false;
            },
        };
        self.pending = Some(input);
        true
    }

    /// Shows or hides the pane.
    pub fn set_visible(&mut self, visible: bool, now: Moment)
        requires
            visible ==> now.nanos + TICK <= u128::MAX,
        ensures
            final(self)@ == old(self)@.shown(visible, now.nanos as int),
    {
        self.visible = visible;
        if visible {
            self.next_tick = now.next_frame();
        }
    }

    /// Begins a poll; [`GamePane::poll`] takes it further.
    pub fn poll_background(&self) -> (stage: Poll)
        ensures
            stage@ == self@.poll_start(),
    {
        if self.visible {
            Poll::Opening
        } else {
            Poll::Done(false, None)
        }
    }

    /// Plays one frame.
    fn advance(&mut self)
        requires
            old(self).wf(),
            old(self).game.has_time_for(old(self)@.next_input()),
            old(self).next_tick.nanos + TICK <= u128::MAX,
        ensures
            final(self)@ == old(self)@.advanced(),
            final(self).wf(),
    {
        let input: Input = match self.pending {
            Some(input) => input,
            None => Input::Idle,
        };
        self.pending = None;
        proof {
            self.game@.points_are_limited();
            self.game@.tick_keeps_history(input);
            self.game@.tick_is_valid(input);
            self.game@.ticked(input).points_are_limited();
        }
        self.game.tick(input);
        self.next_tick = self.next_tick.next_frame();
    }

    /// Ends a poll.
    fn settle(&mut self, frames: u8) -> (stage: Poll)
        ensures
            (final(self)@, stage@) == old(self)@.settled(frames as int),
    {
        if self.live_best() != self.saved_best {
            Poll::Done(frames > 0, self.save_best())
        } else {
            Poll::Done(frames > 0, None)
        }
    }

    /// Takes a poll one step further with a reading of the clock, until it is
    /// done. Frames are played while they are due, [`MOST_FRAMES`] at most; if
    /// the pane is still behind then, it lets the rest go.
    pub fn poll(&mut self, stage: Poll, now: Moment) -> (next: Poll)
        requires
            old(self).wf(),
            stage matches Poll::Playing(frames) ==> frames < MOST_FRAMES && now.nanos >= old(
                self,
            ).next_tick.nanos ==> old(self).game.has_time_for(old(self)@.next_input()) && old(
                self,
            ).next_tick.nanos + TICK <= u128::MAX,
            stage is Late ==> now.nanos + TICK <= u128::MAX,
        ensures
            (final(self)@, next@) == old(self)@.polled(stage@, now.nanos as int),
            final(self).wf(),
    {
        match stage {
            Poll::Opening => if now.nanos < self.next_tick.nanos {
                Poll::Done(false, None)
            } else {
                Poll::Playing(0)
            },
            Poll::Playing(frames) => if now.nanos >= self.next_tick.nanos && frames < MOST_FRAMES {
                self.advance();
                Poll::Playing(frames + 1)
            } else {
                Poll::Closing(frames)
            },
            Poll::Closing(frames) => if now.nanos >= self.next_tick.nanos {
                Poll::Late(frames)
            } else {
                self.settle(frames)
            },
            Poll::Late(frames) => {
                self.next_tick = now.next_frame();
                self.settle(frames)
            },
            Poll::Done(played, text) => Poll::Done(played, text),
        }
    }
}

// ---- laws ----------------------------------------------------------------

impl PaneView {
    /// A whole poll: the pane and where it stands after these readings of the
    /// clock, from the given stage on.
    pub open spec fn run(self, stage: PollView, readings: Seq<int>) -> (PaneView, PollView)
        decreases readings.len(),
    {
        if readings.len() == 0 {
            (self, stage)
        } else {
            let (pane, next) = self.run(stage, readings.drop_last());
            pane.polled(next, readings.last())
        }
    }

    /// A hidden pane never plays, whatever the clock says.
    pub proof fn hidden_panes_stand_still(self, readings: Seq<int>)
        requires
            !self.visible,
        ensures
            self.run(self.poll_start(), readings) == (self, PollView::Done(false, None)),
        decreases readings.len(),
    {
        if readings.len() > 0 {
            self.hidden_panes_stand_still(readings.drop_last());
        }
    }

    /// A pane whose next frame is not due yet does nothing.
    pub proof fn early_polls_do_nothing(self, now: int)
        requires
            self.visible,
            now < self.next_tick,
        ensures
            self.polled(self.poll_start(), now) == (self, PollView::Done(false, None)),
    {
    }

    /// How far a poll can be after `steps` steps that started with the game at
    /// frame `start`.
    spec fn under_way(self, stage: PollView, start: int, steps: int) -> bool {
        match stage {
            PollView::Opening => steps == 0 && self.game.frame == start,
            PollView::Playing(frames) => 0 <= frames <= MOST_FRAMES && steps == frames + 1
                && self.game.frame == start + frames,
            PollView::Closing(frames) => 0 <= frames <= MOST_FRAMES && steps == frames + 2
                && self.game.frame == start + frames,
            PollView::Late(frames) => 0 <= frames <= MOST_FRAMES && steps == frames + 3
                && self.game.frame == start + frames,
            PollView::Done(played, _) => start <= self.game.frame <= start + MOST_FRAMES && (played
                <==> self.game.frame > start),
        }
    }

    proof fn polls_stay_under_way(self, readings: Seq<int>)
        requires
            self.wf(),
        ensures
            ({
                let (pane, stage) = self.run(self.poll_start(), readings);
                &&& pane.wf()
                &&& pane.under_way(stage, self.game.frame, readings.len() as int)
            }),
        decreases readings.len(),
    {
        if readings.len() > 0 {
            self.polls_stay_under_way(readings.drop_last());
            let (pane, stage) = self.run(self.poll_start(), readings.drop_last());
            pane.game.points_are_limited();
            pane.game.tick_keeps_history(pane.next_input());
            pane.game.tick_is_valid(pane.next_input());
        }
    }

    /// A poll keeps the pane valid, plays eight frames at most, and reports that
    /// it played exactly when the game has moved on.
    pub proof fn polls_play_eight_frames_at_most(self, readings: Seq<int>)
        requires
            self.wf(),
        ensures
            ({
                let (pane, stage) = self.run(self.poll_start(), readings);
                &&& pane.wf()
                &&& self.game.frame <= pane.game.frame <= self.game.frame + 8
                &&& stage matches PollView::Done(played, _) ==> (played <==> pane.game.frame
                    > self.game.frame)
            }),
    {
        self.polls_stay_under_way(readings);
    }

    /// A poll is over after twelve readings of the clock at most.
    pub proof fn polls_come_to_an_end(self, readings: Seq<int>)
        requires
            self.wf(),
            readings.len() >= 12,
        ensures
            self.run(self.poll_start(), readings).1 is Done,
    {
        self.polls_stay_under_way(readings);
    }

    /// When a poll that got past its opening is over, the best score that
    /// counts as stored is the live one, the text to store is that score in
    /// decimal, and the next frame lies ahead of the last reading.
    pub proof fn polls_leave_nothing_unsaved(self, stage: PollView, now: int)
        requires
            stage !is Opening,
            stage !is Done,
            self.polled(stage, now).1 is Done,
        ensures
            ({
                let (pane, end) = self.polled(stage, now);
                &&& pane.saved_best == live_best(pane.game)
                &&& pane.next_tick > now
                &&& end matches PollView::Done(_, Some(text)) ==> text == text::decimal(
                    pane.saved_best as nat,
                )
                &&& end matches PollView::Done(_, None) ==> pane.saved_best == self.saved_best
            }),
    {
    }

    /// A frame uses the pending key up, and only the last key counts.
    pub proof fn the_last_key_counts(self, first: KeyPress, second: KeyPress)
        requires
            input_of_press(second) is Some,
        ensures
            self.pressed(first).pressed(second) == self.pressed(second),
            self.pressed(second).next_input() == input_of_press(second)->0,
            self.pressed(second).advanced().pending is None,
            self.pressed(second).advanced().next_input() == Input::Idle,
    {
    }

    /// A best score that one pane stores is the one that the next pane opens
    /// with, and nothing is stored then that is less than the game's best score.
    pub proof fn the_next_pane_opens_with_the_saved_best(self, best: u32, next: u32)
        requires
            live_best(self.game) == best,
            storage::stored(Some(text::decimal(best as nat)), next),
        ensures
            PaneView::opened(next as int, 0).game.best_score == self.saved().saved_best,
            self.saved().saved_best >= self.game.best_score,
            self.saved().saved_best >= self.game.score,
    {
        storage::loading_gives_back_what_was_saved(best, next);
        GameView::blank(next as int).a_new_run_starts_from_scratch();
    }
}

/// Arrow keys ask for a turn to their own side; the letters r, y and n, large or
/// small, for a restart, for yes and for no; no other key means anything, and none
/// does together with control or alt.
pub proof fn keys_mean_what_they_show(press: KeyPress)
    ensures
        press.control || press.alt ==> input_of_press(press) is None,
        !press.control && !press.alt ==> ({
            let input = input_of_press(press);
            match press.key {
                Key::Up => input is Some && conduct::arrow(input->0) == Some((-1int, 0int)),
                Key::Down => input is Some && conduct::arrow(input->0) == Some((1int, 0int)),
                Key::Left => input is Some && conduct::arrow(input->0) == Some((0int, -1int)),
                Key::Right => input is Some && conduct::arrow(input->0) == Some((0int, 1int)),
                Key::Char(ch) => {
                    &&& input == Some(Input::Restart) <==> ch == 'r' || ch == 'R'
                    &&& input == Some(Input::Yes) <==> ch == 'y' || ch == 'Y'
                    &&& input == Some(Input::No) <==> ch == 'n' || ch == 'N'
                    &&& input is None <==> ch != 'r' && ch != 'R' && ch != 'y' && ch != 'Y' && ch
                        != 'n' && ch != 'N'
                },
                Key::Other => input is None,
            }
        }),
{
}

/// The live best score is reached by the game and not exceeded by it.
pub proof fn the_live_best_is_the_higher_one(game: GameView)
    ensures
        live_best(game) >= game.score,
        live_best(game) >= game.best_score,
        live_best(game) == game.score || live_best(game) == game.best_score,
{
}

impl PaneView {
    /// A key that means something is the one that counts from then on; any other
    /// changes nothing.
    pub proof fn a_key_waits_for_the_next_frame(self, press: KeyPress)
        ensures
            ({
                let next = self.pressed(press);
                &&& input_of_press(press) is Some ==> next.pending == input_of_press(press)
                    && next.game == self.game && next.next_tick == self.next_tick
                &&& input_of_press(press) is None ==> next == self
            }),
    {
    }

    /// A frame of the pane is a frame of the game with the pending key, or with
    /// none; the next one is due sixteen milliseconds later.
    pub proof fn a_frame_of_the_pane(self)
        ensures
            ({
                let next = self.advanced();
                &&& self.pending matches Some(input) ==> next.game == self.game.ticked(input)
                &&& self.pending is None ==> next.game == self.game.ticked(Input::Idle)
                &&& next.pending is None
                &&& next.next_tick == self.next_tick + 16_000_000
                &&& next.saved_best == self.saved_best
                &&& next.visible == self.visible
            }),
    {
    }

    /// A new pane is in sight, has no key pending, plays its first frame sixteen
    /// milliseconds later, and its game has the stored best score.
    pub proof fn a_new_pane(best: int, now: int)
        ensures
            ({
                let pane = PaneView::opened(best, now);
                &&& pane.visible
                &&& pane.pending is None
                &&& pane.next_tick == now + 16_000_000
                &&& pane.saved_best == best
                &&& pane.game.best_score == best
                &&& pane.game.score == 0
                &&& pane.game.frame == 0
            }),
    {
        GameView::blank(best).a_new_run_starts_from_scratch();
    }

    /// A pane that comes into view starts its clock anew; one that is hidden keeps
    /// everything.
    pub proof fn coming_into_view(self, now: int)
        ensures
            ({
                let shown = self.shown(true, now);
                let hidden = self.shown(false, now);
                &&& shown.visible && !hidden.visible
                &&& shown.next_tick == now + 16_000_000
                &&& hidden.next_tick == self.next_tick
                &&& shown.game == self.game && hidden.game == self.game
                &&& shown.pending == self.pending && hidden.pending == self.pending
                &&& shown.saved_best == self.saved_best && hidden.saved_best == self.saved_best
            }),
    {
    }

    /// While frames are due, a poll plays them one by one.
    proof fn due_frames_follow(self, now: int, k: int)
        requires
            self.visible,
            0 <= k <= MOST_FRAMES,
            k > 0 ==> self.next_tick + (k - 1) * TICK <= now,
            self.next_tick <= now,
            self.wf(),
        ensures
            ({
                let readings = Seq::new((k + 1) as nat, |i: int| now);
                let (pane, stage) = self.run(self.poll_start(), readings);
                &&& stage == PollView::Playing(k)
                &&& pane.next_tick == self.next_tick + k * TICK
                &&& pane.game.frame == self.game.frame + k
                &&& pane.wf()
            }),
        decreases k,
    {
        let readings = Seq::new((k + 1) as nat, |i: int| now);
        let before = readings.drop_last();
        assert(before =~= Seq::new(k as nat, |i: int| now));
        if k > 0 {
            assert((k - 1) * TICK <= now - self.next_tick);
            assert(k > 1 ==> (k - 2) * TICK <= (k - 1) * TICK);
            self.due_frames_follow(now, k - 1);
            let (pane, stage) = self.run(self.poll_start(), before);
            pane.game.points_are_limited();
            pane.game.tick_keeps_history(pane.next_input());
            pane.game.tick_is_valid(pane.next_input());
            assert(k * TICK == (k - 1) * TICK + TICK) by (nonlinear_arith);
        } else {
            assert(before.len() == 0);
            assert(self.run(self.poll_start(), before) == (self, PollView::Opening));
        }
    }

    /// A poll plays exactly the frames that are due, up to eight: with the clock at
    /// `now`, the `n`-th frame due and the next one not, `n` frames are played, and
    /// the next one is due `n` times sixteen milliseconds later than before.
    pub proof fn a_poll_plays_the_frames_that_are_due(self, now: int, n: int)
        requires
            self.wf(),
            self.visible,
            1 <= n <= 8,
            self.next_tick + (n - 1) * 16_000_000 <= now < self.next_tick + n * 16_000_000,
        ensures
            ({
                let readings = Seq::new((n + 3) as nat, |i: int| now);
                let (pane, stage) = self.run(self.poll_start(), readings);
                &&& stage is Done
                &&& stage->Done_0
                &&& pane.game.frame == self.game.frame + n
                &&& pane.next_tick == self.next_tick + n * 16_000_000
                &&& pane.saved_best == live_best(pane.game)
            }),
    {
        self.due_frames_follow(now, n);
        let played = Seq::new((n + 1) as nat, |i: int| now);
        let closing = Seq::new((n + 2) as nat, |i: int| now);
        let readings = Seq::new((n + 3) as nat, |i: int| now);
        assert(closing.drop_last() =~= played);
        assert(readings.drop_last() =~= closing);
        let (pane, stage) = self.run(self.poll_start(), played);
        assert(self.run(self.poll_start(), closing) == pane.polled(stage, now));
        assert(self.run(self.poll_start(), closing) == (pane, PollView::Closing(n)));
        assert(self.run(self.poll_start(), readings) == pane.settled(n));
    }
}

} // verus!
