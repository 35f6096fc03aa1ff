//! What a frame of play does for the player: which keys steer where, and where the
//! player goes.

use vstd::prelude::*;

use crate::maze;
use crate::maze::Spot;
use crate::model::GameView;
use crate::rules::{GhostState, Input, Phase};
use crate::walk::Dir;

verus! {

/// The side of the screen that an arrow key points to, as rows and columns; no
/// other input points anywhere.
pub open spec fn arrow(input: Input) -> Option<(int, int)> {
    match input {
        Input::Up => Some((-1int, 0int)),
        Input::Down => Some((1int, 0int)),
        Input::Left => Some((0int, -1int)),
        Input::Right => Some((0int, 1int)),
        _ => None,
    }
}

/// The cell on one side of another: row 0 and row 20 of column 12 are
/// neighbours.
pub open spec fn beside(p: Spot, side: (int, int)) -> Spot {
    if p == (0int, 12int) && side == (-1int, 0int) {
        (20, 12)
    } else if p == (20int, 12int) && side == (1int, 0int) {
        (0, 12)
    } else {
        (p.0 + side.0, p.1 + side.1)
    }
}

/// Whether the player may stand on a cell of the board.
pub open spec fn free(p: Spot) -> bool {
    maze::native_layout().open_to_player(p)
}

/// On the board a step leads to the cell beside, for everyone who may go there.
pub proof fn steps_lead_beside(p: Spot, d: Dir)
    requires
        0 <= p.0 < 21,
        0 <= p.1 < 26,
    ensures
        ({
            let l = maze::native_layout();
            let q = beside(p, d.offset());
            &&& l.walkable(l.step(p, d)) <==> l.walkable(q)
            &&& l.open_to_player(l.step(p, d)) <==> l.open_to_player(q)
            &&& l.walkable(q) ==> l.step(p, d) == q
        }),
{
    maze::native_layout_is_valid();
}

impl GameView {
    /// Lives without the extra one: they go down with every death, and nothing
    /// else changes them within a run.
    pub open spec fn spare(self) -> int {
        self.lives - if self.extra_life_granted {
            1int
        } else {
            0int
        }
    }

    /// Nothing has changed for the player: where they are and where they head,
    /// the board, and all that the ghosts wait for.
    pub open spec fn undisturbed(self, next: GameView) -> bool {
        &&& next.player == self.player
        &&& next.maze == self.maze
        &&& next.level == self.level
        &&& next.phase == self.phase
        &&& next.frame == self.frame
        &&& next.confirm_restart == self.confirm_restart
        &&& next.power_until == self.power_until
        &&& next.global_pause_until == self.global_pause_until
        &&& next.countdown_until == self.countdown_until
        &&& next.remaining_pellets == self.remaining_pellets
        &&& next.total_pellets == self.total_pellets
        &&& next.fruit == self.fruit
        &&& next.player_start == self.player_start
        &&& next.ghost_spawn == self.ghost_spawn
        &&& next.collected_fruits == self.collected_fruits
        &&& next.spare() == self.spare()
    }

    pub(crate) proof fn meeting_disturbs_by_death_only(self, i: int)
        requires
            self.wf(),
            self.frame >= 0,
            0 <= i < 4,
        ensures
            self.met(i).spare() <= self.spare(),
            self.met(i).spare() == self.spare() ==> self.undisturbed(self.met(i))
                && self.met(i).ghosts.len() == 4,
            self.met(i).spare() == self.spare() ==> forall|j: int|
                0 <= j < 4 ==> (#[trigger] self.met(i).ghosts[j]) == self.ghosts[j] || (j == i
                    && self.ghosts[j].state == GhostState::Frightened && self.met(i).ghosts[j].state
                    == GhostState::Eyes && self.met(i).ghosts[j].pos == self.ghosts[j].pos),
            self.met(i).spare() == self.spare() && self.phase == Phase::Playing
                && self.met(i).ghosts[i].pos == self.player.pos ==> self.met(i).ghosts[i].state
                == GhostState::Eyes || self.met(i).ghosts[i].state == GhostState::House,
    {
        reveal(GameView::met);
        assert(self.ghosts[i].id.place() == i);
    }

    pub(crate) proof fn meetings_disturb_by_death_only(self, i: int)
        requires
            self.wf(),
            self.frame >= 0,
            0 <= i <= 4,
        ensures
            self.met_from(i).spare() <= self.spare(),
            self.met_from(i).spare() == self.spare() ==> self.undisturbed(self.met_from(i))
                && self.met_from(i).ghosts.len() == 4,
            self.met_from(i).spare() == self.spare() ==> forall|j: int|
                0 <= j < 4 ==> (#[trigger] self.met_from(i).ghosts[j]) == self.ghosts[j] || (
                self.ghosts[j].state == GhostState::Frightened && self.met_from(i).ghosts[j].state
                    == GhostState::Eyes && self.met_from(i).ghosts[j].pos == self.ghosts[j].pos),
        decreases 4 - i,
    {
        if i < 4 {
            let m = self.met(i);
            self.meeting_disturbs_by_death_only(i);
            self.meeting_is_valid(i);
            if m.phase == Phase::Playing {
                m.meetings_disturb_by_death_only(i + 1);
                if self.met_from(i).spare() == self.spare() {
                    assert forall|j: int| 0 <= j < 4 implies (#[trigger] self.met_from(
                        i,
                    ).ghosts[j]) == self.ghosts[j] || (self.ghosts[j].state
                        == GhostState::Frightened && self.met_from(i).ghosts[j].state
                        == GhostState::Eyes && self.met_from(i).ghosts[j].pos
                        == self.ghosts[j].pos) by {
                        assert(m.ghosts[j] == self.ghosts[j] || m.ghosts[j].state
                            == GhostState::Eyes);
                    }
                }
            }
        }
    }

    pub(crate) proof fn ghost_moves_disturb_nobody(self, i: int)
        requires
            self.wf(),
            0 <= i < 4,
        ensures
            self.undisturbed(self.ghost_moved(i)),
            self.ghost_moved(i).ghosts.len() == 4,
            self.ghost_moved(i).power_eaten == self.power_eaten,
            forall|j: int|
                0 <= j < 4 && j != i ==> (#[trigger] self.ghost_moved(i).ghosts[j])
                    == self.ghosts[j],
    {
        reveal(GameView::ghost_moved);
        reveal(GameView::ghost_stepped);
    }

    pub(crate) proof fn moves_disturb_by_death_only(self, i: int)
        requires
            self.wf(),
            self.frame >= 0,
            0 <= i <= 4,
        ensures
            self.moved_from(i).spare() <= self.spare(),
            self.moved_from(i).spare() == self.spare() ==> self.undisturbed(self.moved_from(i))
                && self.moved_from(i).ghosts.len() == 4,
            self.moved_from(i).spare() == self.spare() ==> forall|j: int|
                0 <= j < i ==> (#[trigger] self.moved_from(i).ghosts[j]) == self.ghosts[j],
        decreases 4 - i,
    {
        if i < 4 {
            let moved = self.ghost_moved(i);
            let m = moved.met(i);
            self.ghost_moves_disturb_nobody(i);
            self.ghost_move_is_valid(i);
            moved.meeting_disturbs_by_death_only(i);
            moved.meeting_is_valid(i);
            if m.phase == Phase::Playing {
                m.moves_disturb_by_death_only(i + 1);
                if self.moved_from(i).spare() == self.spare() {
                    assert forall|j: int| 0 <= j < i implies (#[trigger] self.moved_from(
                        i,
                    ).ghosts[j]) == self.ghosts[j] by {
                        assert(m.moved_from(i + 1).ghosts[j] == m.ghosts[j]);
                        assert(m.ghosts[j] == moved.ghosts[j]);
                    }
                }
            } else if self.moved_from(i).spare() == self.spare() {
                assert forall|j: int| 0 <= j < i implies (#[trigger] self.moved_from(i).ghosts[j])
                    == self.ghosts[j] by {
                    assert(m.ghosts[j] == moved.ghosts[j]);
                }
            }
        }
    }

    pub(crate) proof fn ghosts_disturb_by_death_only(self)
        requires
            self.wf(),
            self.frame >= 0,
        ensures
            self.ghosts_updated().spare() <= self.spare(),
            self.ghosts_updated().spare() == self.spare() ==> self.undisturbed(
                self.ghosts_updated(),
            ),
    {
        reveal(GameView::ghosts_updated);
        self.moods_are_valid();
        self.moods_updated().moves_disturb_by_death_only(0);
    }

    /// What a player's step leaves alone: no life is lost by stepping, and a
    /// level that goes on keeps its clocks.
    pub(crate) proof fn stepping_costs_no_life(self)
        requires
            self.wf(),
            self.phase == Phase::Playing,
        ensures
            self.player_stepped().spare() == self.spare(),
            self.player_stepped().frame == self.frame,
            self.player_stepped().level == self.level || self.player_stepped().level == self.level
                + 1,
            self.player_stepped().level == self.level ==> self.player_stepped().global_pause_until
                == self.global_pause_until && self.player_stepped().ghosts.len() == 4
                && self.player_stepped().ghost_spawn == self.ghost_spawn,
            self.player_stepped().level == self.level ==> forall|j: int|
                0 <= j < 4 ==> (#[trigger] self.player_stepped().ghosts[j]).release_at
                    == self.ghosts[j].release_at && (self.player_stepped().ghosts[j].state
                    == self.ghosts[j].state || (self.ghosts[j].state != GhostState::House
                    && self.ghosts[j].state != GhostState::Eyes
                    && self.player_stepped().ghosts[j].state == GhostState::Frightened)),
    {
        reveal(GameView::cell_consumed);
    }

    // ---- steering --------------------------------------------------------

    /// While a run is on, an arrow key queues the turn to its own side, and
    /// nothing else does: after the frame the queued turn points where the last
    /// arrow key did, unless a death turned the player round.
    pub proof fn arrow_keys_queue_their_own_turn(self, input: Input)
        requires
            self.wf(),
            self.frame >= 0,
            self.phase == Phase::Playing,
            !self.restarts_on(input),
            self.ticked(input).spare() == self.spare(),
        ensures
            self.ticked(input).player.next_dir.offset() == match arrow(input) {
                Some(side) => side,
                None => self.player.next_dir.offset(),
            },
    {
        self.frame_splits(input);
    }

    /// The player's part of a frame: with a step due and no countdown, the
    /// player goes to the side of the queued turn if that cell is free, else on
    /// to the side they head for, else stays. They then wait twelve frames.
    /// Without a step due, or during the countdown, they stay.
    pub proof fn where_the_player_goes(self, input: Input)
        requires
            self.wf(),
            self.frame >= 0,
            self.under_way(),
            input != Input::Restart,
            self.ticked(input).spare() == self.spare(),
            self.ticked(input).level == self.level,
        ensures
            ({
                let next = self.ticked(input).player;
                let turn = match arrow(input) {
                    Some(side) => side,
                    None => self.player.next_dir.offset(),
                };
                let ahead = self.player.dir.offset();
                if self.countdown_until > self.frame || self.frame < self.player.next_step_at {
                    &&& next.pos == self.player.pos
                    &&& next.dir == self.player.dir
                    &&& next.next_step_at == self.player.next_step_at
                } else {
                    &&& next.next_step_at == self.frame + 12
                    &&& free(beside(self.player.pos, turn)) ==> next.pos == beside(
                        self.player.pos,
                        turn,
                    ) && next.dir.offset() == turn
                    &&& !free(beside(self.player.pos, turn)) && free(
                        beside(self.player.pos, ahead),
                    ) ==> next.pos == beside(self.player.pos, ahead) && next.dir
                        == self.player.dir
                    &&& !free(beside(self.player.pos, turn)) && !free(
                        beside(self.player.pos, ahead),
                    ) ==> next.pos == self.player.pos && next.dir == self.player.dir
                }
            }),
    {
        self.frame_splits(input);
        maze::native_layout_is_valid();
        let ready = self.input_taken(input).info_checked().power_checked().fruit_checked();
        let p = self.player.pos;
        steps_lead_beside(p, ready.player.next_dir);
        steps_lead_beside(p, ready.player.dir);
        reveal(GameView::player_updated);
        if ready.countdown_left() <= 0 {
            ready.player_step_is_valid();
            ready.stepping_costs_no_life();
            ready.player_stepped().meetings_disturb_by_death_only(0);
            if self.frame >= self.player.next_step_at {
                ready.a_step_leads_on();
            }
        }
    }

    /// With a step due, no countdown and a free cell on that side, one frame with
    /// an arrow key moves the player by exactly one cell to that side.
    pub proof fn an_arrow_key_moves_the_player(self, input: Input, side: (int, int))
        requires
            self.wf(),
            self.frame >= 0,
            self.under_way(),
            arrow(input) == Some(side),
            self.countdown_until <= self.frame,
            self.player.next_step_at <= self.frame,
            free((self.player.pos.0 + side.0, self.player.pos.1 + side.1)),
            self.ticked(input).spare() == self.spare(),
            self.ticked(input).level == self.level,
        ensures
            self.ticked(input).player.pos == (
                self.player.pos.0 + side.0,
                self.player.pos.1 + side.1,
            ),
    {
        maze::native_layout_is_valid();
        self.where_the_player_goes(input);
    }

    pub(crate) proof fn a_step_leads_on(self)
        requires
            self.wf(),
            self.phase == Phase::Playing,
            self.frame >= self.player.next_step_at,
            self.player_stepped().level == self.level,
        ensures
            ({
                let dir = if self.player_can_go(self.player.next_dir) {
                    self.player.next_dir
                } else {
                    self.player.dir
                };
                let next = self.player_stepped().player;
                &&& next.dir == dir
                &&& next.next_dir == self.player.next_dir
                &&& next.next_step_at == self.frame + 12
                &&& next.pos == if self.player_can_go(dir) {
                    self.maze.layout.step(self.player.pos, dir)
                } else {
                    self.player.pos
                }
            }),
    {
        reveal(GameView::cell_consumed);
    }

    /// A frame of a run that goes on: input, banner, power, fruit, player,
    /// ghosts, and the clock.
    pub(crate) proof fn frame_splits(self, input: Input)
        requires
            self.wf(),
            self.frame >= 0,
            self.phase == Phase::Playing,
            !self.restarts_on(input),
        ensures
            ({
                let taken = self.input_taken(input).info_checked();
                let ready = taken.power_checked().fruit_checked();
                let stepped = ready.player_updated();
                let next = self.ticked(input);
                &&& taken.player.pos == self.player.pos
                &&& taken.player.dir == self.player.dir
                &&& taken.player.next_step_at == self.player.next_step_at
                &&& taken.player.next_dir.offset() == match arrow(input) {
                    Some(side) => side,
                    None => self.player.next_dir.offset(),
                }
                &&& taken.ghosts == self.ghosts
                &&& taken.under_way() <==> self.stirs_on(input)
                &&& ready.wf()
                &&& ready.frame == self.frame
                &&& ready.phase == self.phase
                &&& ready.player == taken.player
                &&& ready.spare() == self.spare()
                &&& ready.level == self.level
                &&& ready.countdown_until == self.countdown_until
                &&& ready.global_pause_until == self.global_pause_until
                &&& stepped.wf()
                &&& stepped.frame == self.frame
                &&& self.stirs_on(input) && stepped.phase == Phase::Playing ==> next
                    == GameView { frame: self.frame + 1, ..stepped.ghosts_updated() }
                &&& self.stirs_on(input) && stepped.phase != Phase::Playing ==> next
                    == GameView { frame: self.frame + 1, ..stepped }
                &&& self.stirs_on(input) && next.spare() == self.spare() ==> stepped.spare()
                    == self.spare() && next.player == stepped.player && next.level
                    == stepped.level && next.phase == stepped.phase
                &&& !self.stirs_on(input) ==> next == GameView { frame: self.frame + 1, ..taken }
                &&& next.spare() == self.spare() ==> next.player.next_dir
                    == taken.player.next_dir
            }),
    {
        reveal(GameView::input_taken);
        reveal(GameView::played);
        let taken = self.input_taken(input).info_checked();
        let ready = taken.power_checked().fruit_checked();
        let stepped = ready.player_updated();
        self.input_is_valid(input);
        taken.power_check_is_sound();
        ready.player_update_is_valid();
        assert(stepped.spare() <= ready.spare() && (stepped.spare() == ready.spare()
            ==> stepped.player.next_dir == ready.player.next_dir)) by {
            reveal(GameView::player_updated);
            if ready.countdown_left() <= 0 {
                ready.player_step_is_valid();
                ready.stepping_costs_no_life();
                ready.player_stepped().meetings_disturb_by_death_only(0);
                reveal(GameView::cell_consumed);
            }
        }
        stepped.ghosts_disturb_by_death_only();
        stepped.ghosts_update_is_valid();
    }
}

} // verus!
