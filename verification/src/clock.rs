//! Moments of the clock, as the library sees them.

use vstd::prelude::*;

use crate::rules::FPS;

verus! {

/// Nanoseconds in a millisecond.
pub const NANOS_PER_MILLI: u128 = 1_000_000;

/// Milliseconds between two frames.
pub const TICK_MS: u128 = 16;

/// The time between two frames, in nanoseconds.
pub const TICK: u128 = 16_000_000;

/// A reading of a steady clock: nanoseconds since a point in time that stays
/// the same while the program runs.
#[derive(Clone, Copy, Debug, PartialEq, Eq, Structural)]
pub struct Moment {
    pub nanos: u128,
}

impl Moment {
    /// Whole milliseconds from `earlier` to this moment; none if `earlier` lies
    /// ahead.
    pub open spec fn millis_after(self, earlier: Moment) -> int {
        if self.nanos <= earlier.nanos {
            0
        } else {
            (self.nanos - earlier.nanos) / 1_000_000
        }
    }

    /// Whole milliseconds that have passed since `earlier`.
    pub fn millis_since(self, earlier: Moment) -> (millis: u128)
        ensures
            millis == self.millis_after(earlier),
    {
        if self.nanos <= earlier.nanos {
            0
        } else {
            (self.nanos - earlier.nanos) / NANOS_PER_MILLI
        }
    }

    /// The moment one frame later.
    pub fn next_frame(self) -> (next: Moment)
        requires
            self.nanos + TICK <= u128::MAX,
        ensures
            next.nanos == self.nanos + TICK,
    {
        Moment { nanos: self.nanos + TICK }
    }
}

/// A frame lasts a second's milliseconds divided by the frame rate, rounded
/// down.
pub proof fn frame_length_follows_the_rate()
    ensures
        TICK_MS == 1000int / (FPS as int),
        TICK == TICK_MS * NANOS_PER_MILLI,
{
}

} // verus!
