//! The time of day, kept by counting the rounds of the weather screen.

use vstd::prelude::*;

verus! {

/// The seconds of a day.
pub const DAY: u32 = 86400;

/// The seconds that one round of the weather screen lasts.
pub const ROUND_SECONDS: u8 = 2;

/// A time of day.
#[derive(Clone, Copy, Debug, PartialEq, Eq, Structural)]
pub struct Clock {
    pub hours: u8,
    pub minutes: u8,
    pub seconds: u8,
}

/// The time of day `total` seconds after midnight.
pub open spec fn time_at(total: int) -> Clock {
    Clock {
        hours: (total / 3600) as u8,
        minutes: (total / 60 % 60) as u8,
        seconds: (total % 60) as u8,
    }
}

/// The time of day `n` rounds after `clock`.
pub open spec fn rounds_later(clock: Clock, n: nat) -> Clock
    decreases n,
{
    if n == 0 {
        clock
    } else {
        rounds_later(clock, (n - 1) as nat).round_later()
    }
}

impl Clock {
    /// The three fields form a time of day.
    pub open spec fn wf(self) -> bool {
        self.hours < 24 && self.minutes < 60 && self.seconds < 60
    }

    /// The seconds since midnight.
    pub open spec fn total(self) -> int {
        self.hours * 3600 + self.minutes * 60 + self.seconds
    }

    /// The time of day one round later; midnight follows the last second of a day.
    pub open spec fn round_later(self) -> Clock {
        time_at((self.total() + ROUND_SECONDS) % (DAY as int))
    }

    /// The time at which the clock starts.
    pub fn new() -> (clock: Clock)
        ensures
            clock == (Clock { hours: 14, minutes: 30, seconds: 0 }),
            clock.wf(),
    {
        Clock { hours: 14, minutes: 30, seconds: 0 }
    }

    /// Counts one round.
    pub fn advance(&mut self)
        requires
            old(self).wf(),
        ensures
            *final(self) == old(self).round_later(),
            final(self).wf(),
    {
        self.seconds = self.seconds + ROUND_SECONDS;
        if self.seconds >= 60 {
            self.seconds = self.seconds - 60;
            self.minutes = self.minutes + 1;
            if self.minutes >= 60 {
                self.minutes = 0;
                self.hours = self.hours + 1;
                if self.hours >= 24 {
                    self.hours = 0;
                }
            }
        }
    }
}

/// Reading a time of day as seconds since midnight loses nothing.
pub proof fn lemma_time_round_trip(clock: Clock)
    requires
        clock.wf(),
    ensures
        0 <= clock.total() < DAY,
        time_at(clock.total()) == clock,
{
}

/// Each second of the day is the time of day that reads as it.
pub proof fn lemma_seconds_round_trip(total: int)
    requires
        0 <= total < DAY,
    ensures
        time_at(total).wf(),
        time_at(total).total() == total,
{
}

/// After `n` rounds the clock is still a time of day, and shows the time that lies
/// `n` times the length of a round later.
pub proof fn lemma_rounds_add_up(clock: Clock, n: nat)
    requires
        clock.wf(),
    ensures
        rounds_later(clock, n).wf(),
        rounds_later(clock, n) == time_at((clock.total() + ROUND_SECONDS * n) % (DAY as int)),
    decreases n,
{
    if n == 0 {
        lemma_time_round_trip(clock);
    } else {
        let m = (n - 1) as nat;
        let before = clock.total() + ROUND_SECONDS * m;
        lemma_rounds_add_up(clock, m);
        lemma_seconds_round_trip(before % (DAY as int));
        assert((before % (DAY as int) + 2) % (DAY as int) == (before + 2) % (DAY as int));
        lemma_seconds_round_trip((before + 2) % (DAY as int));
    }
}

/// A day of rounds brings the clock back to where it stood.
pub proof fn lemma_full_day(clock: Clock)
    requires
        clock.wf(),
    ensures
        rounds_later(clock, 43200) == clock,
{
    lemma_rounds_add_up(clock, 43200);
    lemma_time_round_trip(clock);
    assert((clock.total() + 86400) % 86400 == clock.total());
}

} // verus!
