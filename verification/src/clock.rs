//! Clocks that map wall time to game time.
//!
//! Wall time is a count of units since an origin that the caller fixes. One
//! unit of wall time is one tick of game time.

use crate::server::Clock;
use crate::ticks::advanced;
use crate::ticks::later_of;
use crate::ticks::span_between;
use vstd::prelude::*;

verus! {

/// The mathematical state of a [`Simple`] clock.
pub struct SimpleState {
    /// The game time at which the clock was last stopped or started.
    pub base: u64,
    /// The wall time at which the clock was started, while it runs.
    pub started: Option<u64>,
}

impl SimpleState {
    /// The wall time that has passed since the clock was started, as of
    /// `now`; none while the clock is stopped.
    pub open spec fn elapsed_at(self, now: u64) -> u64 {
        match self.started {
            Some(start) => span_between(start, now),
            None => 0,
        }
    }

    /// The game time as of the wall time `now`.
    pub open spec fn time_at(self, now: u64) -> u64 {
        advanced(self.base, self.elapsed_at(now))
    }

    /// The clock after it was stopped at the wall time `now`.
    pub open spec fn stopped_at(self, now: u64) -> SimpleState {
        SimpleState { base: self.time_at(now), started: None }
    }

    /// The clock after it was started at the wall time `now`.
    pub open spec fn started_at(self, now: u64) -> SimpleState {
        SimpleState { base: self.time_at(now), started: Some(now) }
    }
}

/// A clock that advances with wall time while it is started and stands
/// still while it is stopped.
#[derive(Clone, Copy)]
pub struct Simple {
    start_instant: Option<u64>,
    last_time: u64,
}

impl View for Simple {
    type V = SimpleState;

    closed spec fn view(&self) -> SimpleState {
        SimpleState { base: self.last_time, started: self.start_instant }
    }
}

impl Simple {
    /// A stopped clock that shows `start_time`.
    pub fn new(start_time: u64) -> (clock: Self)
        ensures
            clock@ == (SimpleState { base: start_time, started: None }),
    {
        Simple { start_instant: None, last_time: start_time }
    }

    /// The wall time that has passed since the clock was started, as of `now`.
    pub fn elapsed_as_of(&self, now: u64) -> (elapsed: u64)
        ensures
            elapsed == self@.elapsed_at(now),
    {
        if let Some(start) = self.start_instant {
            now.saturating_sub(start)
        } else {
            0
        }
    }

    /// The game time as of the wall time `now`.
    pub fn time(&self, now: u64) -> (t: u64)
        ensures
            t == self@.time_at(now),
    {
        let elapsed = self.elapsed_as_of(now);
        self.last_time.saturating_add(elapsed)
    }

    /// Stops the clock at the game time that it shows as of `now`.
    pub fn stop(&mut self, now: u64)
        ensures
            final(self)@ == old(self)@.stopped_at(now),
    {
        self.last_time = self.time(now);
        self.start_instant = None;
    }

    /// Starts the clock at `now`, from the game time that it shows as of
    /// `now`. Starting a running clock is stopping it and starting it again.
    pub fn start(&mut self, now: u64)
        ensures
            final(self)@ == old(self)@.started_at(now),
    {
        self.stop(now);
        self.start_instant = Some(now);
    }
}

impl Clock for Simple {
    /// The clock shows its game time as of `now` and stays as it is.
    open spec fn shows(self, now: u64, t: u64, after: Self) -> bool {
        t == self@.time_at(now) && after == self
    }

    /// The clock asks for the game time that is missing and stays as it is.
    open spec fn asks(self, in_game: u64, until: u64, wait: u64, after: Self) -> bool {
        wait == span_between(in_game, until) && after == self
    }

    /// The clock stays as it is.
    open spec fn hears(self, now: u64, in_game: u64, after: Self) -> bool {
        after == self
    }

    /// The clock stays as it is.
    open spec fn idles(self, after: Self) -> bool {
        after == self
    }

    fn in_game(&mut self, now: u64) -> (t: u64) {
        self.time(now)
    }

    fn minimum_wait(&mut self, in_game: u64, until: u64) -> (wait: u64) {
        until.saturating_sub(in_game)
    }

    fn finished_cycle(&mut self, now: u64, in_game: u64) {
    }

    fn end_cycles(&mut self) {
    }
}

/// The game time of a simple clock never runs backward as wall time
/// advances: a later wall time shows the same game time or a later one.
pub proof fn law_simple_clock_monotone(clock: SimpleState, earlier: u64, later: u64)
    requires
        earlier <= later,
    ensures
        clock.time_at(earlier) <= clock.time_at(later),
{
}

/// Starting a clock is stopping it and starting it again, whether it was
/// running or not; and a clock shows the same game time just before and
/// just after it is stopped or started.
pub proof fn law_restart_is_stop_then_start(clock: SimpleState, now: u64)
    ensures
        clock.started_at(now) == clock.stopped_at(now).started_at(now),
        clock.stopped_at(now).time_at(now) == clock.time_at(now),
        clock.started_at(now).time_at(now) == clock.time_at(now),
{
}

/// A stopped simple clock shows its base time at every wall time.
pub proof fn law_stopped_clock_stands(clock: SimpleState, now: u64)
    requires
        clock.started is None,
    ensures
        clock.time_at(now) == clock.base,
{
}

/// The wait that a simple clock asks for reaches `until`: waited out on a
/// running clock that shows `in_game`, the clock shows `until` or more.
pub proof fn law_minimum_wait_suffices(clock: SimpleState, now: u64, until: u64)
    requires
        clock.started is Some,
        clock.started->0 <= now,
        now + span_between(clock.time_at(now), until) <= u64::MAX,
    ensures
        clock.time_at((now + span_between(clock.time_at(now), until)) as u64) >= until,
{
}

/// A clock for simulations that do not care for wall time: asked how long
/// to wait for the next event, it jumps to the time of that event and asks
/// for no wait at all. With nothing queued the loop blocks as under any clock.
#[derive(Clone, Copy)]
pub struct InstantClock {
    time: u64,
}

impl View for InstantClock {
    type V = u64;

    /// The game time that the clock shows.
    closed spec fn view(&self) -> u64 {
        self.time
    }
}

impl InstantClock {
    /// A clock that shows `start_time`.
    pub fn new(start_time: u64) -> (clock: Self)
        ensures
            clock@ == start_time,
    {
        InstantClock { time: start_time }
    }
}

impl Clock for InstantClock {
    /// The clock shows its game time, whatever the wall time, and stays as
    /// it is.
    open spec fn shows(self, now: u64, t: u64, after: Self) -> bool {
        t == self@ && after == self
    }

    /// The clock asks for no wait and shows `until` from then on, unless
    /// it was past that already.
    open spec fn asks(self, in_game: u64, until: u64, wait: u64, after: Self) -> bool {
        wait == 0 && after@ == later_of(self@, until)
    }

    /// The clock stays as it is.
    open spec fn hears(self, now: u64, in_game: u64, after: Self) -> bool {
        after == self
    }

    /// The clock stays as it is.
    open spec fn idles(self, after: Self) -> bool {
        after == self
    }

    fn in_game(&mut self, now: u64) -> (t: u64) {
        self.time
    }

    fn minimum_wait(&mut self, in_game: u64, until: u64) -> (wait: u64) {
        if self.time < until {
            self.time = until;
        }
        0
    }

    fn finished_cycle(&mut self, now: u64, in_game: u64) {
    }

    fn end_cycles(&mut self) {
    }
}

/// An instant clock never runs backward, and once it was asked for the way
/// to `until` it shows `until` or later: the event that the loop waited for
/// is due on the next turn.
pub proof fn law_instant_clock_jumps(
    clock: InstantClock,
    in_game: u64,
    until: u64,
    wait: u64,
    after: InstantClock,
    now: u64,
    t: u64,
    last: InstantClock,
)
    requires
        clock.asks(in_game, until, wait, after),
        after.shows(now, t, last),
    ensures
        wait == 0,
        t >= until,
        t >= clock@,
{
}

} // verus!
