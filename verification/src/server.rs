//! The decisions of the server loop.
//!
//! The loop itself waits on a channel and on the wall clock, so its driver
//! lives with the caller. Each turn the driver reads the wall clock, polls
//! the channel unless an interruption is still pending, and calls
//! [`Server::step`]. The directive that comes back says how to wait before
//! the next turn; what the wait brought is reported with [`Server::slept`]
//! or [`Server::blocked`].
//!
//! The loop ends when an interruption asks for it, or when the channel is
//! found closed while nothing is queued. A closed channel does not end the
//! loop while events are queued: the loop sleeps and dispatches until the
//! queue is empty.

use crate::event_queue::dispatched;
use crate::event_queue::embeds_queue;
use crate::event_queue::EventQueue;
use crate::event_queue::GeneralEvent;
use crate::event_queue::HasQueue;
use crate::event_queue::Simulation;
use crate::ticks::advanced;
use vstd::prelude::*;

verus! {

/// A command from outside that changes the game.
pub trait Interruption<G>: Sized {
    /// What the command may do: applied to `before` it may leave `after`
    /// behind and answer `stop`. An implementor that says nothing promises
    /// nothing.
    open spec fn effect(self, before: G, after: G, stop: bool) -> bool {
        true
    }

    /// Applies the command; `true` asks the server to stop.
    fn update(self, game: &mut G) -> (stop: bool)
        ensures
            self.effect(*old(game), *final(game), stop),
    ;
}

/// The mapping from wall time to game time, and the pacing of the loop.
///
/// Each method comes with a relation that says what a call may answer and
/// what clock it may leave behind. An implementor that states none of them
/// promises nothing.
pub trait Clock: Sized {
    /// Asked at the wall time `now`, the clock may show the game time `t`
    /// and be `after` from then on.
    open spec fn shows(self, now: u64, t: u64, after: Self) -> bool {
        true
    }

    /// Asked at game time `in_game` for the way to `until`, the clock may
    /// ask for `wait` and be `after` from then on.
    open spec fn asks(self, in_game: u64, until: u64, wait: u64, after: Self) -> bool {
        true
    }

    /// Told of a cycle at `now` and `in_game`, the clock may be `after`.
    open spec fn hears(self, now: u64, in_game: u64, after: Self) -> bool {
        true
    }

    /// Told that the loop goes idle, the clock may be `after`.
    open spec fn idles(self, after: Self) -> bool {
        true
    }

    /// The game time as of the wall time `now`.
    fn in_game(&mut self, now: u64) -> (t: u64)
        ensures
            old(self).shows(now, t, *final(self)),
    ;

    /// The least wall time to wait at game time `in_game` until game time
    /// `until` is reached. The clock may run slower than that, never faster.
    fn minimum_wait(&mut self, in_game: u64, until: u64) -> (wait: u64)
        ensures
            old(self).asks(in_game, until, wait, *final(self)),
    ;

    /// Tells the clock that a step at game time `in_game` was just run.
    fn finished_cycle(&mut self, now: u64, in_game: u64)
        ensures
            old(self).hears(now, in_game, *final(self)),
    ;

    /// Tells the clock that the loop is going idle.
    fn end_cycles(&mut self)
        ensures
            old(self).idles(*final(self)),
    ;
}

/// What a turn of the loop does.
#[derive(Clone, Copy, PartialEq, Eq, Structural)]
pub enum Decision {
    /// Apply the pending interruption.
    Apply,
    /// Dispatch the batch that is due at `at`.
    Dispatch { at: u64 },
    /// Sleep until the batch at `until` is due, or an interruption arrives.
    Sleep { until: u64 },
    /// Wait for an interruption, however long it takes.
    Block,
}

/// The rule of the loop: an interruption goes first; else a due batch is
/// dispatched; else the loop sleeps until the soonest batch; with nothing
/// queued it blocks.
pub open spec fn decision(pending: bool, soonest: Option<u64>, in_game: u64) -> Decision {
    if pending {
        Decision::Apply
    } else {
        match soonest {
            Some(at) => if at <= in_game {
                Decision::Dispatch { at }
            } else {
                Decision::Sleep { until: at }
            },
            None => Decision::Block,
        }
    }
}

/// The rule of the loop, case by case: each decision is taken on exactly
/// the inputs that call for it.
pub proof fn law_decision_cases(pending: bool, soonest: Option<u64>, in_game: u64)
    ensures
        decision(pending, soonest, in_game) == Decision::Apply <==> pending,
        forall|at: u64|
            decision(pending, soonest, in_game) == (Decision::Dispatch { at }) <==> !pending
                && soonest == Some(at) && at <= in_game,
        forall|until: u64|
            decision(pending, soonest, in_game) == (Decision::Sleep { until }) <==> !pending
                && soonest == Some(until) && until > in_game,
        decision(pending, soonest, in_game) == Decision::Block <==> !pending && soonest is None,
{
}

/// Decides what a turn does, from whether an interruption is pending, the
/// soonest execute time in the queue and the game time of the clock.
pub fn decide(pending: bool, soonest: Option<u64>, in_game: u64) -> (d: Decision)
    ensures
        d == decision(pending, soonest, in_game),
{
    if pending {
        Decision::Apply
    } else {
        match soonest {
            Some(at) => if at <= in_game {
                Decision::Dispatch { at }
            } else {
                Decision::Sleep { until: at }
            },
            None => Decision::Block,
        }
    }
}

/// The wall time that is left of a sleep of `sleep_for` that began at
/// `anchor`, as of `now`; none once the deadline has passed. A deadline
/// beyond the last unit of wall time counts as that last unit.
pub open spec fn residual(anchor: u64, sleep_for: u64, now: u64) -> Option<u64> {
    let deadline = advanced(anchor, sleep_for);
    if deadline > now {
        Some((deadline - now) as u64)
    } else {
        None
    }
}

/// How long the driver still has to sleep when its timed receive has ended
/// without a message at `now`, so that it does not come back before the
/// deadline `anchor + sleep_for`.
pub fn residual_sleep(anchor: u64, sleep_for: u64, now: u64) -> (left: Option<u64>)
    ensures
        left == residual(anchor, sleep_for, now),
{
    let deadline = anchor.saturating_add(sleep_for);
    if deadline > now {
        Some(deadline - now)
    } else {
        None
    }
}

/// A driver that sleeps what is left does not come back before the
/// deadline: the time at which it wakes is the deadline, or the time at
/// which it asked where that was later.
pub proof fn law_residual_reaches_deadline(anchor: u64, sleep_for: u64, now: u64)
    ensures
        match residual(anchor, sleep_for, now) {
            Some(left) => now + left == advanced(anchor, sleep_for),
            None => now >= advanced(anchor, sleep_for),
        },
{
}

/// `after` and `stop` are what `apply_update` on `before` may leave behind
/// and answer: the clock of the queue was moved forward towards `in_game`,
/// then the update was applied.
pub open spec fn applied<I: Interruption<G>, G: HasQueue<E>, E: GeneralEvent<G>>(
    before: G,
    upd: I,
    in_game: u64,
    after: G,
    stop: bool,
) -> bool {
    exists|q: EventQueue<E>|
        q@ == before.queue()@.progress(in_game) && #[trigger] upd.effect(
            before.with_queue(q),
            after,
            stop,
        )
}

/// Moves the game's clock forward to `in_game`, stopping at the soonest
/// batch, then applies `upd`. Says whether the update asks the server to stop.
pub fn apply_update<I, G, E>(game: &mut G, upd: I, in_game: u64) -> (stop: bool) where
    I: Interruption<G>,
    G: HasQueue<E>,
    E: GeneralEvent<G>,

    ensures
        embeds_queue::<G, E>() ==> applied(*old(game), upd, in_game, *final(game), stop),
{
    game.queue_mut().progress_time(in_game);
    upd.update(game)
}

/// How the driver waits before the next turn.
#[derive(Clone, Copy, PartialEq, Eq, Structural)]
pub enum Directive {
    /// Take the next turn at once.
    Continue,
    /// Receive with a timeout of `wait`; if that ends without a message,
    /// sleep what [`residual_sleep`] gives for `anchor` and `wait`. Report
    /// with [`Server::slept`].
    Sleep { wait: u64, anchor: u64 },
    /// Receive without a timeout. Report with [`Server::blocked`].
    Block,
    /// Leave the loop, then call [`Server::finish`].
    Exit,
}

/// The mathematical state of a [`Server`].
pub struct ServerState<C, I, G> {
    pub clock: C,
    pub game: G,
    /// The interruption that waits for the next turn.
    pub pending: Option<I>,
    /// Whether the loop is over.
    pub exiting: bool,
}

/// The turn applies the update `upd`: the clock hears of the cycle at the
/// game time that it showed, the update is applied, and the loop ends if
/// the update asks for it.
pub open spec fn turn_applies<C: Clock, I: Interruption<G>, G: HasQueue<E>, E: GeneralEvent<G>>(
    before: ServerState<C, I, G>,
    clock: C,
    now: u64,
    in_game: u64,
    upd: I,
    after: ServerState<C, I, G>,
    next: Directive,
) -> bool {
    exists|stop: bool|
        {
            &&& clock.hears(now, in_game, after.clock)
            &&& #[trigger] applied(before.game, upd, in_game, after.game, stop)
            &&& after.pending is None
            &&& after.exiting == (before.exiting || stop)
            &&& next == if stop {
                Directive::Exit
            } else {
                Directive::Continue
            }
        }
}

/// The turn dispatches the batch that is due at `at`: the clock hears of
/// the cycle at that time, and the batch is dispatched.
pub open spec fn turn_dispatches<C: Clock, I, G: HasQueue<E>, E: GeneralEvent<G>>(
    before: ServerState<C, I, G>,
    clock: C,
    now: u64,
    at: u64,
    after: ServerState<C, I, G>,
    next: Directive,
) -> bool {
    &&& clock.hears(now, at, after.clock)
    &&& dispatched(before.game, after.game)
    &&& after.pending is None
    &&& after.exiting == before.exiting
    &&& next == Directive::Continue
}

/// The turn sends the driver to sleep: the clock hears that the loop goes
/// idle and says how long to wait for `until`; the game is left alone.
pub open spec fn turn_sleeps<C: Clock, I, G>(
    before: ServerState<C, I, G>,
    clock: C,
    now: u64,
    in_game: u64,
    until: u64,
    after: ServerState<C, I, G>,
    next: Directive,
) -> bool {
    exists|idle: C, wait: u64|
        {
            &&& clock.idles(idle)
            &&& #[trigger] idle.asks(in_game, until, wait, after.clock)
            &&& after.game == before.game
            &&& after.pending is None
            &&& after.exiting == before.exiting
            &&& next == Directive::Sleep { wait, anchor: now }
        }
}

/// The turn sends the driver to block: the clock hears that the loop goes
/// idle; the game is left alone.
pub open spec fn turn_blocks<C: Clock, I, G>(
    before: ServerState<C, I, G>,
    clock: C,
    after: ServerState<C, I, G>,
    next: Directive,
) -> bool {
    &&& clock.idles(after.clock)
    &&& after.game == before.game
    &&& after.pending is None
    &&& after.exiting == before.exiting
    &&& next == Directive::Block
}

/// `after` and `next` are what a turn at the wall time `now` on `before`
/// may leave behind and answer, where the poll of the channel brought
/// `polled`: the clock shows the game time, [`decision`] says what to do,
/// and that is done.
pub open spec fn stepped<C: Clock, I: Interruption<G>, G: HasQueue<E>, E: GeneralEvent<G>>(
    before: ServerState<C, I, G>,
    now: u64,
    polled: Option<I>,
    after: ServerState<C, I, G>,
    next: Directive,
) -> bool {
    exists|in_game: u64, clock: C|
        {
            let upd = if before.pending is Some {
                before.pending
            } else {
                polled
            };
            &&& #[trigger] before.clock.shows(now, in_game, clock)
            &&& match decision(upd is Some, before.game.queue()@.soonest(), in_game) {
                Decision::Apply => turn_applies(before, clock, now, in_game, upd->0, after, next),
                Decision::Dispatch { at } => turn_dispatches(before, clock, now, at, after, next),
                Decision::Sleep { until } => turn_sleeps(
                    before,
                    clock,
                    now,
                    in_game,
                    until,
                    after,
                    next,
                ),
                Decision::Block => turn_blocks(before, clock, after, next),
            }
        }
}

/// The state of the server loop: the game, the clock, and the one
/// interruption that may be waiting for the next turn.
pub struct Server<C, I, G> {
    clock: C,
    game: G,
    pending: Option<I>,
    should_exit: bool,
}

impl<C, I, G> View for Server<C, I, G> {
    type V = ServerState<C, I, G>;

    closed spec fn view(&self) -> ServerState<C, I, G> {
        ServerState {
            clock: self.clock,
            game: self.game,
            pending: self.pending,
            exiting: self.should_exit,
        }
    }
}

impl<C, I, G> Server<C, I, G> where I: Interruption<G> {
    /// A server for `game`, paced by `clock`; nothing is pending.
    pub fn new(game: G, clock: C) -> (server: Self)
        ensures
            server@ == (ServerState { clock, game, pending: None::<I>, exiting: false }),
    {
        Server { clock, game, pending: None, should_exit: false }
    }

    /// Whether an interruption is waiting for the next turn. While one is,
    /// the driver does not poll the channel.
    pub fn has_pending(&self) -> (pending: bool)
        ensures
            pending == (self@.pending is Some),
    {
        self.pending.is_some()
    }

    /// Whether the loop is over.
    pub fn should_exit(&self) -> (exiting: bool)
        ensures
            exiting == self@.exiting,
    {
        self.should_exit
    }

    /// The game.
    pub fn game(&self) -> (game: &G)
        ensures
            *game == self@.game,
    {
        &self.game
    }

    /// Takes one turn of the loop at the wall time `now`. `polled` is what
    /// the driver's poll of the channel brought.
    ///
    /// A pending or polled interruption is applied, after the clock was told
    /// of the cycle; the loop ends if the interruption asks for it. Without
    /// one, a due batch is dispatched, or the driver is told to sleep until
    /// the soonest batch is due, or to block when nothing is queued.
    pub fn step<E>(&mut self, now: u64, polled: Option<I>) -> (next: Directive) where
        C: Clock,
        G: HasQueue<E>,
        E: GeneralEvent<G>,

        requires
            polled is Some ==> old(self)@.pending is None,
        ensures
            embeds_queue::<G, E>() ==> stepped(old(self)@, now, polled, final(self)@, next),
            final(self)@.pending is None,
            final(self)@.exiting == (old(self)@.exiting || next == Directive::Exit),
            (old(self)@.pending is Some || polled is Some) ==> (next == Directive::Exit || next
                == Directive::Continue),
            (old(self)@.pending is None && polled is None) ==> next != Directive::Exit,
            next matches Directive::Sleep { anchor, .. } ==> anchor == now,
    {
        let ghost before = self@;
        let in_game = self.clock.in_game(now);
        let ghost clock = self.clock;
        let upd = match self.pending.take() {
            Some(upd) => Some(upd),
            None => polled,
        };
        let ghost taken = upd;
        let ghost mut stopped = false;
        let ghost mut idle = self.clock;
        let soonest = if upd.is_some() {
            None
        } else {
            self.game.queue_mut().soonest()
        };
        let next = match decide(upd.is_some(), soonest, in_game) {
            Decision::Apply => {
                let mut stop = false;
                if let Some(upd) = upd {
                    self.clock.finished_cycle(now, in_game);
                    stop = apply_update(&mut self.game, upd, in_game);
                }
                proof {
                    stopped = stop;
                }
                if stop {
                    self.should_exit = true;
                    Directive::Exit
                } else {
                    Directive::Continue
                }
            },
            Decision::Dispatch { at } => {
                self.clock.finished_cycle(now, at);
                self.game.invoke_next();
                Directive::Continue
            },
            Decision::Sleep { until } => {
                self.clock.end_cycles();
                proof {
                    idle = self.clock;
                }
                let wait = self.clock.minimum_wait(in_game, until);
                Directive::Sleep { wait, anchor: now }
            },
            Decision::Block => {
                self.clock.end_cycles();
                Directive::Block
            },
        };
        proof {
            if embeds_queue::<G, E>() {
                match decision(taken is Some, before.game.queue()@.soonest(), in_game) {
                    Decision::Apply => {
                        assert(applied(before.game, taken->0, in_game, self@.game, stopped));
                    },
                    Decision::Sleep { until } => {
                        assert(idle.asks(in_game, until, next->wait, self@.clock));
                    },
                    _ => {},
                }
                assert(before.clock.shows(now, in_game, clock));
            }
        }
        next
    }

    /// Reports what a timed receive brought: a message, or nothing.
    pub fn slept(&mut self, received: Option<I>)
        requires
            old(self)@.pending is None,
        ensures
            final(self)@ == (ServerState { pending: received, ..old(self)@ }),
    {
        self.pending = received;
    }

    /// Reports what a receive without timeout brought: a message, or
    /// nothing because the channel is closed. A closed channel with nothing
    /// queued ends the loop.
    pub fn blocked(&mut self, received: Option<I>)
        requires
            old(self)@.pending is None,
        ensures
            final(self)@ == (ServerState {
                pending: received,
                exiting: old(self)@.exiting || received is None,
                ..old(self)@
            }),
    {
        if received.is_none() {
            self.should_exit = true;
        }
        self.pending = received;
    }

    /// Ends the loop: tells the clock that the server goes idle.
    pub fn finish(&mut self) where C: Clock
        ensures
            old(self)@.clock.idles(final(self)@.clock),
            final(self)@ == (ServerState { clock: final(self)@.clock, ..old(self)@ }),
    {
        self.clock.end_cycles();
    }

    /// Takes the server apart into its game and its clock.
    pub fn into_parts(self) -> (parts: (G, C))
        ensures
            parts == (self@.game, self@.clock),
    {
        (self.game, self.clock)
    }
}

} // verus!
