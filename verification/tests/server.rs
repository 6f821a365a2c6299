use simserver::clock::InstantClock;
use simserver::clock::Simple;
use simserver::entity_heap::EntityHeap;
use simserver::event_queue::EventQueue;
use simserver::event_queue::GeneralEvent;
use simserver::event_queue::HasQueue;
use simserver::event_queue::Simulation;
use simserver::server::apply_update;
use simserver::server::decide;
use simserver::server::residual_sleep;
use simserver::server::Clock;
use simserver::server::Decision;
use simserver::server::Directive;
use simserver::server::Interruption;
use simserver::server::Server;
use std::sync::mpsc;
use std::time::Duration;

const X: u64 = 1;

struct Game {
    queue: EventQueue<Ev>,
    entities: EntityHeap<i64>,
    log: Vec<&'static str>,
}

enum Ev {
    Say(&'static str),
}

impl GeneralEvent<Game> for Ev {
    fn invoke(self, game: &mut Game) {
        match self {
            Ev::Say(name) => game.log.push(name),
        }
    }
}

impl HasQueue<Ev> for Game {
    fn queue_mut(&mut self) -> &mut EventQueue<Ev> {
        &mut self.queue
    }
}

enum Cmd {
    /// Files `value` in the entity store under the uid 0.
    SetX(i64),
    Enqueue(&'static str, u64),
    Stop,
}

impl Interruption<Game> for Cmd {
    fn update(self, game: &mut Game) -> bool {
        match self {
            Cmd::SetX(value) => {
                game.entities.insert(X, 0, value);
                false
            }
            Cmd::Enqueue(name, at) => {
                game.queue.enqueue_absolute(Ev::Say(name), at);
                false
            }
            Cmd::Stop => true,
        }
    }
}

/// A clock that counts the feedback it gets and otherwise is a simple clock.
struct Counting {
    inner: Simple,
    finished: Vec<(u64, u64)>,
    ended: usize,
}

impl Clock for Counting {
    fn in_game(&mut self, now: u64) -> u64 {
        self.inner.in_game(now)
    }

    fn minimum_wait(&mut self, in_game: u64, until: u64) -> u64 {
        self.inner.minimum_wait(in_game, until)
    }

    fn finished_cycle(&mut self, now: u64, in_game: u64) {
        self.finished.push((now, in_game));
    }

    fn end_cycles(&mut self) {
        self.ended += 1;
    }
}

fn game() -> Game {
    Game { queue: EventQueue::new(0), entities: EntityHeap::new(), log: Vec::new() }
}

fn running(at: u64) -> Simple {
    let mut clock = Simple::new(0);
    clock.start(at);
    clock
}

fn counting(at: u64) -> Counting {
    Counting { inner: running(at), finished: Vec::new(), ended: 0 }
}

/// Drives the loop as a caller does, but on a wall clock that the test
/// winds by hand: every wait takes exactly as long as asked for.
fn drive<C: Clock>(server: &mut Server<C, Cmd, Game>, rx: &mpsc::Receiver<Cmd>, turns: usize) -> u64 {
    let mut wall = 0u64;
    let mut left = turns;
    while !server.should_exit() && left > 0 {
        left -= 1;
        let polled = if server.has_pending() { None } else { rx.try_recv().ok() };
        match server.step(wall, polled) {
            Directive::Continue => {}
            Directive::Sleep { wait, anchor } => {
                let got = rx.recv_timeout(Duration::from_millis(0)).ok();
                if got.is_none() {
                    wall += wait;
                    if let Some(rest) = residual_sleep(anchor, wait, wall) {
                        wall += rest;
                    }
                }
                server.slept(got);
            }
            Directive::Block => server.blocked(rx.recv().ok()),
            Directive::Exit => {}
        }
    }
    wall
}

#[test]
fn decide_applies_a_pending_interruption_first() {
    assert!(decide(true, None, 0) == Decision::Apply);
    assert!(decide(true, Some(3), 10) == Decision::Apply);
    assert!(decide(true, Some(30), 10) == Decision::Apply);
}

#[test]
fn decide_dispatches_what_is_due() {
    assert!(decide(false, Some(3), 10) == Decision::Dispatch { at: 3 });
    assert!(decide(false, Some(10), 10) == Decision::Dispatch { at: 10 });
    assert!(decide(false, Some(0), 0) == Decision::Dispatch { at: 0 });
}

#[test]
fn decide_sleeps_until_the_soonest_event() {
    assert!(decide(false, Some(11), 10) == Decision::Sleep { until: 11 });
    assert!(decide(false, Some(u64::MAX), 0) == Decision::Sleep { until: u64::MAX });
}

#[test]
fn decide_blocks_on_an_empty_queue() {
    assert!(decide(false, None, 0) == Decision::Block);
    assert!(decide(false, None, u64::MAX) == Decision::Block);
}

#[test]
fn residual_sleep_is_what_is_left_to_the_deadline() {
    assert_eq!(residual_sleep(100, 50, 120), Some(30));
    assert_eq!(residual_sleep(100, 50, 149), Some(1));
    assert_eq!(residual_sleep(100, 50, 150), None);
    assert_eq!(residual_sleep(100, 50, 151), None);
    assert_eq!(residual_sleep(100, 0, 100), None);
    assert_eq!(residual_sleep(100, 50, 90), Some(60));
}

#[test]
fn residual_sleep_holds_the_deadline_at_the_last_unit() {
    assert_eq!(residual_sleep(u64::MAX - 10, 50, u64::MAX - 4), Some(4));
    assert_eq!(residual_sleep(u64::MAX - 10, 50, u64::MAX), None);
}

#[test]
fn apply_update_moves_the_clock_then_updates() {
    let mut g = game();
    g.queue.enqueue_absolute(Ev::Say("e"), 40);
    assert!(!apply_update(&mut g, Cmd::SetX(7), 25));
    assert_eq!(g.queue.now(), 25);
    assert_eq!(g.entities.get(X, 0), Some(&7));
    assert!(apply_update(&mut g, Cmd::Stop, 90));
    assert_eq!(g.queue.now(), 40);
    assert!(g.log.is_empty());
}

#[test]
fn a_new_server_has_nothing_pending() {
    let server: Server<Simple, Cmd, Game> = Server::new(game(), Simple::new(0));
    assert!(!server.has_pending());
    assert!(!server.should_exit());
}

#[test]
fn step_blocks_when_nothing_is_queued() {
    let mut server: Server<Counting, Cmd, Game> = Server::new(game(), counting(0));
    assert!(server.step(5, None) == Directive::Block);
    assert!(!server.should_exit());
}

#[test]
fn step_sleeps_until_the_soonest_event() {
    let mut g = game();
    g.queue.enqueue_absolute(Ev::Say("e"), 100);
    let mut server: Server<Simple, Cmd, Game> = Server::new(g, running(0));
    assert!(server.step(30, None) == Directive::Sleep { wait: 70, anchor: 30 });
    assert!(server.game().log.is_empty());
}

#[test]
fn step_dispatches_a_due_batch() {
    let mut g = game();
    g.queue.enqueue_absolute(Ev::Say("e"), 100);
    g.queue.enqueue_absolute(Ev::Say("f"), 100);
    let mut server: Server<Simple, Cmd, Game> = Server::new(g, running(0));
    assert!(server.step(100, None) == Directive::Continue);
    assert_eq!(server.game().log, vec!["e", "f"]);
    assert_eq!(server.game().queue.now(), 100);
}

#[test]
fn step_applies_a_polled_interruption_before_a_due_batch() {
    let mut g = game();
    g.queue.enqueue_absolute(Ev::Say("e"), 10);
    let mut server: Server<Simple, Cmd, Game> = Server::new(g, running(0));
    assert!(server.step(50, Some(Cmd::SetX(7))) == Directive::Continue);
    assert_eq!(server.game().entities.get(X, 0), Some(&7));
    assert!(server.game().log.is_empty());
    assert_eq!(server.game().queue.now(), 10);
    assert!(server.step(50, None) == Directive::Continue);
    assert_eq!(server.game().log, vec!["e"]);
}

#[test]
fn step_exits_when_the_interruption_asks_for_it() {
    let mut server: Server<Simple, Cmd, Game> = Server::new(game(), running(0));
    assert!(server.step(1, Some(Cmd::Stop)) == Directive::Exit);
    assert!(server.should_exit());
}

#[test]
fn a_message_that_ends_a_sleep_is_applied_on_the_next_turn() {
    let mut g = game();
    g.queue.enqueue_absolute(Ev::Say("e"), 100);
    let mut server: Server<Simple, Cmd, Game> = Server::new(g, running(0));
    assert!(server.step(0, None) == Directive::Sleep { wait: 100, anchor: 0 });
    server.slept(Some(Cmd::SetX(7)));
    assert!(server.has_pending());
    assert!(server.step(1, None) == Directive::Continue);
    assert!(!server.has_pending());
    assert_eq!(server.game().entities.get(X, 0), Some(&7));
    assert!(server.game().log.is_empty());
}

#[test]
fn a_sleep_without_a_message_leaves_nothing_pending() {
    let mut g = game();
    g.queue.enqueue_absolute(Ev::Say("e"), 100);
    let mut server: Server<Simple, Cmd, Game> = Server::new(g, running(0));
    server.step(0, None);
    server.slept(None);
    assert!(!server.has_pending());
    assert!(!server.should_exit());
}

#[test]
fn a_closed_channel_ends_the_loop_when_blocked() {
    let mut server: Server<Simple, Cmd, Game> = Server::new(game(), running(0));
    assert!(server.step(0, None) == Directive::Block);
    server.blocked(None);
    assert!(server.should_exit());
    assert!(!server.has_pending());
}

#[test]
fn a_message_that_ends_a_block_is_pending() {
    let mut server: Server<Simple, Cmd, Game> = Server::new(game(), running(0));
    server.step(0, None);
    server.blocked(Some(Cmd::Stop));
    assert!(server.has_pending());
    assert!(!server.should_exit());
    assert!(server.step(0, None) == Directive::Exit);
}

#[test]
fn the_clock_hears_of_every_cycle() {
    let mut g = game();
    g.queue.enqueue_absolute(Ev::Say("e"), 10);
    g.queue.enqueue_absolute(Ev::Say("f"), 90);
    let mut server: Server<Counting, Cmd, Game> = Server::new(g, counting(0));
    server.step(20, Some(Cmd::SetX(1)));
    server.step(21, None);
    server.step(22, None);
    server.finish();
    let (_, clock) = server.into_parts();
    assert_eq!(clock.finished, vec![(20, 20), (21, 10)]);
    assert_eq!(clock.ended, 2);
}

#[test]
fn empty_shutdown() {
    let (tx, rx) = mpsc::channel::<Cmd>();
    drop(tx);
    let mut server: Server<Counting, Cmd, Game> = Server::new(game(), counting(0));
    drive(&mut server, &rx, 10);
    assert!(server.should_exit());
    server.finish();
    let (g, clock) = server.into_parts();
    assert!(g.log.is_empty());
    assert!(clock.finished.is_empty());
    assert_eq!(clock.ended, 2);
}

#[test]
fn single_event() {
    let (tx, rx) = mpsc::channel::<Cmd>();
    drop(tx);
    let mut g = game();
    g.queue.enqueue_absolute(Ev::Say("E"), 10);
    let mut server: Server<InstantClock, Cmd, Game> = Server::new(g, InstantClock::new(0));
    drive(&mut server, &rx, 10);
    assert!(server.should_exit());
    assert_eq!(server.game().log, vec!["E"]);
    assert_eq!(server.game().queue.now(), 10);
}

#[test]
fn ordering() {
    let (tx, rx) = mpsc::channel::<Cmd>();
    tx.send(Cmd::Enqueue("A", 5)).unwrap();
    drop(tx);
    let mut g = game();
    g.queue.enqueue_absolute(Ev::Say("B"), 3);
    g.queue.enqueue_absolute(Ev::Say("C"), 3);
    g.queue.enqueue_absolute(Ev::Say("D"), 10);
    let mut server: Server<Simple, Cmd, Game> = Server::new(g, running(0));
    drive(&mut server, &rx, 20);
    assert!(server.should_exit());
    assert_eq!(server.game().log, vec!["B", "C", "A", "D"]);
}

#[test]
fn ordering_under_the_instant_clock() {
    let (tx, rx) = mpsc::channel::<Cmd>();
    drop(tx);
    let mut g = game();
    g.queue.enqueue_absolute(Ev::Say("A"), 5);
    g.queue.enqueue_absolute(Ev::Say("B"), 3);
    g.queue.enqueue_absolute(Ev::Say("C"), 3);
    g.queue.enqueue_absolute(Ev::Say("D"), 10);
    let mut server: Server<InstantClock, Cmd, Game> = Server::new(g, InstantClock::new(0));
    drive(&mut server, &rx, 20);
    assert!(server.should_exit());
    assert_eq!(server.game().log, vec!["B", "C", "A", "D"]);
    assert_eq!(server.game().queue.now(), 10);
}

#[test]
fn an_interruption_under_the_instant_clock_sees_the_time_of_the_last_event() {
    let (tx, rx) = mpsc::channel::<Cmd>();
    let mut g = game();
    g.queue.enqueue_absolute(Ev::Say("first"), 30);
    let mut server: Server<InstantClock, Cmd, Game> = Server::new(g, InstantClock::new(0));
    assert!(server.step(0, None) == Directive::Sleep { wait: 0, anchor: 0 });
    server.slept(None);
    assert!(server.step(0, None) == Directive::Continue);
    assert_eq!(server.game().log, vec!["first"]);
    assert!(server.step(0, None) == Directive::Block);
    tx.send(Cmd::SetX(9)).unwrap();
    server.blocked(rx.recv().ok());
    assert!(server.step(0, None) == Directive::Continue);
    assert_eq!(server.game().queue.now(), 30);
    assert_eq!(server.game().entities.get(X, 0), Some(&9));
}

#[test]
fn real_time_pacing() {
    let mut g = game();
    g.queue.enqueue_absolute(Ev::Say("E"), 500);
    let mut server: Server<Simple, Cmd, Game> = Server::new(g, running(0));
    assert!(server.step(0, None) == Directive::Sleep { wait: 500, anchor: 0 });
    server.slept(None);
    assert!(server.step(499, None) == Directive::Sleep { wait: 1, anchor: 499 });
    server.slept(None);
    assert!(server.game().log.is_empty());
    assert!(server.step(500, None) == Directive::Continue);
    assert_eq!(server.game().log, vec!["E"]);
}

#[test]
fn pacing_on_a_driven_wall_clock() {
    let (tx, rx) = mpsc::channel::<Cmd>();
    tx.send(Cmd::Enqueue("E", 500)).unwrap();
    tx.send(Cmd::Enqueue("stop-marker", 700)).unwrap();
    let mut server: Server<Simple, Cmd, Game> = Server::new(game(), running(0));
    let mut wall = 0u64;
    let mut fired_at = None;
    for _ in 0..20 {
        let polled = if server.has_pending() { None } else { rx.try_recv().ok() };
        match server.step(wall, polled) {
            Directive::Sleep { wait, anchor } => {
                wall += wait;
                if let Some(rest) = residual_sleep(anchor, wait, wall) {
                    wall += rest;
                }
                server.slept(None);
            }
            _ => {}
        }
        if fired_at.is_none() && server.game().log == vec!["E"] {
            fired_at = Some(wall);
        }
    }
    assert_eq!(fired_at, Some(500));
    assert_eq!(server.game().log, vec!["E", "stop-marker"]);
    drop(tx);
}

#[test]
fn cancellation() {
    let mut g = game();
    let handle = g.queue.enqueue_absolute(Ev::Say("E"), 10);
    g.queue.cancel_event(&10, handle);
    g.simulate(20);
    assert!(g.log.is_empty());
    assert!(g.queue.is_empty());
}

#[test]
fn interrupt_preemption() {
    let (tx, rx) = mpsc::channel::<Cmd>();
    let mut g = game();
    g.queue.enqueue_absolute(Ev::Say("far"), 100);
    let mut server: Server<Simple, Cmd, Game> = Server::new(g, running(0));
    let wait = match server.step(0, None) {
        Directive::Sleep { wait, anchor } => {
            assert_eq!(anchor, 0);
            wait
        }
        _ => panic!("the server sleeps until the event"),
    };
    assert_eq!(wait, 100);
    tx.send(Cmd::SetX(7)).unwrap();
    let got = rx.recv_timeout(Duration::from_millis(wait)).ok();
    assert!(got.is_some());
    server.slept(got);
    assert!(server.step(1, None) == Directive::Continue);
    assert_eq!(server.game().entities.get(X, 0), Some(&7));
    assert!(server.game().log.is_empty());
    assert_eq!(server.game().queue.now(), 1);
}

#[test]
fn a_closed_channel_with_a_future_event_keeps_the_loop_waiting() {
    let (tx, rx) = mpsc::channel::<Cmd>();
    drop(tx);
    let mut g = game();
    g.queue.enqueue_absolute(Ev::Say("far"), 1000);
    let mut server: Server<Simple, Cmd, Game> = Server::new(g, running(0));
    let polled = rx.try_recv().ok();
    assert!(polled.is_none());
    assert!(server.step(0, polled) == Directive::Sleep { wait: 1000, anchor: 0 });
    server.slept(rx.recv_timeout(Duration::from_millis(0)).ok());
    assert!(!server.should_exit());
    assert!(server.step(400, None) == Directive::Sleep { wait: 600, anchor: 400 });
}

#[test]
fn a_closed_channel_drains_the_queue_then_exits() {
    let (tx, rx) = mpsc::channel::<Cmd>();
    drop(tx);
    let mut g = game();
    g.queue.enqueue_absolute(Ev::Say("soon"), 40);
    g.queue.enqueue_absolute(Ev::Say("late"), 900);
    let mut server: Server<Counting, Cmd, Game> = Server::new(g, counting(0));
    let wall = drive(&mut server, &rx, 50);
    assert!(server.should_exit());
    assert_eq!(wall, 900);
    assert_eq!(server.game().log, vec!["soon", "late"]);
    assert!(server.game().queue.is_empty());
}

#[test]
fn once_over_the_loop_stays_over() {
    let mut g = game();
    g.queue.enqueue_absolute(Ev::Say("e"), 10);
    let mut server: Server<Simple, Cmd, Game> = Server::new(g, running(0));
    assert!(server.step(0, Some(Cmd::Stop)) == Directive::Exit);
    assert!(server.should_exit());
    server.finish();
    assert!(server.should_exit());
    assert!(server.step(5, None) == Directive::Sleep { wait: 5, anchor: 5 });
    assert!(server.should_exit());
    server.slept(None);
    assert!(server.should_exit());
    assert!(server.game().log.is_empty());
}

#[test]
fn a_stop_leaves_the_queued_events_undispatched() {
    let (tx, rx) = mpsc::channel::<Cmd>();
    tx.send(Cmd::SetX(3)).unwrap();
    tx.send(Cmd::Stop).unwrap();
    tx.send(Cmd::SetX(4)).unwrap();
    let mut g = game();
    g.queue.enqueue_absolute(Ev::Say("never"), 1);
    let mut server: Server<Simple, Cmd, Game> = Server::new(g, running(0));
    drive(&mut server, &rx, 50);
    assert!(server.should_exit());
    assert_eq!(server.game().entities.get(X, 0), Some(&3));
    assert!(server.game().log.is_empty());
    drop(tx);
}
