//! A time-ordered queue of one-shot events.
//!
//! Time is counted in whole ticks (`u64`). Events that share an execute time
//! form a batch: they sit in one bucket, in the order in which they were
//! enqueued, and leave the queue together.
//!
//! Every enqueue returns a handle. The queue counts its handles up and
//! never starts again, so that a handle names one event for good: once the
//! event was dispatched, cancelling by its handle does nothing, whatever
//! was enqueued at that time since.

use crate::ticks::advanced;
use crate::ticks::earlier_of;
use crate::ticks::later_of;
use std::collections::BTreeMap;
use vstd::prelude::*;
use vstd::std_specs::btree::*;
use vstd::std_specs::cmp::OrdSpec;
use vstd::std_specs::iter::IteratorSpec;

verus! {

/// An event as a queue holds it: run once, against the game `G`.
///
/// Implement it for an enum that sums up every kind of event of a game; the
/// queue then stores the events in place. [`EventBox`] implements it for
/// boxed events of any type.
pub trait GeneralEvent<G>: Sized {
    /// What a run of the event may do: `after` is a game that a run on
    /// `before` may leave behind. An implementor that says nothing promises
    /// nothing.
    open spec fn effect(self, before: G, after: G) -> bool {
        true
    }

    /// Runs the event.
    fn invoke(self, game: &mut G)
        ensures
            self.effect(*old(game), *final(game)),
    ;
}

/// A single kind of event, run once against the game `G`.
///
/// Any implementor can be boxed into an [`EventBox`] and so share a queue
/// with events of other types.
pub trait Event<G, E = EventBox<G>>: Sized where E: GeneralEvent<G> {
    /// What a run of the event may do: `after` is a game that a run on
    /// `before` may leave behind. An implementor that says nothing promises
    /// nothing.
    open spec fn effect(self, before: G, after: G) -> bool {
        true
    }

    /// Runs the event.
    fn invoke(self, game: &mut G)
        ensures
            self.effect(*old(game), *final(game)),
    ;
}

/// Runs an [`Event`] from inside its box.
trait PolyEvent<G> {
    /// What a run of the boxed event may do.
    spec fn boxed_effect(&self, before: G, after: G) -> bool;

    fn invoke_box(self: Box<Self>, game: &mut G)
        ensures
            self.boxed_effect(*old(game), *final(game)),
    ;
}

impl<G, Es> PolyEvent<G> for Es where Es: Event<G> {
    spec fn boxed_effect(&self, before: G, after: G) -> bool {
        self.effect(before, after)
    }

    fn invoke_box(self: Box<Self>, game: &mut G) {
        (*self).invoke(game);
    }
}

/// A boxed event of any type that implements [`Event`].
#[verifier::reject_recursive_types(G)]
pub struct EventBox<G>(Box<dyn PolyEvent<G>>);

impl<G> EventBox<G> {
    /// Boxes `event`. The boxed event may do what `event` may do.
    pub fn new<Es>(event: Es) -> (boxed: Self) where Es: 'static + Event<G>
        ensures
            forall|before: G, after: G| #[trigger]
                boxed.effect(before, after) == event.effect(before, after),
    {
        EventBox(Box::new(event))
    }
}

impl<G> GeneralEvent<G> for EventBox<G> {
    /// A boxed event may do what the event in the box may do.
    closed spec fn effect(self, before: G, after: G) -> bool {
        self.0.boxed_effect(before, after)
    }

    fn invoke(self, game: &mut G) {
        self.0.invoke_box(game)
    }
}

/// A place in a bucket: the handle under which the event was enqueued, and
/// the event itself for as long as it is live. A cancelled slot keeps its
/// handle and holds no event.
pub struct Slot<E> {
    pub handle: usize,
    pub event: Option<E>,
}

/// The mathematical state of an [`EventQueue`].
///
/// `given` counts the handles that the queue has given out; it only grows,
/// and stops at the last `usize`. `buckets` maps each execute time that has
/// a bucket to the slots of that bucket in insertion order.
#[verifier::ext_equal]
pub struct QueueState<E> {
    pub now: u64,
    pub given: usize,
    pub buckets: Map<u64, Seq<Slot<E>>>,
}

/// The live events of a bucket, in insertion order; cancelled slots are skipped.
pub open spec fn live<E>(slots: Seq<Slot<E>>) -> Seq<E>
    decreases slots.len(),
{
    if slots.len() == 0 {
        Seq::empty()
    } else {
        let earlier = live(slots.drop_last());
        match slots.last().event {
            Some(event) => earlier.push(event),
            None => earlier,
        }
    }
}

/// The slot without its event if it carries the handle `id`, else as it is.
pub open spec fn emptied<E>(slot: Slot<E>, id: usize) -> Slot<E> {
    if slot.handle == id {
        Slot { handle: slot.handle, event: None }
    } else {
        slot
    }
}

/// The count of handles after one more was given: it stops at the last `usize`.
pub open spec fn one_more(given: usize) -> usize {
    if given < usize::MAX {
        (given + 1) as usize
    } else {
        given
    }
}

impl<E> QueueState<E> {
    /// `t` has a bucket and no bucket is earlier.
    pub open spec fn is_soonest(self, t: u64) -> bool {
        &&& self.buckets.contains_key(t)
        &&& forall|k: u64| self.buckets.contains_key(k) ==> t <= k
    }

    /// The earliest execute time that has a bucket, if there is any bucket.
    pub open spec fn soonest(self) -> Option<u64> {
        if exists|t: u64| self.is_soonest(t) {
            Some(choose|t: u64| self.is_soonest(t))
        } else {
            None
        }
    }

    /// Some bucket is due at or before `time`.
    pub open spec fn has_event_by(self, time: u64) -> bool {
        match self.soonest() {
            Some(t) => t <= time,
            None => false,
        }
    }

    /// The slots of the bucket at `t`; empty where there is no bucket.
    pub open spec fn slots_at(self, t: u64) -> Seq<Slot<E>> {
        if self.buckets.contains_key(t) {
            self.buckets[t]
        } else {
            Seq::empty()
        }
    }

    /// Some slot of the bucket at `t` carries the handle `id`.
    pub open spec fn carries(self, t: u64, id: usize) -> bool {
        exists|i: int| 0 <= i < self.slots_at(t).len() && #[trigger] self.slots_at(t)[i].handle == id
    }

    /// Every handle in the queue was given out by the queue, and to one
    /// slot only: it is below the count of handles given, and no other
    /// slot, at whatever time, carries it. The one exception is the last
    /// `usize`, which the queue gives out again and again once the count
    /// has stopped there.
    pub open spec fn wf(self) -> bool {
        &&& forall|t: u64, i: int|
            self.buckets.contains_key(t) && 0 <= i < self.buckets[t].len() ==> {
                let handle = (#[trigger] self.buckets[t][i]).handle;
                handle < self.given || handle == usize::MAX
            }
        &&& forall|t: u64, i: int, u: u64, j: int|
            self.buckets.contains_key(t) && 0 <= i < self.buckets[t].len()
                && self.buckets.contains_key(u) && 0 <= j < self.buckets[u].len() && (
            #[trigger] self.buckets[t][i]).handle == (#[trigger] self.buckets[u][j]).handle
                && self.buckets[t][i].handle < usize::MAX ==> t == u && i == j
    }

    /// The handle `id` was given out for the time `t` or could have been,
    /// and no slot at `t` carries it: its event was dispatched, or there
    /// never was one. Such a handle stays dead for good.
    pub open spec fn dead(self, t: u64, id: usize) -> bool {
        id < self.given && !self.carries(t, id)
    }

    /// The state after `event` was appended to the bucket at `t`, under the
    /// next handle.
    pub open spec fn enqueue(self, event: E, t: u64) -> Self {
        QueueState {
            now: self.now,
            given: one_more(self.given),
            buckets: self.buckets.insert(
                t,
                self.slots_at(t).push(Slot { handle: self.given, event: Some(event) }),
            ),
        }
    }

    /// The state after every slot of the bucket at `t` that carries the
    /// handle `id` was emptied.
    pub open spec fn cancel(self, t: u64, id: usize) -> Self {
        if self.buckets.contains_key(t) {
            QueueState {
                now: self.now,
                given: self.given,
                buckets: self.buckets.insert(
                    t,
                    Seq::new(self.buckets[t].len(), |i: int| emptied(self.buckets[t][i], id)),
                ),
            }
        } else {
            self
        }
    }

    /// The time that `progress_time(until)` aims for: the soonest bucket if it
    /// is due by `until`, else `until`.
    pub open spec fn target(self, until: u64) -> u64 {
        match self.soonest() {
            Some(t) => earlier_of(until, t),
            None => until,
        }
    }

    /// The state after time was moved forward towards `until`, stopping at
    /// the soonest bucket. Time never moves backward.
    pub open spec fn progress(self, until: u64) -> Self {
        QueueState { now: later_of(self.now, self.target(until)), ..self }
    }

    /// The state after the clock was set to `until`, unless that lies in the past.
    pub open spec fn settle(self, until: u64) -> Self {
        QueueState { now: later_of(self.now, until), ..self }
    }

    /// The state after the soonest bucket left the queue; unchanged where the
    /// queue has no bucket.
    pub open spec fn after_batch(self) -> Self {
        match self.soonest() {
            Some(t) => QueueState {
                now: later_of(self.now, t),
                given: self.given,
                buckets: self.buckets.remove(t),
            },
            None => self,
        }
    }

    /// The events that leave with the soonest bucket, in dispatch order.
    pub open spec fn batch(self) -> Seq<E> {
        match self.soonest() {
            Some(t) => live(self.buckets[t]),
            None => Seq::empty(),
        }
    }
}

/// At most one time is the soonest.
pub proof fn lemma_soonest_unique<E>(s: QueueState<E>, a: u64, b: u64)
    requires
        s.is_soonest(a),
        s.is_soonest(b),
    ensures
        a == b,
{
}

/// `soonest` is `Some(t)` exactly for the `t` that `is_soonest`.
pub proof fn lemma_soonest_is<E>(s: QueueState<E>, t: u64)
    requires
        s.is_soonest(t),
    ensures
        s.soonest() == Some(t),
{
    let c = choose|c: u64| s.is_soonest(c);
    lemma_soonest_unique(s, c, t);
}

/// A queue without buckets has no soonest time.
pub proof fn lemma_soonest_none<E>(s: QueueState<E>)
    requires
        s.buckets.dom() =~= Set::<u64>::empty(),
    ensures
        s.soonest() is None,
{
    assert forall|t: u64| !s.is_soonest(t) by {
        assert(!s.buckets.dom().contains(t));
    }
}

/// A time-ordered queue of events of type `E`, with the current time.
pub struct EventQueue<E> {
    now: u64,
    next_handle: usize,
    events: BTreeMap<u64, Vec<Slot<E>>>,
}

impl<E> View for EventQueue<E> {
    type V = QueueState<E>;

    closed spec fn view(&self) -> QueueState<E> {
        state_of(self.now, self.next_handle, self.events)
    }
}

/// The state that a queue with these fields is in.
spec fn state_of<E>(now: u64, next_handle: usize, events: BTreeMap<u64, Vec<Slot<E>>>) -> QueueState<
    E,
> {
    QueueState {
        now,
        given: next_handle,
        buckets: Map::new(|t: u64| events@.contains_key(t), |t: u64| events@[t]@),
    }
}

impl<E> EventQueue<E> {
    /// Every handle in the queue was given out by the queue.
    #[verifier::type_invariant]
    spec fn handles_were_given(self) -> bool {
        self@.wf()
    }
}

/// The least key of `m`, found at the front of its key iterator.
fn first_key<V>(m: &BTreeMap<u64, V>) -> (r: Option<u64>)
    ensures
        r is None ==> m@.dom() =~= Set::<u64>::empty(),
        r matches Some(k) ==> m@.contains_key(k) && forall|j: u64| m@.contains_key(j) ==> k <= j,
{
    broadcast use vstd::std_specs::btree::group_btree_axioms;
    broadcast use vstd::laws_cmp::group_laws_cmp;

    proof {
        axiom_spec_keys_iter(m);
    }
    let ghost ks = spec_keys_iter(m).remaining();
    for k in it: m.keys()
        invariant
            it.index() == 0,
            it.seq() == ks,
            ks.unref().to_set() == m@.dom(),
            increasing_seq(ks),
    {
        proof {
            assert(ks.unref()[0] == *k);
            assert(ks.unref().to_set().contains(*k));
            assert(vstd::laws_cmp::obeys_cmp::<u64>());
            assert(vstd::laws_cmp::obeys_cmp::<&u64>());
            axiom_increasing_seq_meaning::<&u64>(ks);
            assert forall|j: u64| m@.contains_key(j) implies *k <= j by {
                assert(ks.unref().contains(j));
                let i = choose|i: int| 0 <= i < ks.unref().len() && ks.unref()[i] == j;
                if i > 0 {
                    let a: &u64 = ks[0];
                    let b: &u64 = ks[i];
                    assert((&a).cmp_spec(&b) is Less);
                }
            }
        }
        return Some(*k);
    }
    proof {
        assert(ks.len() == 0);
        assert(ks.unref().to_set() =~= Set::empty());
    }
    None
}

impl<E> EventQueue<E> {
    /// A queue holds finitely many buckets.
    pub proof fn lemma_finite(&self)
        ensures
            self@.buckets.dom().finite(),
    {
        broadcast use vstd::std_specs::btree::group_btree_axioms;

        assert(self@.buckets.dom() =~= self.events@.dom());
    }

    /// An empty queue whose clock stands at `initial_time`.
    pub fn new(initial_time: u64) -> (q: Self)
        ensures
            q@ == (QueueState {
                now: initial_time,
                given: 0,
                buckets: Map::<u64, Seq<Slot<E>>>::empty(),
            }),
            q@.wf(),
    {
        let q = EventQueue { now: initial_time, next_handle: 0, events: BTreeMap::new() };
        proof {
            assert(q@.buckets =~= Map::<u64, Seq<Slot<E>>>::empty());
        }
        q
    }

    /// The current time.
    pub fn now(&self) -> (t: u64)
        ensures
            t == self@.now,
            self@.wf(),
    {
        proof {
            use_type_invariant(self);
        }
        self.now
    }

    /// The earliest execute time in the queue.
    pub fn soonest(&self) -> (r: Option<u64>)
        ensures
            r == self@.soonest(),
            r matches Some(t) ==> self@.is_soonest(t),
            r is None ==> self@.buckets.dom() =~= Set::<u64>::empty(),
            self@.wf(),
    {
        let r = first_key(&self.events);
        proof {
            use_type_invariant(self);
            match r {
                Some(t) => {
                    assert(self@.is_soonest(t));
                    lemma_soonest_is(self@, t);
                },
                None => {
                    assert(self@.buckets.dom() =~= Set::<u64>::empty());
                    lemma_soonest_none(self@);
                },
            }
        }
        r
    }

    /// Whether some bucket is due at or before `time`.
    pub fn has_event_by(&self, time: &u64) -> (due: bool)
        ensures
            due == self@.has_event_by(*time),
    {
        if let Some(next_time) = self.soonest() {
            next_time <= *time
        } else {
            false
        }
    }

    /// Whether the queue holds no bucket at all.
    pub fn is_empty(&self) -> (empty: bool)
        ensures
            empty == (self@.buckets.dom() =~= Set::<u64>::empty()),
            empty == (self@.soonest() is None),
    {
        broadcast use vstd::std_specs::btree::group_btree_axioms;

        let empty = self.events.is_empty();
        proof {
            self.lemma_finite();
            assert(self@.buckets.dom() =~= self.events@.dom());
            if empty {
                lemma_soonest_none(self@);
            } else {
                assert(exists|t: u64| self@.buckets.dom().contains(t));
                lemma_has_soonest(self@);
            }
        }
        empty
    }
}

impl<E> EventQueue<E> {
    /// Appends `event` to the bucket at `execute_time` and returns its
    /// handle. Together with the execute time the handle is what the event
    /// can be cancelled by. The queue gives every handle below the last
    /// `usize` once and never again. An execute time in the past is
    /// accepted; the clock is not touched.
    pub fn enqueue_absolute(&mut self, event: E, execute_time: u64) -> (id: usize)
        ensures
            final(self)@ == old(self)@.enqueue(event, execute_time),
            id == old(self)@.given,
            old(self)@.wf(),
            final(self)@.wf(),
    {
        broadcast use vstd::std_specs::btree::group_btree_axioms;

        proof {
            use_type_invariant(&*self);
        }
        let ghost before = self@;
        let id = self.next_handle;
        let mut events = BTreeMap::new();
        std::mem::swap(&mut events, &mut self.events);
        let mut bucket = match events.remove(&execute_time) {
            Some(bucket) => bucket,
            None => Vec::new(),
        };
        bucket.push(Slot { handle: id, event: Some(event) });
        events.insert(execute_time, bucket);
        if id < usize::MAX {
            self.next_handle = id + 1;
        }
        proof {
            let after = state_of(self.now, self.next_handle, events);
            assert(after.buckets =~= before.enqueue(event, execute_time).buckets);
            lemma_enqueue_keeps_order(before, event, execute_time);
        }
        self.events = events;
        id
    }

    /// Enqueues `event` at `execute_delay` ticks after the current time. A
    /// sum beyond the last tick stays at the last tick.
    pub fn enqueue_relative(&mut self, event: E, execute_delay: u64) -> (id: usize)
        ensures
            final(self)@ == old(self)@.enqueue(event, advanced(old(self)@.now, execute_delay)),
            id == old(self)@.given,
            old(self)@.wf(),
            final(self)@.wf(),
    {
        let execute_time = self.now().saturating_add(execute_delay);
        self.enqueue_absolute(event, execute_time)
    }

    /// Empties the slot of the bucket at `execute_time` that carries the
    /// handle `id`, so that its event is skipped when the bucket is
    /// dispatched. Nothing happens where no slot there carries the handle,
    /// as ever after its bucket was dispatched.
    pub fn cancel_event(&mut self, execute_time: &u64, id: usize)
        ensures
            final(self)@ == old(self)@.cancel(*execute_time, id),
            !old(self)@.carries(*execute_time, id) ==> final(self)@ == old(self)@,
            old(self)@.wf(),
            final(self)@.wf(),
    {
        broadcast use vstd::std_specs::btree::group_btree_axioms;

        proof {
            use_type_invariant(&*self);
        }
        let ghost before = self@;
        let mut events = BTreeMap::new();
        std::mem::swap(&mut events, &mut self.events);
        if let Some(mut bucket) = events.remove(execute_time) {
            let ghost slots = bucket@;
            let mut i: usize = 0;
            while i < bucket.len()
                invariant
                    i <= bucket.len(),
                    bucket@.len() == slots.len(),
                    forall|j: int| 0 <= j < i ==> bucket@[j] == emptied(slots[j], id),
                    forall|j: int| i <= j < slots.len() ==> bucket@[j] == slots[j],
                decreases bucket.len() - i,
            {
                if bucket[i].handle == id {
                    bucket.set(i, Slot { handle: id, event: None });
                }
                i = i + 1;
            }
            proof {
                assert(bucket@ =~= Seq::new(slots.len(), |j: int| emptied(slots[j], id)));
            }
            events.insert(*execute_time, bucket);
        }
        proof {
            let after = state_of(self.now, self.next_handle, events);
            assert(after.buckets =~= before.cancel(*execute_time, id).buckets);
            lemma_cancel_keeps_order(before, *execute_time, id);
            if !before.carries(*execute_time, id) {
                lemma_cancel_of_no_slot(before, *execute_time, id);
            }
        }
        self.events = events;
    }

    /// Moves the clock forward to the soonest bucket, or to `until` if that
    /// is sooner, and says whether a bucket is due by `until`. A clock that
    /// is already past that point stays where it is.
    pub fn progress_time(&mut self, until: u64) -> (due: bool)
        ensures
            final(self)@ == old(self)@.progress(until),
            due == old(self)@.has_event_by(until),
            old(self)@.wf(),
            final(self)@.wf(),
    {
        proof {
            use_type_invariant(&*self);
        }
        let (due, target) = match self.soonest() {
            Some(t) => if t <= until {
                (true, t)
            } else {
                (false, until)
            },
            None => (false, until),
        };
        if self.now < target {
            self.now = target;
        }
        proof {
            assert(self@.buckets =~= old(self)@.buckets);
        }
        due
    }

    /// Sets the clock to `until`, unless the clock is already past it.
    pub fn settle(&mut self, until: u64)
        ensures
            final(self)@ == old(self)@.settle(until),
            old(self)@.wf(),
            final(self)@.wf(),
    {
        proof {
            use_type_invariant(&*self);
        }
        if self.now < until {
            self.now = until;
        }
        proof {
            assert(self@.buckets =~= old(self)@.buckets);
        }
    }

    /// Removes the soonest bucket and returns its live events in insertion
    /// order, moving the clock forward to the bucket's time. Events that are
    /// enqueued afterwards, also at that same time, wait for a later batch.
    pub fn take_batch(&mut self) -> (batch: Vec<E>)
        ensures
            final(self)@ == old(self)@.after_batch(),
            batch@ == old(self)@.batch(),
            old(self)@.wf(),
            final(self)@.wf(),
    {
        broadcast use vstd::std_specs::btree::group_btree_axioms;

        proof {
            use_type_invariant(&*self);
        }
        match self.soonest() {
            None => Vec::new(),
            Some(t) => {
                let ghost before = self@;
                let mut events = BTreeMap::new();
                std::mem::swap(&mut events, &mut self.events);
                let slots = match events.remove(&t) {
                    Some(slots) => slots,
                    None => Vec::new(),
                };
                proof {
                    let after = state_of(self.now, self.next_handle, events);
                    assert(after.buckets =~= before.after_batch().buckets);
                    lemma_batch_keeps_order(before);
                }
                self.events = events;
                if self.now < t {
                    self.now = t;
                }
                live_events(slots)
            },
        }
    }
}

/// Cancelling by a handle that no slot of the bucket carries changes nothing.
proof fn lemma_cancel_of_no_slot<E>(s: QueueState<E>, t: u64, id: usize)
    requires
        !s.carries(t, id),
    ensures
        s.cancel(t, id) == s,
{
    if s.buckets.contains_key(t) {
        assert forall|i: int| 0 <= i < s.buckets[t].len() implies emptied(s.buckets[t][i], id)
            == s.buckets[t][i] by {
            assert(s.slots_at(t)[i].handle != id);
        }
        assert(s.cancel(t, id).buckets[t] =~= s.buckets[t]);
        assert(s.cancel(t, id).buckets =~= s.buckets);
    }
}

/// One more slot adds its event, if it holds one, behind the earlier ones.
proof fn lemma_live_step<E>(slots: Seq<Slot<E>>, i: int)
    requires
        0 <= i < slots.len(),
    ensures
        live(slots.take(i + 1)) == match slots[i].event {
            Some(event) => live(slots.take(i)).push(event),
            None => live(slots.take(i)),
        },
{
    assert(slots.take(i + 1).drop_last() =~= slots.take(i));
}

/// Moves the live events out of a bucket, in order.
fn live_events<E>(slots: Vec<Slot<E>>) -> (out: Vec<E>)
    ensures
        out@ == live(slots@),
{
    let ghost all = slots@;
    let mut out: Vec<E> = Vec::new();
    for slot in it: slots
        invariant
            it.seq() == all,
            out@ == live(all.take(it.index())),
    {
        proof {
            lemma_live_step(all, it.index());
        }
        if let Some(event) = slot.event {
            out.push(event);
        }
    }
    proof {
        assert(all.take(all.len() as int) =~= all);
    }
    out
}

/// A queue of boxed events.
pub type PolyEventQueue<G> = EventQueue<EventBox<G>>;

impl<G> PolyEventQueue<G> {
    /// Boxes `event` and enqueues it at `execute_time`. The boxed event may
    /// do what `event` may do.
    pub fn enqueue_box_absolute<Es>(&mut self, event: Es, execute_time: u64) where
        Es: 'static + Event<G>,

        ensures
            final(self)@.slots_at(execute_time).len() > 0,
            final(self)@.slots_at(execute_time).last().event matches Some(boxed) && final(self)@
                == old(self)@.enqueue(boxed, execute_time) && (forall|before: G, after: G|
                #[trigger] boxed.effect(before, after) == event.effect(before, after)),
            old(self)@.wf(),
            final(self)@.wf(),
    {
        self.enqueue_absolute(EventBox::new(event), execute_time);
    }

    /// Boxes `event` and enqueues it `execute_delay` ticks after the current
    /// time. The boxed event may do what `event` may do.
    pub fn enqueue_box_relative<Es>(&mut self, event: Es, execute_delay: u64) where
        Es: 'static + Event<G>,

        ensures
            final(self)@.slots_at(advanced(old(self)@.now, execute_delay)).len() > 0,
            final(self)@.slots_at(advanced(old(self)@.now, execute_delay)).last().event matches Some(
                boxed,
            ) && final(self)@ == old(self)@.enqueue(boxed, advanced(old(self)@.now, execute_delay))
                && (forall|before: G, after: G| #[trigger]
                boxed.effect(before, after) == event.effect(before, after)),
            old(self)@.wf(),
            final(self)@.wf(),
    {
        self.enqueue_relative(EventBox::new(event), execute_delay);
    }
}

/// `after` is a game that a run of `events`, one after the other, on
/// `before` may leave behind.
pub open spec fn runs<G, E: GeneralEvent<G>>(events: Seq<E>, before: G, after: G) -> bool
    decreases events.len(),
{
    if events.len() == 0 {
        before == after
    } else {
        exists|mid: G|
            runs(events.drop_last(), before, mid) && #[trigger] events.last().effect(mid, after)
    }
}

/// The game keeps to the contract of [`HasQueue::queue_mut`], and its
/// queue can be told apart from the rest of it: putting back the queue that
/// is there changes nothing, and a queue that was put is the queue that is
/// there.
pub open spec fn embeds_queue<G: HasQueue<E>, E: GeneralEvent<G>>() -> bool {
    &&& G::tracks_queue()
    &&& forall|g: G| #[trigger] g.with_queue(g.queue()) == g
    &&& forall|g: G, q: EventQueue<E>| #[trigger] g.with_queue(q).queue() == q
}

/// `after` is a game that the dispatch of the soonest batch of `before` may
/// leave behind: the batch has left the queue, the clock stands at its time
/// or later, and the live events of the batch have run in insertion order.
pub open spec fn dispatched<G: HasQueue<E>, E: GeneralEvent<G>>(before: G, after: G) -> bool {
    exists|q: EventQueue<E>|
        q@ == before.queue()@.after_batch() && #[trigger] runs(
            before.queue()@.batch(),
            before.with_queue(q),
            after,
        )
}

/// `after` is `before` with the clock of its queue set to `until`, unless
/// the clock was past it.
pub open spec fn settled<G: HasQueue<E>, E: GeneralEvent<G>>(
    before: G,
    after: G,
    until: u64,
) -> bool {
    exists|q: EventQueue<E>|
        q@ == before.queue()@.settle(until) && after == #[trigger] before.with_queue(q)
}

/// `after` is a game that `count` dispatches in a row on `before` may leave
/// behind, where each of them found a batch due by `until`.
pub open spec fn drained<G: HasQueue<E>, E: GeneralEvent<G>>(
    count: nat,
    before: G,
    after: G,
    until: u64,
) -> bool
    decreases count,
{
    if count == 0 {
        before == after
    } else {
        exists|mid: G|
            drained((count - 1) as nat, before, mid, until) && mid.queue()@.has_event_by(until)
                && #[trigger] dispatched(mid, after)
    }
}

/// `after` is a game that `simulate(until)` on `before` may leave behind:
/// batches were dispatched for as long as one was due by `until`, at most
/// `u64::MAX` of them, and then the clock was settled at `until`.
pub open spec fn simulated<G: HasQueue<E>, E: GeneralEvent<G>>(
    before: G,
    after: G,
    until: u64,
) -> bool {
    exists|count: nat, last: G|
        count <= u64::MAX && #[trigger] drained(count, before, last, until) && (count == u64::MAX
            || !last.queue()@.has_event_by(until)) && settled(last, after, until)
}

/// A run of some events and then of one more is a run of them all.
proof fn lemma_runs_step<G, E: GeneralEvent<G>>(events: Seq<E>, before: G, mid: G, after: G)
    requires
        events.len() > 0,
        runs(events.drop_last(), before, mid),
        events.last().effect(mid, after),
    ensures
        runs(events, before, after),
{
}

/// Some dispatches and then one more are one more dispatch in a row.
proof fn lemma_drained_step<G: HasQueue<E>, E: GeneralEvent<G>>(
    count: nat,
    before: G,
    mid: G,
    after: G,
    until: u64,
)
    requires
        count > 0,
        drained((count - 1) as nat, before, mid, until),
        mid.queue()@.has_event_by(until),
        dispatched(mid, after),
    ensures
        drained(count, before, after, until),
{
}

/// A game that embeds an event queue.
pub trait HasQueue<E>: Sized {
    /// Whether the game keeps to the contract of `queue_mut`. An
    /// implementor that says nothing promises nothing.
    open spec fn tracks_queue() -> bool {
        false
    }

    /// The queue that the game embeds.
    open spec fn queue(&self) -> EventQueue<E> {
        arbitrary()
    }

    /// The game with `q` in the place of its queue.
    open spec fn with_queue(self, q: EventQueue<E>) -> Self {
        arbitrary()
    }

    /// The queue that the game embeds, for writing. What the caller leaves
    /// in it is the queue of the game afterwards; nothing else changes.
    fn queue_mut(&mut self) -> (q: &mut EventQueue<E>)
        ensures
            Self::tracks_queue() ==> *q == old(self).queue() && *final(self) == old(
                self,
            ).with_queue(*final(q)),
    ;
}

/// A queue on its own is the least game: its events see the queue and
/// nothing else.
impl<E> HasQueue<E> for EventQueue<E> {
    open spec fn tracks_queue() -> bool {
        true
    }

    open spec fn queue(&self) -> EventQueue<E> {
        *self
    }

    open spec fn with_queue(self, q: EventQueue<E>) -> Self {
        q
    }

    fn queue_mut(&mut self) -> (q: &mut EventQueue<E>) {
        self
    }
}

/// A game that can be simulated: every game that embeds a queue of events
/// that run against it.
pub trait Simulation<E>: HasQueue<E> where E: GeneralEvent<Self> {
    /// Dispatches the soonest batch: takes it from the queue, then runs its
    /// events in insertion order. Nothing happens on an empty queue.
    fn invoke_next(&mut self)
        ensures
            embeds_queue::<Self, E>() ==> dispatched(*old(self), *final(self)),
    ;

    /// Dispatches batch after batch while one is due by `until`, then sets
    /// the clock to `until`. It gives up after `u64::MAX` batches.
    fn simulate(&mut self, until: u64)
        ensures
            embeds_queue::<Self, E>() ==> simulated(*old(self), *final(self), until),
    ;
}

impl<G, E> Simulation<E> for G where G: HasQueue<E>, E: GeneralEvent<G> {
    fn invoke_next(&mut self) {
        let batch = self.queue_mut().take_batch();
        let ghost start = *self;
        let ghost events = batch@;
        for event in it: batch
            invariant
                it.seq() == events,
                runs(events.take(it.index()), start, *self),
        {
            let ghost mid = *self;
            event.invoke(self);
            proof {
                let sofar = events.take(it.index() + 1);
                assert(sofar.drop_last() =~= events.take(it.index()));
                lemma_runs_step(sofar, start, mid, *self);
            }
        }
        proof {
            assert(events.take(events.len() as int) =~= events);
        }
    }

    fn simulate(&mut self, until: u64) {
        let mut budget: u64 = u64::MAX;
        while budget > 0 && self.queue_mut().has_event_by(&until)
            invariant
                embeds_queue::<Self, E>() ==> drained(
                    (u64::MAX - budget) as nat,
                    *old(self),
                    *self,
                    until,
                ),
            decreases budget,
        {
            let ghost mid = *self;
            self.invoke_next();
            budget = budget - 1;
            proof {
                if embeds_queue::<Self, E>() {
                    lemma_drained_step((u64::MAX - budget) as nat, *old(self), mid, *self, until);
                }
            }
        }
        let ghost last = *self;
        self.queue_mut().settle(until);
        proof {
            if embeds_queue::<Self, E>() {
                assert(settled(last, *self, until));
            }
        }
    }
}

/// A queue with a bucket has a soonest time.
pub proof fn lemma_has_soonest<E>(s: QueueState<E>)
    requires
        s.buckets.dom().finite(),
        exists|t: u64| s.buckets.contains_key(t),
    ensures
        s.soonest() is Some,
{
    let t = choose|t: u64| s.buckets.contains_key(t);
    lemma_least_key(s.buckets.dom(), t);
    let m = choose|m: u64| s.buckets.dom().contains(m) && forall|k: u64| s.buckets.dom().contains(k) ==> m <= k;
    assert(s.is_soonest(m));
}

/// A finite set of times with a member has a least member.
proof fn lemma_least_key(keys: Set<u64>, t: u64)
    requires
        keys.finite(),
        keys.contains(t),
    ensures
        exists|m: u64| keys.contains(m) && forall|k: u64| keys.contains(k) ==> m <= k,
    decreases keys.len(),
{
    let rest = keys.remove(t);
    if exists|k: u64| rest.contains(k) {
        let k0 = choose|k: u64| rest.contains(k);
        lemma_least_key(rest, k0);
        let m0 = choose|m: u64| rest.contains(m) && forall|k: u64| rest.contains(k) ==> m <= k;
        let m = if t <= m0 { t } else { m0 };
        assert(keys.contains(m));
        assert forall|k: u64| keys.contains(k) implies m <= k by {
            if k != t {
                assert(rest.contains(k));
            }
        }
    } else {
        assert forall|k: u64| keys.contains(k) implies t <= k by {
            if k != t {
                assert(rest.contains(k));
            }
        }
    }
}

/// Dispatch never moves the clock backward, and it moves the clock at least
/// to the time of the batch that leaves.
pub proof fn law_batch_advances_clock<E>(s: QueueState<E>)
    ensures
        s.after_batch().now >= s.now,
        s.soonest() matches Some(t) ==> s.after_batch().now >= t,
        s.soonest() matches Some(t) ==> s.after_batch().now == later_of(s.now, t),
{
}

/// Enqueuing never moves the front of the queue later: afterwards the
/// soonest time is the earlier of the new execute time and the soonest time
/// before.
pub proof fn law_enqueue_front<E>(s: QueueState<E>, event: E, t: u64)
    requires
        s.buckets.dom().finite(),
    ensures
        s.enqueue(event, t).soonest() == Some(
            match s.soonest() {
                Some(before) => earlier_of(t, before),
                None => t,
            },
        ),
        s.soonest() matches Some(before) ==> s.enqueue(event, t).soonest()->0 <= before,
{
    let after = s.enqueue(event, t);
    match s.soonest() {
        Some(before) => {
            assert(s.is_soonest(before));
            assert(after.is_soonest(earlier_of(t, before)));
            lemma_soonest_is(after, earlier_of(t, before));
        },
        None => {
            if exists|k: u64| s.buckets.contains_key(k) {
                lemma_has_soonest(s);
            }
            assert(after.is_soonest(t));
            lemma_soonest_is(after, t);
        },
    }
}

/// Where the clock has not yet reached the point that `progress_time` aims
/// for, it is set to exactly that point: the earlier of `until` and the
/// soonest time.
pub proof fn law_progress_reaches_target<E>(s: QueueState<E>, until: u64)
    requires
        s.now <= s.target(until),
    ensures
        s.progress(until).now == s.target(until),
        s.soonest() matches Some(t) ==> s.progress(until).now == earlier_of(until, t),
        s.soonest() is None ==> s.progress(until).now == until,
        s.progress(until).buckets == s.buckets,
{
}

/// The clock never runs backward: not when time is progressed, not when
/// the clock is settled, not when a batch leaves, and enqueuing and
/// cancelling do not touch it.
pub proof fn law_clock_monotone<E>(s: QueueState<E>, until: u64, event: E, t: u64, id: usize)
    ensures
        s.progress(until).now >= s.now,
        s.settle(until).now >= s.now,
        s.after_batch().now >= s.now,
        s.enqueue(event, t).now == s.now,
        s.cancel(t, id).now == s.now,
{
}

/// An event that is enqueued at or before the current time, and not later
/// than any bucket of the queue, leaves with the very next batch, behind
/// the events that its bucket already held, and the clock stays where it is.
pub proof fn law_past_event_is_next<E>(s: QueueState<E>, event: E, t: u64)
    requires
        t <= s.now,
        forall|k: u64| s.buckets.contains_key(k) ==> t <= k,
    ensures
        s.enqueue(event, t).soonest() == Some(t),
        s.enqueue(event, t).batch() == live(s.slots_at(t)).push(event),
        s.enqueue(event, t).after_batch().now == s.now,
{
    let after = s.enqueue(event, t);
    assert(after.is_soonest(t));
    lemma_soonest_is(after, t);
    assert(after.buckets[t].drop_last() =~= s.slots_at(t));
}

/// An event that is enqueued once a batch has left does not belong to that
/// batch, even at the same execute time: it opens a new bucket and waits
/// there for a later dispatch.
pub proof fn law_enqueue_after_batch_waits<E>(s: QueueState<E>, event: E)
    requires
        s.soonest() is Some,
    ensures
        ({
            let t = s.soonest()->0;
            let later = s.after_batch().enqueue(event, t);
            &&& later.buckets.contains_key(t)
            &&& later.buckets[t] == seq![Slot { handle: s.given, event: Some(event) }]
        }),
{
    let t = s.soonest()->0;
    let later = s.after_batch().enqueue(event, t);
    assert(later.buckets[t] =~= seq![Slot { handle: s.given, event: Some(event) }]);
}

/// Enqueuing keeps the handles in order.
proof fn lemma_enqueue_keeps_order<E>(s: QueueState<E>, event: E, t: u64)
    requires
        s.wf(),
    ensures
        s.enqueue(event, t).wf(),
{
    let e = s.enqueue(event, t);
    let fresh = s.slots_at(t).len() as int;
    assert forall|k: u64, i: int| e.buckets.contains_key(k) && 0 <= i < e.buckets[k].len() implies {
        let handle = (#[trigger] e.buckets[k][i]).handle;
        (handle < e.given || handle == usize::MAX) && ((k == t && i == fresh) || (
        s.buckets.contains_key(k) && i < s.buckets[k].len() && s.buckets[k][i] == e.buckets[k][i]))
    } by {}
    assert forall|k: u64, i: int, u: u64, j: int|
        e.buckets.contains_key(k) && 0 <= i < e.buckets[k].len() && e.buckets.contains_key(u) && 0
            <= j < e.buckets[u].len() && (#[trigger] e.buckets[k][i]).handle == (
        #[trigger] e.buckets[u][j]).handle && e.buckets[k][i].handle < usize::MAX implies k == u
        && i == j by {
        if k == t && i == fresh {
            if !(u == t && j == fresh) {
                assert(s.buckets[u][j].handle < s.given);
            }
        } else if u == t && j == fresh {
            assert(s.buckets[k][i].handle < s.given);
        } else {
            assert(s.buckets[k][i].handle == s.buckets[u][j].handle);
        }
    }
}

/// Cancelling keeps the handles in order.
proof fn lemma_cancel_keeps_order<E>(s: QueueState<E>, t: u64, id: usize)
    requires
        s.wf(),
    ensures
        s.cancel(t, id).wf(),
{
    let c = s.cancel(t, id);
    assert forall|k: u64, i: int| c.buckets.contains_key(k) && 0 <= i < c.buckets[k].len() implies
        s.buckets.contains_key(k) && i < s.buckets[k].len() && (#[trigger] c.buckets[k][i]).handle
            == s.buckets[k][i].handle by {}
    assert forall|k: u64, i: int, u: u64, j: int|
        c.buckets.contains_key(k) && 0 <= i < c.buckets[k].len() && c.buckets.contains_key(u) && 0
            <= j < c.buckets[u].len() && (#[trigger] c.buckets[k][i]).handle == (
        #[trigger] c.buckets[u][j]).handle && c.buckets[k][i].handle < usize::MAX implies k == u
        && i == j by {
        assert(s.buckets[k][i].handle == s.buckets[u][j].handle);
    }
}

/// A batch that leaves keeps the handles of the others in order.
proof fn lemma_batch_keeps_order<E>(s: QueueState<E>)
    requires
        s.wf(),
    ensures
        s.after_batch().wf(),
{
    let b = s.after_batch();
    assert forall|k: u64, i: int| b.buckets.contains_key(k) && 0 <= i < b.buckets[k].len() implies
        s.buckets.contains_key(k) && i < s.buckets[k].len() && (#[trigger] b.buckets[k][i])
            == s.buckets[k][i] by {}
    assert forall|k: u64, i: int, u: u64, j: int|
        b.buckets.contains_key(k) && 0 <= i < b.buckets[k].len() && b.buckets.contains_key(u) && 0
            <= j < b.buckets[u].len() && (#[trigger] b.buckets[k][i]).handle == (
        #[trigger] b.buckets[u][j]).handle && b.buckets[k][i].handle < usize::MAX implies k == u
        && i == j by {
        assert(s.buckets[k][i].handle == s.buckets[u][j].handle);
    }
}

/// Every state that the operations of a queue lead to keeps its handles
/// in order, if the state before did.
pub proof fn law_handles_stay_in_order<E>(
    s: QueueState<E>,
    until: u64,
    event: E,
    t: u64,
    id: usize,
)
    requires
        s.wf(),
    ensures
        s.enqueue(event, t).wf(),
        s.cancel(t, id).wf(),
        s.progress(until).wf(),
        s.settle(until).wf(),
        s.after_batch().wf(),
{
    lemma_enqueue_keeps_order(s, event, t);
    lemma_cancel_keeps_order(s, t, id);
    lemma_batch_keeps_order(s);
}

/// A handle below the last `usize` names one slot: cancelling by it
/// empties that slot and no other, and the batch of the bucket is then the
/// live events before that slot and those behind it.
pub proof fn law_handle_names_one_slot<E>(s: QueueState<E>, t: u64, i: int)
    requires
        s.wf(),
        s.buckets.contains_key(t),
        0 <= i < s.buckets[t].len(),
        s.buckets[t][i].handle < usize::MAX,
    ensures
        ({
            let id = s.buckets[t][i].handle;
            &&& s.cancel(t, id).buckets == s.buckets.insert(
                t,
                s.buckets[t].update(i, Slot { handle: id, event: None }),
            )
            &&& live(s.cancel(t, id).buckets[t]) == live(s.buckets[t].take(i)) + live(
                s.buckets[t].skip(i + 1),
            )
        }),
{
    let id = s.buckets[t][i].handle;
    let slots = s.buckets[t];
    assert forall|j: int| 0 <= j < slots.len() && j != i implies slots[j].handle != id by {
        if slots[j].handle == id {
            assert(s.buckets[t][j].handle == s.buckets[t][i].handle);
        }
    }
    assert(s.cancel(t, id).buckets[t] =~= slots.update(i, Slot { handle: id, event: None }));
    assert(s.cancel(t, id).buckets =~= s.buckets.insert(
        t,
        slots.update(i, Slot { handle: id, event: None }),
    ));
    law_cancelled_event_is_skipped(slots, i, id);
}

/// The handle that an enqueue returns is fresh: while the count of handles
/// has not stopped at the last `usize`, no slot of the queue carries it,
/// at no time, and the count moves past it, so that no later enqueue
/// returns it again.
pub proof fn law_handle_is_fresh<E>(s: QueueState<E>, event: E, t: u64, at: u64)
    requires
        s.wf(),
        s.given < usize::MAX,
    ensures
        !s.carries(at, s.given),
        s.enqueue(event, t).given > s.given,
        s.enqueue(event, t).carries(t, s.given),
{
    if s.carries(at, s.given) {
        let i = choose|i: int|
            0 <= i < s.slots_at(at).len() && #[trigger] s.slots_at(at)[i].handle == s.given;
        assert(s.buckets[at][i].handle < s.given);
    }
    let e = s.enqueue(event, t);
    assert(e.slots_at(t)[s.slots_at(t).len() as int].handle == s.given);
}

/// Cancelling by a handle that no slot of the bucket at that time carries
/// changes nothing.
pub proof fn law_cancel_of_no_slot<E>(s: QueueState<E>, t: u64, id: usize)
    requires
        !s.carries(t, id),
    ensures
        s.cancel(t, id) == s,
{
    lemma_cancel_of_no_slot(s, t, id);
}

/// Once a batch has left, the handles of its events are dead: every
/// handle below the last `usize` that a slot of the batch carried is
/// carried by no slot at that time any more.
pub proof fn law_batch_kills_handles<E>(s: QueueState<E>, id: usize)
    requires
        s.wf(),
        s.soonest() is Some,
        s.carries(s.soonest()->0, id),
        id < usize::MAX,
    ensures
        s.after_batch().dead(s.soonest()->0, id),
{
    let t = s.soonest()->0;
    let i = choose|i: int| 0 <= i < s.slots_at(t).len() && #[trigger] s.slots_at(t)[i].handle == id;
    assert(s.is_soonest(t)) by {
        if !s.is_soonest(t) {
            let c = choose|c: u64| s.is_soonest(c);
            assert(s.is_soonest(c));
        }
    }
    assert(s.buckets[t][i].handle == id);
}

/// A dead handle stays dead, whatever is done to the queue afterwards:
/// no enqueue gives it out again, at its time or at another, and nothing
/// else adds a slot.
pub proof fn law_dead_stays_dead<E>(
    s: QueueState<E>,
    t: u64,
    id: usize,
    event: E,
    at: u64,
    other: usize,
    until: u64,
)
    requires
        s.dead(t, id),
    ensures
        s.enqueue(event, at).dead(t, id),
        s.cancel(at, other).dead(t, id),
        s.progress(until).dead(t, id),
        s.settle(until).dead(t, id),
        s.after_batch().dead(t, id),
{
    let e = s.enqueue(event, at);
    if e.carries(t, id) {
        let i = choose|i: int| 0 <= i < e.slots_at(t).len() && #[trigger] e.slots_at(t)[i].handle == id;
        if at == t && i == s.slots_at(t).len() {
            assert(e.slots_at(t)[i].handle == s.given);
        } else {
            assert(s.slots_at(t)[i].handle == id);
        }
    }
    let c = s.cancel(at, other);
    if c.carries(t, id) {
        let i = choose|i: int| 0 <= i < c.slots_at(t).len() && #[trigger] c.slots_at(t)[i].handle == id;
        assert(s.slots_at(t)[i].handle == id);
    }
    let b = s.after_batch();
    if b.carries(t, id) {
        let i = choose|i: int| 0 <= i < b.slots_at(t).len() && #[trigger] b.slots_at(t)[i].handle == id;
        assert(s.slots_at(t)[i].handle == id);
    }
}

/// Cancelling an event that was already dispatched is a no-op, in every
/// later state: cancelling by a dead handle changes nothing.
pub proof fn law_cancel_of_dead_handle<E>(s: QueueState<E>, t: u64, id: usize)
    requires
        s.dead(t, id),
    ensures
        s.cancel(t, id) == s,
{
    lemma_cancel_of_no_slot(s, t, id);
}

/// A handle whose event was dispatched does not reach an event that is
/// enqueued at the same time afterwards: cancelling by it leaves the later
/// event live in its bucket.
pub proof fn law_stale_handle_spares_later_event<E>(s: QueueState<E>, id: usize, event: E)
    requires
        s.wf(),
        s.soonest() is Some,
        s.carries(s.soonest()->0, id),
        id < usize::MAX,
    ensures
        ({
            let t = s.soonest()->0;
            let later = s.after_batch().enqueue(event, t);
            &&& later.cancel(t, id) == later
            &&& later.buckets[t] == seq![Slot { handle: s.given, event: Some(event) }]
            &&& live(later.cancel(t, id).buckets[t]) == seq![event]
        }),
{
    let t = s.soonest()->0;
    let gone = s.after_batch();
    let later = gone.enqueue(event, t);
    law_batch_kills_handles(s, id);
    law_dead_stays_dead(gone, t, id, event, t, 0, 0);
    law_cancel_of_dead_handle(later, t, id);
    law_enqueue_after_batch_waits(s, event);
    assert(live(later.buckets[t]) =~= seq![event]) by {
        reveal_with_fuel(live, 2);
    }
}

/// A cancelled slot holds no event any more: the bucket keeps its length
/// and every slot its handle, the slots that carry the handle are empty,
/// and every other slot and every other bucket is as before.
pub proof fn law_cancel_empties_slot<E>(s: QueueState<E>, t: u64, id: usize)
    requires
        s.buckets.contains_key(t),
    ensures
        s.cancel(t, id).buckets[t].len() == s.buckets[t].len(),
        forall|j: int|
            0 <= j < s.buckets[t].len() ==> #[trigger] s.cancel(t, id).buckets[t][j] == emptied(
                s.buckets[t][j],
                id,
            ),
        forall|k: u64| k != t ==> s.cancel(t, id).slots_at(k) == s.slots_at(k),
{
}

/// The live events of two runs of slots, one behind the other, are the live
/// events of the first and then those of the second.
proof fn lemma_live_concat<E>(front: Seq<Slot<E>>, back: Seq<Slot<E>>)
    ensures
        live(front + back) == live(front) + live(back),
    decreases back.len(),
{
    if back.len() == 0 {
        assert(front + back =~= front);
        assert(live(front) + live(back) =~= live(front));
    } else {
        assert((front + back).drop_last() =~= front + back.drop_last());
        lemma_live_concat(front, back.drop_last());
        match back.last().event {
            Some(event) => {
                assert((live(front) + live(back.drop_last())).push(event) =~= live(front) + live(
                    back.drop_last(),
                ).push(event));
            },
            None => {},
        }
    }
}

/// A cancelled event does not run: where slot `i` is the one slot of a
/// bucket that carries the handle `id`, the batch of the bucket after the
/// cancellation is the live events before that slot and then those behind it.
pub proof fn law_cancelled_event_is_skipped<E>(slots: Seq<Slot<E>>, i: int, id: usize)
    requires
        0 <= i < slots.len(),
        slots[i].handle == id,
        forall|j: int| 0 <= j < slots.len() && j != i ==> slots[j].handle != id,
    ensures
        live(Seq::new(slots.len(), |j: int| emptied(slots[j], id))) == live(slots.take(i)) + live(
            slots.skip(i + 1),
        ),
{
    let hole: Seq<Slot<E>> = seq![Slot { handle: id, event: None }];
    let after = Seq::new(slots.len(), |j: int| emptied(slots[j], id));
    assert(after =~= slots.take(i) + hole + slots.skip(i + 1));
    lemma_live_concat(slots.take(i) + hole, slots.skip(i + 1));
    lemma_live_concat(slots.take(i), hole);
    assert(live(hole) =~= Seq::<E>::empty()) by {
        reveal_with_fuel(live, 2);
    }
    assert(live(slots.take(i)) + live(hole) =~= live(slots.take(i)));
}

/// Events of one execute time leave in the order in which they came: an
/// event that is enqueued later stands behind the earlier ones in the batch.
pub proof fn law_batch_is_fifo<E>(slots: Seq<Slot<E>>, event: E, handle: usize)
    ensures
        live(slots.push(Slot { handle, event: Some(event) })) == live(slots).push(event),
        live(slots.push(Slot { handle, event: None })) == live(slots),
{
    assert(slots.push(Slot { handle, event: Some(event) }).drop_last() =~= slots);
    assert(slots.push(Slot { handle, event: None }).drop_last() =~= slots);
}

/// No event of type `E` moves the clock of the game's queue backward.
pub open spec fn events_keep_time<G: HasQueue<E>, E: GeneralEvent<G>>() -> bool {
    forall|event: E, before: G, after: G| #[trigger]
        event.effect(before, after) ==> after.queue()@.now >= before.queue()@.now
}

/// Where no event moves the clock backward, a run of events does not either.
proof fn lemma_runs_keep_time<G: HasQueue<E>, E: GeneralEvent<G>>(
    events: Seq<E>,
    before: G,
    after: G,
)
    requires
        events_keep_time::<G, E>(),
        runs(events, before, after),
    ensures
        after.queue()@.now >= before.queue()@.now,
    decreases events.len(),
{
    if events.len() > 0 {
        let mid = choose|mid: G|
            runs(events.drop_last(), before, mid) && #[trigger] events.last().effect(mid, after);
        lemma_runs_keep_time(events.drop_last(), before, mid);
    }
}

/// Where no event moves the clock backward, the dispatch of a batch leaves
/// the clock at the time of the batch or later, and never earlier than it
/// was.
pub proof fn law_dispatch_advances_clock<G: HasQueue<E>, E: GeneralEvent<G>>(before: G, after: G)
    requires
        embeds_queue::<G, E>(),
        events_keep_time::<G, E>(),
        dispatched(before, after),
    ensures
        after.queue()@.now >= before.queue()@.now,
        before.queue()@.soonest() matches Some(t) ==> after.queue()@.now >= t,
{
    let q = choose|q: EventQueue<E>|
        q@ == before.queue()@.after_batch() && #[trigger] runs(
            before.queue()@.batch(),
            before.with_queue(q),
            after,
        );
    lemma_runs_keep_time(before.queue()@.batch(), before.with_queue(q), after);
}

/// A dispatch on an empty queue leaves the queue as it was.
pub proof fn law_dispatch_of_nothing<G: HasQueue<E>, E: GeneralEvent<G>>(before: G, after: G)
    requires
        embeds_queue::<G, E>(),
        before.queue()@.soonest() is None,
        dispatched(before, after),
    ensures
        after.queue()@ == before.queue()@,
{
}

/// After `simulate(until)` the clock stands at `until` or later.
pub proof fn law_simulate_reaches<G: HasQueue<E>, E: GeneralEvent<G>>(
    before: G,
    after: G,
    until: u64,
)
    requires
        embeds_queue::<G, E>(),
        simulated(before, after, until),
    ensures
        after.queue()@.now >= until,
{
}

/// A bare queue keeps to the contract of a game that embeds a queue.
pub proof fn law_queue_embeds_itself<E: GeneralEvent<EventQueue<E>>>()
    ensures
        embeds_queue::<EventQueue<E>, E>(),
{
}

} // verus!
