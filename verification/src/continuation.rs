//! The bridge from one completion callback to one awaiting consumer.
//!
//! A [`Continuation`] carries at most one result from the transport, which may
//! deliver it at any moment, to the one consumer that waits for it. It also
//! keeps the handle by which the operation in flight can be cancelled: when the
//! consumer gives up before a result has come, the handle is handed back for
//! cancellation, once. Every operation here is one indivisible step; whoever
//! shares a continuation between threads makes each step under a lock.

use vstd::prelude::*;

verus! {

/// What is to be done with the handle of a native operation.
#[derive(Debug, PartialEq, Eq)]
pub enum Disposal<H> {
    /// No handle is let go of.
    Nothing,
    /// The operation is still in flight and nobody waits for it: cancel it.
    Cancel(H),
    /// The operation has completed: let the handle go without cancelling.
    Release(H),
}

/// What became of a delivery.
#[derive(Debug, PartialEq, Eq, Clone, Copy)]
pub enum Delivery {
    /// The result was stored: the consumer is to be woken.
    Resolved,
    /// The result was dropped: one had come before, or nobody waits any more.
    Discarded,
}

/// The cell that holds the result on its way to the consumer.
#[derive(Debug, PartialEq, Eq)]
pub enum Slot<T, E> {
    /// No result has come.
    Unset,
    /// The result has come and waits to be taken.
    Resolved(Result<T, E>),
    /// The result has come and has left the cell.
    Taken,
}

/// Owner of the handle of a native operation in flight.
///
/// It lets go of the handle once, for cancellation or for release, and holds
/// nothing after that.
#[derive(Debug)]
pub struct CancelGuard<H> {
    handle: Option<H>,
}

/// What to do with a handle that is let go of: cancel the operation unless a
/// result has come from it.
pub open spec fn disposal_of<H>(completed: bool, handle: Option<H>) -> Disposal<H> {
    match handle {
        None => Disposal::Nothing,
        Some(h) => if completed {
            Disposal::Release(h)
        } else {
            Disposal::Cancel(h)
        },
    }
}

impl<H> View for CancelGuard<H> {
    type V = Option<H>;

    closed spec fn view(&self) -> Option<H> {
        self.handle
    }
}

impl<H> CancelGuard<H> {
    /// A guard that owns `handle`.
    pub fn new(handle: H) -> (guard: Self)
        ensures
            guard@ == Some(handle),
    {
        CancelGuard { handle: Some(handle) }
    }

    /// A guard that owns nothing.
    pub fn unarmed() -> (guard: Self)
        ensures
            guard@ == None::<H>,
    {
        CancelGuard { handle: None }
    }

    /// Whether the guard still owns its handle.
    pub fn is_armed(&self) -> (armed: bool)
        ensures
            armed == self@.is_some(),
    {
        self.handle.is_some()
    }

    /// Lets go of the handle: for release where the operation has `completed`,
    /// for cancellation where it has not. The guard owns nothing afterwards.
    pub fn release(&mut self, completed: bool) -> (disposal: Disposal<H>)
        ensures
            disposal == disposal_of(completed, old(self)@),
            final(self)@ == None::<H>,
    {
        match self.handle.take() {
            None => Disposal::Nothing,
            Some(handle) => if completed {
                Disposal::Release(handle)
            } else {
                Disposal::Cancel(handle)
            },
        }
    }
}

/// The state of a continuation.
pub struct State<T, E, H> {
    /// The result, as far as it has come.
    pub slot: Slot<T, E>,
    /// The handle of the operation in flight, while the continuation owns it.
    pub handle: Option<H>,
    /// Whether the consumer has given up or gone.
    pub abandoned: bool,
}

impl<T, E, H> State<T, E, H> {
    /// Whether a result has come, taken or not.
    pub open spec fn is_resolved(self) -> bool {
        !(self.slot is Unset)
    }

    /// What holds of every continuation: once the consumer has gone, neither a
    /// handle nor a waiting result is kept.
    pub open spec fn wf(self) -> bool {
        self.abandoned ==> self.handle is None && !(self.slot is Resolved)
    }
}

/// The state a continuation begins in.
pub open spec fn fresh<T, E, H>() -> State<T, E, H> {
    State { slot: Slot::Unset, handle: None, abandoned: false }
}

/// A handle is offered. While the consumer waits it is kept, and one kept
/// before is let go of; once the consumer has gone the handle offered is itself
/// let go of.
pub open spec fn after_accept<T, E, H>(s: State<T, E, H>, handle: H) -> (State<T, E, H>, Disposal<H>) {
    if s.abandoned {
        (s, disposal_of(s.is_resolved(), Some(handle)))
    } else {
        (State { handle: Some(handle), ..s }, disposal_of(s.is_resolved(), s.handle))
    }
}

/// A result is delivered. It is stored where none has come and the consumer
/// still waits, and dropped otherwise.
pub open spec fn after_complete<T, E, H>(s: State<T, E, H>, result: Result<T, E>) -> (
    State<T, E, H>,
    Delivery,
) {
    if s.slot is Unset && !s.abandoned {
        (State { slot: Slot::Resolved(result), ..s }, Delivery::Resolved)
    } else {
        (s, Delivery::Discarded)
    }
}

/// The consumer asks for the result. It leaves the cell where it waits there.
pub open spec fn after_poll<T, E, H>(s: State<T, E, H>) -> (State<T, E, H>, Option<Result<T, E>>) {
    match s.slot {
        Slot::Resolved(result) => (State { slot: Slot::Taken, ..s }, Some(result)),
        _ => (s, None),
    }
}

/// The consumer gives up or goes. The handle is let go of, and a result that
/// waits is dropped. Nothing happens where the consumer had gone before.
pub open spec fn after_abandon<T, E, H>(s: State<T, E, H>) -> (State<T, E, H>, Disposal<H>) {
    if s.abandoned {
        (s, Disposal::Nothing)
    } else {
        (
            State {
                slot: if s.slot is Unset {
                    Slot::Unset
                } else {
                    Slot::Taken
                },
                handle: None,
                abandoned: true,
            },
            disposal_of(s.is_resolved(), s.handle),
        )
    }
}

/// One thing that can happen to a continuation.
pub enum Event<T, E, H> {
    /// A handle is offered.
    Accept(H),
    /// A result is delivered.
    Complete(Result<T, E>),
    /// The consumer asks for the result.
    Poll,
    /// The consumer gives up or goes.
    Abandon,
}

/// What a continuation answers to an event.
pub enum Effect<T, E, H> {
    /// What is to be done with a handle.
    Disposed(Disposal<H>),
    /// What became of a delivery.
    Delivered(Delivery),
    /// What the consumer is handed.
    Polled(Option<Result<T, E>>),
}

impl<T, E, H> Effect<T, E, H> {
    /// Whether the effect asks for a cancellation.
    pub open spec fn cancels(self) -> bool {
        self matches Effect::Disposed(Disposal::Cancel(_))
    }

    /// Whether the effect stores a result.
    pub open spec fn resolves(self) -> bool {
        self == Effect::<T, E, H>::Delivered(Delivery::Resolved)
    }

    /// Whether the effect hands a result to the consumer.
    pub open spec fn yields(self) -> bool {
        self matches Effect::Polled(Some(_))
    }
}

/// One step of a continuation: the state after `event`, and the answer to it.
pub open spec fn step<T, E, H>(s: State<T, E, H>, event: Event<T, E, H>) -> (
    State<T, E, H>,
    Effect<T, E, H>,
) {
    match event {
        Event::Accept(handle) => (
            after_accept(s, handle).0,
            Effect::Disposed(after_accept(s, handle).1),
        ),
        Event::Complete(result) => (
            after_complete(s, result).0,
            Effect::Delivered(after_complete(s, result).1),
        ),
        Event::Poll => (after_poll(s).0, Effect::Polled(after_poll(s).1)),
        Event::Abandon => (after_abandon(s).0, Effect::Disposed(after_abandon(s).1)),
    }
}

/// The state after all of `events` have happened, in order, from state `s`.
pub open spec fn run<T, E, H>(s: State<T, E, H>, events: Seq<Event<T, E, H>>) -> State<T, E, H>
    decreases events.len(),
{
    if events.len() == 0 {
        s
    } else {
        step(run(s, events.drop_last()), events.last()).0
    }
}

/// The answer to the event at place `i` of `events`, which begin in state `s`.
pub open spec fn effect_at<T, E, H>(s: State<T, E, H>, events: Seq<Event<T, E, H>>, i: int) -> Effect<
    T,
    E,
    H,
> {
    step(run(s, events.take(i)), events[i]).1
}

/// Running one event more is one step from where the run had come.
pub proof fn lemma_run_extends<T, E, H>(s: State<T, E, H>, events: Seq<Event<T, E, H>>, i: int)
    requires
        0 <= i < events.len(),
    ensures
        run(s, events.take(i + 1)) == step(run(s, events.take(i)), events[i]).0,
{
    assert(events.take(i + 1).drop_last() =~= events.take(i));
    assert(events.take(i + 1).last() == events[i]);
}

/// A result that has come stays: once resolved, a continuation is resolved after
/// whatever happens next.
pub proof fn lemma_resolved_stays<T, E, H>(
    s: State<T, E, H>,
    events: Seq<Event<T, E, H>>,
    i: int,
    j: int,
)
    requires
        0 <= i <= j <= events.len(),
        run(s, events.take(i)).is_resolved(),
    ensures
        run(s, events.take(j)).is_resolved(),
    decreases j - i,
{
    if i < j {
        lemma_resolved_stays(s, events, i, j - 1);
        lemma_run_extends(s, events, j - 1);
    }
}

/// A result that has left the cell does not come back into it.
pub proof fn lemma_taken_stays<T, E, H>(
    s: State<T, E, H>,
    events: Seq<Event<T, E, H>>,
    i: int,
    j: int,
)
    requires
        0 <= i <= j <= events.len(),
        run(s, events.take(i)).slot is Taken,
    ensures
        run(s, events.take(j)).slot is Taken,
    decreases j - i,
{
    if i < j {
        lemma_taken_stays(s, events, i, j - 1);
        lemma_run_extends(s, events, j - 1);
    }
}

/// A continuation whose consumer has gone keeps no handle and no result, whatever
/// happens next.
pub proof fn lemma_abandoned_stays<T, E, H>(
    s: State<T, E, H>,
    events: Seq<Event<T, E, H>>,
    i: int,
    j: int,
)
    requires
        0 <= i <= j <= events.len(),
        run(s, events.take(i)).abandoned,
        run(s, events.take(i)).handle is None,
        !(run(s, events.take(i)).slot is Resolved),
    ensures
        run(s, events.take(j)) == run(s, events.take(i)),
    decreases j - i,
{
    if i < j {
        lemma_abandoned_stays(s, events, i, j - 1);
        lemma_run_extends(s, events, j - 1);
    }
}

/// Single resolution: of all the deliveries made to a continuation, in whatever
/// state it began, at most one is stored. Every later one is discarded.
pub proof fn lemma_resolves_at_most_once<T, E, H>(
    s: State<T, E, H>,
    events: Seq<Event<T, E, H>>,
    i: int,
    j: int,
)
    requires
        0 <= i < j < events.len(),
        effect_at(s, events, i).resolves(),
    ensures
        !effect_at(s, events, j).resolves(),
        events[j] is Complete ==> effect_at(s, events, j) == Effect::<T, E, H>::Delivered(
            Delivery::Discarded,
        ),
{
    lemma_run_extends(s, events, i);
    lemma_resolved_stays(s, events, i + 1, j);
}

/// A delivery to a continuation that is resolved already is discarded and
/// changes nothing.
pub proof fn lemma_late_delivery_is_discarded<T, E, H>(s: State<T, E, H>, result: Result<T, E>)
    requires
        s.is_resolved(),
    ensures
        after_complete(s, result) == (s, Delivery::Discarded),
{
}

/// The consumer is handed a result at most once.
pub proof fn lemma_yields_at_most_once<T, E, H>(
    s: State<T, E, H>,
    events: Seq<Event<T, E, H>>,
    i: int,
    j: int,
)
    requires
        0 <= i < j < events.len(),
        effect_at(s, events, i).yields(),
    ensures
        !effect_at(s, events, j).yields(),
{
    lemma_run_extends(s, events, i);
    lemma_taken_stays(s, events, i + 1, j);
}

/// A continuation that waits hands out nothing; right after a delivery it hands
/// out what was delivered.
pub proof fn lemma_poll_yields_the_delivery<T, E, H>(s: State<T, E, H>, result: Result<T, E>)
    requires
        !s.is_resolved(),
        !s.abandoned,
    ensures
        after_poll(s).1 == None::<Result<T, E>>,
        after_poll(after_complete(s, result).0).1 == Some(result),
{
}

/// A result that waits in the cell after `k` events was delivered by one of them,
/// and stored then. The place of that event is returned.
pub proof fn lemma_stored_result_was_delivered<T, E, H>(
    s: State<T, E, H>,
    events: Seq<Event<T, E, H>>,
    k: int,
    result: Result<T, E>,
) -> (i: int)
    requires
        s.slot is Unset,
        0 <= k <= events.len(),
        run(s, events.take(k)).slot == Slot::Resolved(result),
    ensures
        0 <= i < k,
        events[i] == Event::<T, E, H>::Complete(result),
        effect_at(s, events, i).resolves(),
    decreases k,
{
    if k == 0 {
        assert(events.take(0) =~= Seq::<Event<T, E, H>>::empty());
        assert(false);
        0
    } else {
        lemma_run_extends(s, events, k - 1);
        let before = run(s, events.take(k - 1));
        if before.slot == Slot::Resolved(result) {
            lemma_stored_result_was_delivered(s, events, k - 1, result)
        } else {
            k - 1
        }
    }
}

/// What the consumer is handed is what the transport delivered: a result that
/// is handed out was delivered by an earlier event, and stored then. The place
/// of that event is returned.
pub proof fn lemma_yield_was_delivered<T, E, H>(
    s: State<T, E, H>,
    events: Seq<Event<T, E, H>>,
    j: int,
    result: Result<T, E>,
) -> (i: int)
    requires
        s.slot is Unset,
        0 <= j < events.len(),
        effect_at(s, events, j) == Effect::<T, E, H>::Polled(Some(result)),
    ensures
        0 <= i < j,
        events[i] == Event::<T, E, H>::Complete(result),
        effect_at(s, events, i).resolves(),
{
    lemma_stored_result_was_delivered(s, events, j, result)
}

/// Giving up on a continuation that waits for its result asks for the
/// cancellation of the operation it holds the handle of; giving up on one whose
/// result has come asks for none.
pub proof fn lemma_abandon_cancels<T, E, H>(s: State<T, E, H>, handle: H)
    requires
        !s.abandoned,
        s.handle == Some(handle),
    ensures
        !s.is_resolved() ==> after_abandon(s).1 == Disposal::Cancel(handle),
        s.is_resolved() ==> after_abandon(s).1 == Disposal::Release(handle),
{
}

/// Cancellation is asked for once. After the consumer has given up, nothing that
/// happens changes the continuation: no later step asks for a cancellation,
/// stores a result or hands one out. The one exception is a handle offered
/// afterwards, which is handed straight back.
pub proof fn lemma_nothing_follows_abandon<T, E, H>(
    s: State<T, E, H>,
    later: Seq<Event<T, E, H>>,
    i: int,
)
    requires
        s.wf(),
        0 <= i < later.len(),
    ensures
        run(after_abandon(s).0, later.take(i)) == after_abandon(s).0,
        effect_at(after_abandon(s).0, later, i) == match later[i] {
            Event::Accept(handle) => Effect::<T, E, H>::Disposed(
                disposal_of(s.is_resolved(), Some(handle)),
            ),
            Event::Complete(_) => Effect::Delivered(Delivery::Discarded),
            Event::Poll => Effect::Polled(None),
            Event::Abandon => Effect::Disposed(Disposal::Nothing),
        },
{
    let gone = after_abandon(s).0;
    assert(later.take(0) =~= Seq::<Event<T, E, H>>::empty());
    assert(run(gone, later.take(0)) == gone);
    lemma_abandoned_stays(gone, later, 0, i);
}

/// Giving up asks for a cancellation at most once: whatever happens in between,
/// giving up a second time asks for nothing.
pub proof fn lemma_second_abandon_asks_nothing<T, E, H>(
    s: State<T, E, H>,
    events: Seq<Event<T, E, H>>,
    i: int,
    j: int,
)
    requires
        s.wf(),
        0 <= i < j < events.len(),
        events[i] is Abandon,
        events[j] is Abandon,
    ensures
        effect_at(s, events, j) == Effect::<T, E, H>::Disposed(Disposal::Nothing),
{
    lemma_run_keeps_wf(s, events.take(i));
    lemma_run_extends(s, events, i);
    lemma_abandoned_stays(s, events, i + 1, j);
}

/// A handle that a continuation holds after `k` events of a run from the fresh
/// state was offered by one of them. The place of that event is returned.
pub proof fn lemma_held_handle_was_offered<T, E, H>(events: Seq<Event<T, E, H>>, k: int) -> (a:
    int)
    requires
        0 <= k <= events.len(),
        run(fresh::<T, E, H>(), events.take(k)).handle is Some,
    ensures
        0 <= a < k,
        events[a] is Accept,
    decreases k,
{
    if k == 0 {
        assert(events.take(0) =~= Seq::<Event<T, E, H>>::empty());
        assert(false);
        0
    } else {
        lemma_run_extends(fresh::<T, E, H>(), events, k - 1);
        if events[k - 1] is Accept {
            k - 1
        } else {
            lemma_held_handle_was_offered(events, k - 1)
        }
    }
}

/// At most one step of a run cancels, where at most one handle is offered in
/// it: the operation behind a continuation is cancelled once or not at all.
pub proof fn lemma_cancels_at_most_once<T, E, H>(events: Seq<Event<T, E, H>>, i: int, j: int)
    requires
        0 <= i < j < events.len(),
        forall|a: int, b: int|
            #![trigger events[a], events[b]]
            0 <= a < b < events.len() ==> !(events[a] is Accept && events[b] is Accept),
        effect_at(fresh::<T, E, H>(), events, i).cancels(),
    ensures
        !effect_at(fresh::<T, E, H>(), events, j).cancels(),
{
    let s = fresh::<T, E, H>();
    lemma_run_keeps_wf(s, events.take(i));
    lemma_run_extends(s, events, i);
    let before = run(s, events.take(i));
    if before.abandoned {
        // the step answers a handle offered after the consumer had gone
        assert(events[i] is Accept);
    } else {
        // the step lets go of a handle that was offered before
        let offered = lemma_held_handle_was_offered(events, i);
        assert(events[offered] is Accept);
        assert(!(events[i] is Accept));
    }
    lemma_abandoned_stays(s, events, i + 1, j);
    if effect_at(s, events, j).cancels() {
        assert(events[j] is Accept);
    }
}

/// Every run keeps a continuation well formed.
pub proof fn lemma_run_keeps_wf<T, E, H>(s: State<T, E, H>, events: Seq<Event<T, E, H>>)
    requires
        s.wf(),
    ensures
        run(s, events).wf(),
    decreases events.len(),
{
    if events.len() > 0 {
        lemma_run_keeps_wf(s, events.drop_last());
    }
}

/// The bridge from one completion callback to one awaiting consumer.
#[derive(Debug)]
pub struct Continuation<T, E, H> {
    slot: Slot<T, E>,
    guard: CancelGuard<H>,
    abandoned: bool,
}

impl<T, E, H> View for Continuation<T, E, H> {
    type V = State<T, E, H>;

    closed spec fn view(&self) -> State<T, E, H> {
        State { slot: self.slot, handle: self.guard@, abandoned: self.abandoned }
    }
}

impl<T, E, H> Continuation<T, E, H> {
    #[verifier::type_invariant]
    spec fn inv(self) -> bool {
        self@.wf()
    }

    /// A continuation to which nothing has happened.
    pub fn new() -> (continuation: Self)
        ensures
            continuation@ == fresh::<T, E, H>(),
    {
        Continuation { slot: Slot::Unset, guard: CancelGuard::unarmed(), abandoned: false }
    }

    /// Whether a result has come.
    pub fn is_resolved(&self) -> (resolved: bool)
        ensures
            resolved == self@.is_resolved(),
            self@.wf(),
    {
        proof {
            use_type_invariant(self);
        }
        match self.slot {
            Slot::Unset => false,
            _ => true,
        }
    }

    /// Whether the consumer has given up or gone.
    pub fn is_abandoned(&self) -> (abandoned: bool)
        ensures
            abandoned == self@.abandoned,
            self@.wf(),
    {
        proof {
            use_type_invariant(self);
        }
        self.abandoned
    }

    /// Takes over the handle of the operation in flight.
    ///
    /// Returns what is to be done with the handle that is let go of in
    /// exchange, if any.
    pub fn accept(&mut self, handle: H) -> (disposal: Disposal<H>)
        ensures
            (final(self)@, disposal) == after_accept(old(self)@, handle),
            final(self)@.wf(),
    {
        proof {
            use_type_invariant(&*self);
        }
        let completed = self.is_resolved();
        if self.abandoned {
            let mut offered = CancelGuard::new(handle);
            offered.release(completed)
        } else {
            let mut guard = CancelGuard::new(handle);
            core::mem::swap(&mut self.guard, &mut guard);
            guard.release(completed)
        }
    }

    /// Delivers the result of the operation.
    pub fn complete(&mut self, result: Result<T, E>) -> (delivery: Delivery)
        ensures
            (final(self)@, delivery) == after_complete(old(self)@, result),
            final(self)@.wf(),
    {
        proof {
            use_type_invariant(&*self);
        }
        if !self.is_resolved() && !self.abandoned {
            self.slot = Slot::Resolved(result);
            Delivery::Resolved
        } else {
            Delivery::Discarded
        }
    }

    /// Hands the result to the consumer where it has come and was not handed
    /// over before; `None` tells the consumer to go on waiting.
    pub fn poll(&mut self) -> (ready: Option<Result<T, E>>)
        ensures
            (final(self)@, ready) == after_poll(old(self)@),
            final(self)@.wf(),
    {
        proof {
            use_type_invariant(&*self);
        }
        let mut slot = Slot::Taken;
        core::mem::swap(&mut self.slot, &mut slot);
        match slot {
            Slot::Resolved(result) => Some(result),
            other => {
                self.slot = other;
                None
            },
        }
    }

    /// Records that the consumer has given up or gone.
    ///
    /// Returns what is to be done with the handle: it is to be cancelled where
    /// no result has come.
    pub fn abandon(&mut self) -> (disposal: Disposal<H>)
        ensures
            (final(self)@, disposal) == after_abandon(old(self)@),
            final(self)@.wf(),
    {
        proof {
            use_type_invariant(&*self);
        }
        if self.abandoned {
            Disposal::Nothing
        } else {
            let completed = self.is_resolved();
            let mut guard = CancelGuard::unarmed();
            core::mem::swap(&mut self.guard, &mut guard);
            if completed {
                self.slot = Slot::Taken;
            }
            self.abandoned = true;
            guard.release(completed)
        }
    }
}

} // verus!
