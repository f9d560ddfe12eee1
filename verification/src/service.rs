//! One session's service: its construction, its readiness, its routing.

use vstd::prelude::*;
use actix_router::Router;
use std::rc::Rc;
use crate::matcher::{
    all_admitted, indexed, literal_by_equality, recognize, route, router_table, share, Entry,
};
use crate::poll::Async;
use crate::ready::{round_start, round_step, start_round, step_round, ReadyRound, ReadyStep};

verus! {

/// `n` slots, none of them filled.
fn empty_slots<H>(n: usize) -> (slots: Vec<Option<H>>)
    ensures
        slots@ == nothing_built::<H>(n as nat),
{
    let mut slots: Vec<Option<H>> = Vec::new();
    let mut i: usize = 0;
    while i < n
        invariant
            i <= n,
            slots@ == Seq::new(i as nat, |k: int| None::<H>),
        decreases n - i,
    {
        slots.push(None);
        i += 1;
        assert(slots@ =~= Seq::new(i as nat, |k: int| None::<H>));
    }
    slots
}

/// All slots empty: nothing is built.
pub open spec fn nothing_built<H>(n: nat) -> Seq<Option<H>> {
    Seq::new(n, |i: int| None::<H>)
}

/// Every slot is filled.
pub open spec fn all_built<H>(slots: Seq<Option<H>>) -> bool {
    forall|i: int| 0 <= i < slots.len() ==> (#[trigger] slots[i]) is Some
}

/// The construction is over and has handed out, or will hand out, a service:
/// nothing failed and every slot is filled.
pub open spec fn serves<H>(failed: bool, slots: Seq<Option<H>>) -> bool {
    !failed && all_built(slots)
}

/// Whether a construction has failed after `reports`, each the index of a
/// factory with what its construction reported, taken in order.
pub open spec fn failed_after<H, E>(failed: bool, reports: Seq<(int, Result<Async<H>, E>)>) -> bool
    decreases reports.len(),
{
    if reports.len() == 0 {
        failed
    } else {
        failed_after(failed, reports.drop_last()) || reports.last().1 is Err
    }
}

/// A failure is final: after reports of which one is an error the
/// construction has failed, whatever was reported before and after it, and
/// so serves nothing, whatever its slots hold.
pub proof fn law_failure_is_final<H, E>(
    failed: bool,
    reports: Seq<(int, Result<Async<H>, E>)>,
    k: int,
    slots: Seq<Option<H>>,
)
    requires
        0 <= k < reports.len(),
        reports[k].1 is Err,
    ensures
        failed_after(failed, reports),
        !serves(failed_after(failed, reports), slots),
    decreases reports.len(),
{
    if k < reports.len() - 1 {
        assert(reports.drop_last()[k] == reports[k]);
        law_failure_is_final(failed, reports.drop_last(), k, slots);
    }
}

/// The slots after the construction started with factory `idx` reported
/// `outcome`. After a failure nothing changes any more. Before one, a handler
/// fills its slot if that slot is awaited, a failure empties all slots, and
/// anything else changes nothing.
pub open spec fn settled<H, E>(
    failed: bool,
    slots: Seq<Option<H>>,
    idx: int,
    outcome: Result<Async<H>, E>,
) -> Seq<Option<H>> {
    if failed {
        slots
    } else {
        settled_live(slots, idx, outcome)
    }
}

/// The slots of a construction that has not failed, after the construction
/// started with factory `idx` reported `outcome`.
pub open spec fn settled_live<H, E>(slots: Seq<Option<H>>, idx: int, outcome: Result<Async<H>, E>) -> Seq<
    Option<H>,
> {
    match outcome {
        Ok(Async::Ready(handler)) => if 0 <= idx < slots.len() && slots[idx] is None {
            slots.update(idx, Some(handler))
        } else {
            slots
        },
        Ok(Async::NotReady) => slots,
        Err(_) => nothing_built(slots.len()),
    }
}

/// The slots after the first `k` factories, in order, each reported the
/// handler it built.
pub open spec fn settled_upto<H, E>(handlers: Seq<H>, k: int) -> Seq<Option<H>>
    decreases k,
{
    if k <= 0 {
        nothing_built(handlers.len())
    } else {
        settled(
            false,
            settled_upto::<H, E>(handlers, k - 1),
            k - 1,
            Ok::<Async<H>, E>(Async::Ready(handlers[k - 1])),
        )
    }
}

/// Where every factory builds its handler, the construction is complete and
/// slot `i` holds the handler built by factory `i`.
pub proof fn law_all_succeed<H, E>(handlers: Seq<H>)
    ensures
        all_built(settled_upto::<H, E>(handlers, handlers.len() as int)),
        settled_upto::<H, E>(handlers, handlers.len() as int) == handlers.map_values(
            |h: H| Some(h),
        ),
{
    lemma_settled_upto::<H, E>(handlers, handlers.len() as int);
    assert(settled_upto::<H, E>(handlers, handlers.len() as int) =~= handlers.map_values(
        |h: H| Some(h),
    ));
}

/// After the first `k` factories reported their handlers, the first `k`
/// slots hold them and the others are awaited.
proof fn lemma_settled_upto<H, E>(handlers: Seq<H>, k: int)
    requires
        0 <= k <= handlers.len(),
    ensures
        settled_upto::<H, E>(handlers, k) == Seq::new(
            handlers.len(),
            |i: int|
                if i < k {
                    Some(handlers[i])
                } else {
                    None
                },
        ),
    decreases k,
{
    let target = Seq::new(
        handlers.len(),
        |i: int|
            if i < k {
                Some(handlers[i])
            } else {
                None
            },
    );
    if k > 0 {
        lemma_settled_upto::<H, E>(handlers, k - 1);
    }
    assert(settled_upto::<H, E>(handlers, k) =~= target);
}

/// A failure leaves a construction that awaits handlers without any handler,
/// so that it is not complete: the session gets no service.
pub proof fn law_failure_builds_nothing<H, E>(slots: Seq<Option<H>>, idx: int, e: E)
    requires
        slots.len() > 0,
    ensures
        !all_built(settled(false, slots, idx, Err::<Async<H>, E>(e))),
{
    let after = settled(false, slots, idx, Err::<Async<H>, E>(e));
    assert(after[0] is None);
}

/// A construction becomes complete only by a handler that was built: by the
/// report of a handler for the one slot that was still awaited.
pub proof fn law_complete_only_by_success<H, E>(
    slots: Seq<Option<H>>,
    idx: int,
    outcome: Result<Async<H>, E>,
)
    requires
        !all_built(slots),
        all_built(settled(false, slots, idx, outcome)),
    ensures
        outcome is Ok,
        outcome->Ok_0 is Ready,
        0 <= idx < slots.len(),
        slots[idx] is None,
        forall|i: int| 0 <= i < slots.len() && i != idx ==> (#[trigger] slots[i]) is Some,
{
    let after = settled(false, slots, idx, outcome);
    let missing = choose|i: int| 0 <= i < slots.len() && !((#[trigger] slots[i]) is Some);
    assert(after[missing] is Some);
    assert forall|i: int| 0 <= i < slots.len() && i != idx implies (#[trigger] slots[i]) is Some by {
        assert(after[i] is Some);
    }
}

/// The construction of one session's service, while handlers are still being
/// built. Slot `i` holds the handler built by factory `i` once that one is
/// there.
pub struct AppFactoryFut<H, D> {
    router: Rc<Router<usize, ()>>,
    handlers: Vec<Option<H>>,
    not_found: Rc<D>,
    failed: bool,
}

impl<H, D> AppFactoryFut<H, D> {
    /// The pattern table, oldest registration first.
    pub closed spec fn table(&self) -> Seq<Entry> {
        router_table(*self.router)
    }

    /// The handlers built so far, each at the index of its factory.
    pub closed spec fn slots(&self) -> Seq<Option<H>> {
        self.handlers@
    }

    /// The handler of messages that no pattern matches.
    pub closed spec fn default_handler(&self) -> D {
        *self.not_found
    }

    /// There is one slot for each pattern, and each pattern is registered and
    /// stands at the index of its slot.
    pub open spec fn wf(&self) -> bool {
        &&& self.table().len() == self.slots().len()
        &&& indexed(self.table())
        &&& all_admitted(self.table())
    }

    /// Whether a construction has reported a failure.
    pub closed spec fn failed(&self) -> bool {
        self.failed
    }

    /// Every handler is there.
    pub open spec fn complete(&self) -> bool {
        all_built(self.slots())
    }

    /// Whether a construction has reported a failure, after which the
    /// session gets no service.
    pub fn has_failed(&self) -> (r: bool)
        ensures
            r == self.failed(),
    {
        self.failed
    }

    /// Whether the handler of factory `idx` is still awaited.
    pub fn is_pending(&self, idx: usize) -> (r: bool)
        ensures
            r == (idx < self.slots().len() && self.slots()[idx as int] is None),
    {
        idx < self.handlers.len() && self.handlers[idx].is_none()
    }

    /// Whether every handler is there.
    pub fn is_complete(&self) -> (r: bool)
        ensures
            r == self.complete(),
    {
        let n: usize = self.handlers.len();
        let mut i: usize = 0;
        while i < n
            invariant
                n == self.handlers@.len(),
                i <= n,
                forall|k: int| 0 <= k < i ==> (#[trigger] self.handlers@[k]) is Some,
            decreases n - i,
        {
            if self.handlers[i].is_none() {
                return false;
            }
            i += 1;
        }
        true
    }

    /// Takes what the construction started with factory `idx` reported.
    ///
    /// A handler that is there fills its slot, if that slot is still awaited;
    /// a construction that is not finished changes nothing. A failure is
    /// handed back as it came, and the handlers built so far are dropped: the
    /// session gets no service, whatever is reported afterwards.
    pub fn settle<E>(&mut self, idx: usize, outcome: Result<Async<H>, E>) -> (r: Result<(), E>)
        requires
            old(self).wf(),
        ensures
            final(self).wf(),
            final(self).table() == old(self).table(),
            final(self).default_handler() == old(self).default_handler(),
            final(self).failed() == (old(self).failed() || outcome is Err),
            final(self).slots() == settled(
                old(self).failed(),
                old(self).slots(),
                idx as int,
                outcome,
            ),
            match outcome {
                Ok(_) => r == Ok::<(), E>(()),
                Err(e) => r == Err::<(), E>(e),
            },
    {
        match outcome {
            Ok(Async::Ready(handler)) => {
                if !self.failed && idx < self.handlers.len() && self.handlers[idx].is_none() {
                    self.handlers[idx] = Some(handler);
                }
                Ok(())
            },
            Ok(Async::NotReady) => Ok(()),
            Err(e) => {
                if !self.failed {
                    self.handlers = empty_slots(self.handlers.len());
                    self.failed = true;
                }
                Err(e)
            },
        }
    }

    /// Hands out the session's service once every handler is there, unless
    /// a construction has failed.
    ///
    /// The service owns the handlers, each at the index of its factory, and
    /// shares the pattern table and the default handler with the descriptor.
    /// While a handler is awaited the answer is `NotReady` and nothing
    /// changes.
    pub fn poll(&mut self) -> (r: Async<AppService<H, D>>)
        requires
            old(self).wf(),
        ensures
            final(self).wf(),
            final(self).table() == old(self).table(),
            final(self).default_handler() == old(self).default_handler(),
            final(self).failed() == old(self).failed(),
            r is Ready <==> serves(old(self).failed(), old(self).slots()),
            match r {
                Async::Ready(service) => {
                    &&& service.wf()
                    &&& service.table() == old(self).table()
                    &&& service.default_handler() == old(self).default_handler()
                    &&& service.handlers().len() == old(self).slots().len()
                    &&& forall|i: int|
                        0 <= i < old(self).slots().len() ==> old(self).slots()[i] == Some(
                            #[trigger] service.handlers()[i],
                        )
                    &&& final(self).slots() == nothing_built::<H>(old(self).slots().len())
                },
                Async::NotReady => final(self).slots() == old(self).slots(),
            },
    {
        if self.failed || !self.is_complete() {
            return Async::NotReady;
        }
        let n: usize = self.handlers.len();
        let mut slots: Vec<Option<H>> = empty_slots(n);
        std::mem::swap(&mut self.handlers, &mut slots);
        let ghost filled = slots@;
        let mut reversed: Vec<H> = Vec::new();
        while slots.len() > 0
            invariant
                slots@.len() + reversed@.len() == n,
                slots@ == filled.subrange(0, slots@.len() as int),
                filled.len() == n,
                forall|k: int| 0 <= k < n ==> (#[trigger] filled[k]) is Some,
                forall|k: int|
                    0 <= k < reversed@.len() ==> filled[n - 1 - k] == Some(#[trigger] reversed@[k]),
            decreases slots@.len(),
        {
            let slot = slots.pop().unwrap();
            assert(slot == filled[slots@.len() as int]);
            reversed.push(slot.unwrap());
        }
        let ghost turned = reversed@;
        let mut handlers: Vec<H> = Vec::new();
        while reversed.len() > 0
            invariant
                reversed@.len() + handlers@.len() == n,
                reversed@ == turned.subrange(0, reversed@.len() as int),
                turned.len() == n,
                forall|k: int| 0 <= k < handlers@.len() ==> turned[n - 1 - k] == #[trigger] handlers@[k],
            decreases reversed@.len(),
        {
            let handler = reversed.pop().unwrap();
            assert(handler == turned[reversed@.len() as int]);
            handlers.push(handler);
        }
        Async::Ready(
            AppService { router: share(&self.router), handlers, not_found: share(&self.not_found) },
        )
    }

    /// A construction over `n` factories that awaits every handler.
    pub(crate) fn pending(router: Rc<Router<usize, ()>>, n: usize, not_found: Rc<D>) -> (fut: Self)
        ensures
            fut.table() == router_table(*router),
            fut.default_handler() == *not_found,
            fut.slots() == nothing_built::<H>(n as nat),
            !fut.failed(),
    {
        AppFactoryFut { router, handlers: empty_slots(n), not_found, failed: false }
    }
}

/// One session's service: the handlers built for the session, each at the
/// index of its pattern, with the shared pattern table and default handler.
pub struct AppService<H, D> {
    router: Rc<Router<usize, ()>>,
    handlers: Vec<H>,
    not_found: Rc<D>,
}

/// What becomes of a message.
#[derive(Debug, PartialEq, Eq)]
pub enum Dispatch<M, E> {
    /// The message goes to the handler at this index, which alone decides
    /// the outcome.
    Forward(usize, M),
    /// No pattern matched: the outcome is this failure, made by the default
    /// handler from the message.
    Rejected(E),
}

impl<H, D> AppService<H, D> {
    /// The pattern table, oldest registration first.
    pub closed spec fn table(&self) -> Seq<Entry> {
        router_table(*self.router)
    }

    /// The session's handlers, each at the index of its pattern.
    pub closed spec fn handlers(&self) -> Seq<H> {
        self.handlers@
    }

    /// The handler of messages that no pattern matches.
    pub closed spec fn default_handler(&self) -> D {
        *self.not_found
    }

    /// Each pattern is one that is registered and stands at the index of its
    /// handler.
    pub open spec fn wf(&self) -> bool {
        &&& self.table().len() == self.handlers().len()
        &&& indexed(self.table())
        &&& all_admitted(self.table())
    }

    /// The number of handlers.
    pub fn len(&self) -> (n: usize)
        ensures
            n == self.handlers().len(),
    {
        self.handlers.len()
    }

    /// The handler at `idx`, for the caller to poll it or to hand it a
    /// message.
    pub fn handler_mut(&mut self, idx: usize) -> (handler: &mut H)
        requires
            idx < old(self).handlers().len(),
        ensures
            *handler == old(self).handlers()[idx as int],
            final(self).handlers() == old(self).handlers().update(idx as int, *final(handler)),
            final(self).table() == old(self).table(),
            final(self).default_handler() == old(self).default_handler(),
    {
        &mut self.handlers[idx]
    }

    /// Begins a round of readiness polling: with no handler the service is
    /// ready, else the first handler is due.
    pub fn ready_round<E>(&self) -> (step: ReadyStep<E>)
        ensures
            step == round_start::<E>(self.handlers().len()),
    {
        start_round(self.handlers.len())
    }

    /// Takes what the handler at `round.next` reported of its readiness.
    ///
    /// An error ends the round and is the answer. Else the next handler is
    /// due, whether or not this one was ready; after the last one the service
    /// is not ready if any handler of the round was not, and ready otherwise.
    pub fn poll_ready<E>(&self, round: ReadyRound, outcome: Result<Async<()>, E>) -> (step: ReadyStep<E>)
        ensures
            step == round_step(self.handlers().len(), round, outcome),
    {
        step_round(self.handlers.len(), round, outcome)
    }

    /// Decides where a message on `topic` goes.
    ///
    /// It goes to the handler of the oldest registration whose pattern
    /// accepts the topic, untouched. Where there is none, the default handler
    /// is run on it, and what that returns is the outcome. What the router
    /// captured of the topic is not handed out.
    pub fn call<M, E>(&self, topic: &str, req: M) -> (r: Dispatch<M, E>) where D: Fn(M) -> E
        requires
            self.wf(),
            route(self.table(), topic@) is None ==> call_requires(self.default_handler(), (req,)),
        ensures
            literal_by_equality(self.table(), topic@),
            match route(self.table(), topic@) {
                Some(idx) => idx < self.handlers().len() && r == Dispatch::<M, E>::Forward(idx, req),
                None => r matches Dispatch::Rejected(e) && call_ensures(
                    self.default_handler(),
                    (req,),
                    e,
                ),
            },
    {
        match recognize(&self.router, topic) {
            Some(idx) => {
                proof {
                    let i = choose|i: int| crate::matcher::first_hit(self.table(), topic@, i);
                    assert(self.table()[i].1 == i);
                }
                Dispatch::Forward(idx, req)
            },
            None => Dispatch::Rejected((*self.not_found)(req)),
        }
    }
}

} // verus!
