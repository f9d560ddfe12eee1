//! One round of readiness polling over a service's handlers.
//!
//! The handlers are polled by the caller, one after the other in the order of
//! their registration. The round says which handler is due, takes what it
//! reported, and ends with the readiness of the service as a whole.

use vstd::prelude::*;
use crate::poll::Async;

verus! {

/// A round in progress.
#[derive(Clone, Copy, Debug, PartialEq, Eq)]
pub struct ReadyRound {
    /// The index of the handler that is to be polled now.
    pub next: usize,
    /// Whether a handler polled earlier in this round was not ready.
    pub not_ready: bool,
}

/// What the caller is to do next.
#[derive(Debug, PartialEq, Eq)]
pub enum ReadyStep<E> {
    /// Poll the handler at `next`, and come back with what it reports.
    Poll(ReadyRound),
    /// The round is over, and this is the readiness of the service.
    Done(Result<Async<()>, E>),
}

/// Some handler reported that it is not ready.
pub open spec fn any_not_ready<E>(outcomes: Seq<Result<Async<()>, E>>) -> bool {
    exists|i: int| 0 <= i < outcomes.len() && #[trigger] outcomes[i] == Ok::<Async<()>, E>(Async::NotReady)
}

/// No handler reported an error.
pub open spec fn none_failed<E>(outcomes: Seq<Result<Async<()>, E>>) -> bool {
    forall|i: int| 0 <= i < outcomes.len() ==> (#[trigger] outcomes[i]) is Ok
}

/// The readiness of a service of which it is known whether some handler was
/// not ready.
pub open spec fn verdict(not_ready: bool) -> Async<()> {
    if not_ready {
        Async::NotReady
    } else {
        Async::Ready(())
    }
}

/// The beginning of a round over `n` handlers.
pub open spec fn round_start<E>(n: nat) -> ReadyStep<E> {
    if n == 0 {
        ReadyStep::Done(Ok(Async::Ready(())))
    } else {
        ReadyStep::Poll(ReadyRound { next: 0, not_ready: false })
    }
}

/// The round after the handler at `round.next`, of `n`, reported `outcome`.
pub open spec fn round_step<E>(n: nat, round: ReadyRound, outcome: Result<Async<()>, E>) -> ReadyStep<E> {
    match outcome {
        Err(e) => ReadyStep::Done(Err(e)),
        Ok(state) => {
            let not_ready = round.not_ready || state is NotReady;
            if round.next + 1 < n {
                ReadyStep::Poll(ReadyRound { next: (round.next + 1) as usize, not_ready })
            } else {
                ReadyStep::Done(Ok(verdict(not_ready)))
            }
        },
    }
}

/// The round over `n` handlers after the reports `outcomes`, taken in order
/// from the beginning; reports that come after the end of the round are not
/// looked at.
pub open spec fn round_after<E>(n: nat, outcomes: Seq<Result<Async<()>, E>>) -> ReadyStep<E>
    decreases outcomes.len(),
{
    if outcomes.len() == 0 {
        round_start(n)
    } else {
        match round_after(n, outcomes.drop_last()) {
            ReadyStep::Poll(round) => round_step(n, round, outcomes.last()),
            ReadyStep::Done(readiness) => ReadyStep::Done(readiness),
        }
    }
}

/// Begins a round over `n` handlers.
pub fn start_round<E>(n: usize) -> (step: ReadyStep<E>)
    ensures
        step == round_start::<E>(n as nat),
{
    if n == 0 {
        ReadyStep::Done(Ok(Async::Ready(())))
    } else {
        ReadyStep::Poll(ReadyRound { next: 0, not_ready: false })
    }
}

/// Takes the report of the handler that was due.
pub fn step_round<E>(n: usize, round: ReadyRound, outcome: Result<Async<()>, E>) -> (step: ReadyStep<E>)
    ensures
        step == round_step(n as nat, round, outcome),
{
    match outcome {
        Err(e) => ReadyStep::Done(Err(e)),
        Ok(state) => {
            let not_ready = round.not_ready || matches!(state, Async::NotReady);
            if n > 0 && round.next < n - 1 {
                ReadyStep::Poll(ReadyRound { next: round.next + 1, not_ready })
            } else if not_ready {
                ReadyStep::Done(Ok(Async::NotReady))
            } else {
                ReadyStep::Done(Ok(Async::Ready(())))
            }
        },
    }
}

/// While fewer than `n` handlers have reported, none of them an error, the
/// round asks for the next handler in order and remembers whether one was
/// not ready.
pub proof fn lemma_round_in_progress<E>(n: nat, outcomes: Seq<Result<Async<()>, E>>)
    requires
        outcomes.len() < n,
        n <= usize::MAX,
        none_failed(outcomes),
    ensures
        round_after(n, outcomes) == ReadyStep::<E>::Poll(
            ReadyRound { next: outcomes.len() as usize, not_ready: any_not_ready(outcomes) },
        ),
    decreases outcomes.len(),
{
    if outcomes.len() > 0 {
        let earlier = outcomes.drop_last();
        assert(none_failed(earlier)) by {
            assert forall|i: int| 0 <= i < earlier.len() implies (#[trigger] earlier[i]) is Ok by {
                assert(earlier[i] == outcomes[i]);
            }
        }
        lemma_round_in_progress(n, earlier);
        lemma_any_not_ready_last(outcomes);
    }
}

/// Some report says "not ready" exactly when the last one or an earlier one
/// does.
pub proof fn lemma_any_not_ready_last<E>(outcomes: Seq<Result<Async<()>, E>>)
    requires
        outcomes.len() > 0,
    ensures
        any_not_ready(outcomes) == (any_not_ready(outcomes.drop_last()) || outcomes.last()
            == Ok::<Async<()>, E>(Async::NotReady)),
{
    let earlier = outcomes.drop_last();
    if any_not_ready(earlier) {
        let i = choose|i: int| 0 <= i < earlier.len() && #[trigger] earlier[i] == Ok::<Async<()>, E>(Async::NotReady);
        assert(outcomes[i] == earlier[i]);
    }
    if outcomes.last() == Ok::<Async<()>, E>(Async::NotReady) {
        assert(outcomes[outcomes.len() - 1] == Ok::<Async<()>, E>(Async::NotReady));
    }
    if any_not_ready(outcomes) {
        let i = choose|i: int| 0 <= i < outcomes.len() && #[trigger] outcomes[i] == Ok::<Async<()>, E>(Async::NotReady);
        if i < earlier.len() {
            assert(earlier[i] == outcomes[i]);
        }
    }
}

/// Where every handler reports without error, the round polls all of them,
/// each in its turn, and ends not ready exactly if at least one of them was
/// not ready, and ready exactly if all were.
pub proof fn law_readiness_of_all<E>(outcomes: Seq<Result<Async<()>, E>>)
    requires
        outcomes.len() <= usize::MAX,
        none_failed(outcomes),
    ensures
        round_after(outcomes.len(), outcomes) == ReadyStep::<E>::Done(
            Ok(verdict(any_not_ready(outcomes))),
        ),
        forall|k: int|
            0 <= k < outcomes.len() ==> #[trigger] round_after(outcomes.len(), outcomes.take(k))
                == ReadyStep::<E>::Poll(
                ReadyRound { next: k as usize, not_ready: any_not_ready(outcomes.take(k)) },
            ),
{
    let n = outcomes.len();
    if n > 0 {
        let earlier = outcomes.drop_last();
        assert forall|i: int| 0 <= i < earlier.len() implies (#[trigger] earlier[i]) is Ok by {
            assert(earlier[i] == outcomes[i]);
        }
        lemma_round_in_progress(n, earlier);
        lemma_any_not_ready_last(outcomes);
    }
    assert forall|k: int| 0 <= k < n implies #[trigger] round_after(n, outcomes.take(k))
        == ReadyStep::<E>::Poll(
        ReadyRound { next: k as usize, not_ready: any_not_ready(outcomes.take(k)) },
    ) by {
        let head = outcomes.take(k);
        assert forall|i: int| 0 <= i < head.len() implies (#[trigger] head[i]) is Ok by {
            assert(head[i] == outcomes[i]);
        }
        lemma_round_in_progress(n, head);
    }
}

/// Where a handler reports an error and those before it did not, the round
/// ends at once with that error, and whatever later handlers would report
/// has no part in it.
pub proof fn law_readiness_error<E>(n: nat, outcomes: Seq<Result<Async<()>, E>>, k: int, e: E)
    requires
        n <= usize::MAX,
        0 <= k < outcomes.len(),
        k < n,
        outcomes[k] == Err::<Async<()>, E>(e),
        none_failed(outcomes.take(k)),
    ensures
        round_after(n, outcomes.take(k)) is Poll,
        round_after(n, outcomes) == ReadyStep::<E>::Done(Err(e)),
    decreases outcomes.len(),
{
    lemma_round_in_progress(n, outcomes.take(k));
    if outcomes.len() == k + 1 {
        assert(outcomes.drop_last() =~= outcomes.take(k));
    } else {
        let earlier = outcomes.drop_last();
        assert(earlier.take(k) =~= outcomes.take(k));
        law_readiness_error(n, earlier, k, e);
    }
}

} // verus!
