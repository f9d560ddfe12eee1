//! The outcome of one poll.

use vstd::prelude::*;

verus! {

/// What a poll reports of a value that is still being awaited.
#[derive(Clone, Debug, PartialEq, Eq)]
pub enum Async<T> {
    /// The value is there.
    Ready(T),
    /// The value is not there yet; the caller is to poll again later.
    NotReady,
}

} // verus!
