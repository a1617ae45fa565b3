//! Cooperative cancellation: a signal that the search polls on entering
//! each node.

use vstd::prelude::*;

verus! {

/// A request to stop, raised from outside the search.
///
/// A signal answers a number of polls with "go on" and every poll after
/// them with "stop": once raised it stays raised. `polls_left` is that
/// number, or nothing for a signal that is never raised. When a stop will
/// come is not for the search to know; it is stated so that what a search
/// does with each answer can be.
pub trait StopSignal {
    /// The number of polls that are still answered with "go on"; nothing
    /// where every poll is.
    open spec fn polls_left(&self) -> Option<nat> {
        arbitrary()
    }

    /// Polls the signal: true once a stop has been requested.
    fn raised(&mut self) -> (stop: bool)
        ensures
            stop <==> old(self).polls_left() == Some(0nat),
            final(self).polls_left() == after_poll(old(self).polls_left()),
    ;
}

/// What is left of `polls` after one poll.
pub open spec fn after_poll(polls: Option<nat>) -> Option<nat> {
    match polls {
        Some(n) => if n > 0 {
            Some((n - 1) as nat)
        } else {
            Some(0nat)
        },
        None => None,
    }
}

/// The signal that is never raised.
pub struct Never;

impl StopSignal for Never {
    open spec fn polls_left(&self) -> Option<nat> {
        None
    }

    fn raised(&mut self) -> (stop: bool) {
        false
    }
}

} // verus!
