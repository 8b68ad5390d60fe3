//! The course of one signal through the cache and the page store, as a state
//! machine: the machine decides, whoever drives it talks to the stores.
//!
//! The driver performs the action it is handed and reports what came of it
//! as the next event. The cache is written before the counter is touched: a
//! driver that dies in between loses one hit and never counts one twice.

use vstd::prelude::*;
use crate::error::Error;
use crate::policy::{outcome_of, classify, VisitOutcome};

verus! {

/// One inbound signal: a visitor loaded a page.
#[derive(Clone, Copy, Debug, PartialEq, Eq, Structural)]
pub struct Signal {
    /// The page that was loaded.
    pub page_id: u128,
    /// The hashed identity of the visitor.
    pub visitor: u64,
    /// When the signal arrived, in seconds since the epoch.
    pub now: u64,
    /// For how long after a counted hit the same visitor is not counted again.
    pub visit_window: u64,
}

/// Where a signal stands.
#[derive(Clone, Copy, Debug, PartialEq, Eq)]
pub enum VisitState {
    /// The cache was asked when the visitor was last counted.
    AwaitingCacheRead,
    /// The signal counts; the cache was told to remember its time.
    AwaitingCacheWrite,
    /// The cache remembers the signal; the store was told to count it.
    AwaitingIncrement,
    /// The signal is dealt with.
    Finished(Result<VisitOutcome, Error>),
}

/// What the driver reports back.
#[derive(Clone, Copy, Debug, PartialEq, Eq)]
pub enum VisitEvent {
    /// The cache answered: the time it remembers for the visitor, if any.
    CacheRead(Option<u64>),
    /// The cache took the new time.
    CacheWritten,
    /// The cache could not be reached.
    CacheFailed,
    /// The store counted the hit.
    Incremented,
    /// The store does not know the page.
    PageMissing,
    /// The store could not count the hit.
    StoreFailed,
}

/// What the driver is to do next.
#[derive(Clone, Copy, Debug, PartialEq, Eq)]
pub enum VisitAction {
    /// Ask the cache when the visitor was last counted for the page.
    ReadCache { page_id: u128, visitor: u64 },
    /// Have the cache remember `last_seen_at` for the visitor and the page.
    WriteCache { page_id: u128, visitor: u64, last_seen_at: u64 },
    /// Have the store count one hit for the page, arrived at `at_time`.
    Increment { page_id: u128, at_time: i64 },
    /// Nothing is left to do: report the result.
    Finish(Result<VisitOutcome, Error>),
}

/// The arrival times the store can hold.
pub open spec fn storable(now: u64) -> bool {
    now <= i64::MAX
}

/// The state a signal starts in. A time the store cannot hold is refused
/// before anything is asked of the cache.
pub open spec fn initial_state(signal: Signal) -> VisitState {
    if storable(signal.now) {
        VisitState::AwaitingCacheRead
    } else {
        VisitState::Finished(Err(Error::InvalidInput))
    }
}

/// The state that follows `state` on `event`. An event that does not answer
/// what the state waits for changes nothing, and a signal whose time the
/// store cannot hold is refused wherever it stands.
pub open spec fn next_state(signal: Signal, state: VisitState, event: VisitEvent) -> VisitState {
    if !storable(signal.now) {
        VisitState::Finished(Err(Error::InvalidInput))
    } else {
        following_state(signal, state, event)
    }
}

/// The state that follows `state` on `event` for a signal that can be stored.
pub open spec fn following_state(signal: Signal, state: VisitState, event: VisitEvent) -> VisitState {
    match (state, event) {
        (VisitState::AwaitingCacheRead, VisitEvent::CacheRead(seen)) => {
            if outcome_of(seen, signal.now, signal.visit_window) == VisitOutcome::Counted {
                VisitState::AwaitingCacheWrite
            } else {
                VisitState::Finished(Ok(VisitOutcome::Deduplicated))
            }
        },
        (VisitState::AwaitingCacheRead, VisitEvent::CacheFailed) => VisitState::Finished(
            Err(Error::CacheUnavailable),
        ),
        (VisitState::AwaitingCacheWrite, VisitEvent::CacheWritten) => VisitState::AwaitingIncrement,
        (VisitState::AwaitingCacheWrite, VisitEvent::CacheFailed) => VisitState::Finished(
            Err(Error::CacheUnavailable),
        ),
        (VisitState::AwaitingIncrement, VisitEvent::Incremented) => VisitState::Finished(
            Ok(VisitOutcome::Counted),
        ),
        (VisitState::AwaitingIncrement, VisitEvent::PageMissing) => VisitState::Finished(
            Err(Error::NotFound),
        ),
        (VisitState::AwaitingIncrement, VisitEvent::StoreFailed) => VisitState::Finished(
            Err(Error::StoreUnavailable),
        ),
        _ => state,
    }
}

/// What the driver is to do while the signal is in `state`.
pub open spec fn action_of(signal: Signal, state: VisitState) -> VisitAction {
    match state {
        VisitState::AwaitingCacheRead => VisitAction::ReadCache {
            page_id: signal.page_id,
            visitor: signal.visitor,
        },
        VisitState::AwaitingCacheWrite => VisitAction::WriteCache {
            page_id: signal.page_id,
            visitor: signal.visitor,
            last_seen_at: signal.now,
        },
        VisitState::AwaitingIncrement => VisitAction::Increment {
            page_id: signal.page_id,
            at_time: signal.now as i64,
        },
        VisitState::Finished(result) => VisitAction::Finish(result),
    }
}

/// How many more events a signal in `state` can take before it is finished.
pub open spec fn steps_left(state: VisitState) -> nat {
    match state {
        VisitState::AwaitingCacheRead => 3,
        VisitState::AwaitingCacheWrite => 2,
        VisitState::AwaitingIncrement => 1,
        VisitState::Finished(_) => 0,
    }
}

/// What the driver is to do while the signal is in `state`.
fn pending(signal: &Signal, state: VisitState) -> (action: VisitAction)
    requires
        state is Finished || storable(signal.now),
    ensures
        action == action_of(*signal, state),
{
    match state {
        VisitState::AwaitingCacheRead => VisitAction::ReadCache {
            page_id: signal.page_id,
            visitor: signal.visitor,
        },
        VisitState::AwaitingCacheWrite => VisitAction::WriteCache {
            page_id: signal.page_id,
            visitor: signal.visitor,
            last_seen_at: signal.now,
        },
        VisitState::AwaitingIncrement => VisitAction::Increment {
            page_id: signal.page_id,
            at_time: signal.now as i64,
        },
        VisitState::Finished(result) => VisitAction::Finish(result),
    }
}

/// Takes up a signal: the state it starts in and the first thing to do.
pub fn begin_visit(signal: &Signal) -> (started: (VisitState, VisitAction))
    ensures
        started.0 == initial_state(*signal),
        started.1 == action_of(*signal, started.0),
{
    let state = if signal.now <= i64::MAX as u64 {
        VisitState::AwaitingCacheRead
    } else {
        VisitState::Finished(Err(Error::InvalidInput))
    };
    (state, pending(signal, state))
}

/// Moves a signal on by one event: the state that follows and what is to be
/// done in it.
pub fn advance_visit(signal: &Signal, state: VisitState, event: VisitEvent) -> (moved: (
    VisitState,
    VisitAction,
))
    ensures
        moved.0 == next_state(*signal, state, event),
        moved.1 == action_of(*signal, moved.0),
{
    if signal.now > i64::MAX as u64 {
        let refused = VisitState::Finished(Err(Error::InvalidInput));
        return (refused, pending(signal, refused));
    }
    let next = match state {
        VisitState::AwaitingCacheRead => match event {
            VisitEvent::CacheRead(seen) => match classify(seen, signal.now, signal.visit_window) {
                VisitOutcome::Counted => VisitState::AwaitingCacheWrite,
                VisitOutcome::Deduplicated => VisitState::Finished(Ok(VisitOutcome::Deduplicated)),
            },
            VisitEvent::CacheFailed => VisitState::Finished(Err(Error::CacheUnavailable)),
            _ => state,
        },
        VisitState::AwaitingCacheWrite => match event {
            VisitEvent::CacheWritten => VisitState::AwaitingIncrement,
            VisitEvent::CacheFailed => VisitState::Finished(Err(Error::CacheUnavailable)),
            _ => state,
        },
        VisitState::AwaitingIncrement => match event {
            VisitEvent::Incremented => VisitState::Finished(Ok(VisitOutcome::Counted)),
            VisitEvent::PageMissing => VisitState::Finished(Err(Error::NotFound)),
            VisitEvent::StoreFailed => VisitState::Finished(Err(Error::StoreUnavailable)),
            _ => state,
        },
        VisitState::Finished(_) => state,
    };
    (next, pending(signal, next))
}

} // verus!
