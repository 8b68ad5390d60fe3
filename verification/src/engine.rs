//! The counting engine: one signal against a cache and a page store.

use vstd::prelude::*;
use crate::cache::{last_seen, VisitCache};
use crate::error::Error;
use crate::pages::{increment_result, with_hit, PageRecord, PageStore};
use crate::policy::{outcome_of, VisitOutcome};
use crate::visit::{
    action_of, advance_visit, begin_visit, steps_left, storable, Signal, VisitAction,
    VisitEvent, VisitState,
};

verus! {

/// Whether `signal` opens a new visit, given what `cache` remembers.
pub open spec fn opens_visit(cache: Map<(u128, u64), u64>, signal: Signal) -> bool {
    storable(signal.now) && outcome_of(
        last_seen(cache, signal.page_id, signal.visitor),
        signal.now,
        signal.visit_window,
    ) == VisitOutcome::Counted
}

/// What `record_visit` answers for `signal` on `cache` and `pages`.
///
/// A time that cannot be stored is refused; a visitor inside an open visit is
/// deduplicated; every other signal is counted, unless the store has no such
/// page (`NotFound`) or no room in the page's counter (`StoreUnavailable`).
pub open spec fn visit_result(
    cache: Map<(u128, u64), u64>,
    pages: Map<u128, PageRecord>,
    signal: Signal,
) -> Result<VisitOutcome, Error> {
    if !storable(signal.now) {
        Err(Error::InvalidInput)
    } else if !opens_visit(cache, signal) {
        Ok(VisitOutcome::Deduplicated)
    } else {
        match increment_result(pages, signal.page_id) {
            Ok(_) => Ok(VisitOutcome::Counted),
            Err(e) => Err(e),
        }
    }
}

/// What the cache remembers after `signal`: a signal that opens a visit is
/// remembered with its time, whether or not the store then counts it.
pub open spec fn cache_after_visit(cache: Map<(u128, u64), u64>, signal: Signal) -> Map<
    (u128, u64),
    u64,
> {
    if opens_visit(cache, signal) {
        cache.insert((signal.page_id, signal.visitor), signal.now)
    } else {
        cache
    }
}

/// What the store holds after `signal`: one more hit for the page where the
/// signal was counted, and what it held before in every other case.
pub open spec fn pages_after_visit(
    cache: Map<(u128, u64), u64>,
    pages: Map<u128, PageRecord>,
    signal: Signal,
) -> Map<u128, PageRecord> {
    if visit_result(cache, pages, signal) == Ok::<VisitOutcome, Error>(VisitOutcome::Counted) {
        with_hit(pages, signal.page_id, signal.now as i64)
    } else {
        pages
    }
}

/// How far the stores have come when the signal stands in `state`.
spec fn on_course(
    signal: Signal,
    state: VisitState,
    cache_before: Map<(u128, u64), u64>,
    pages_before: Map<u128, PageRecord>,
    cache: Map<(u128, u64), u64>,
    pages: Map<u128, PageRecord>,
) -> bool {
    match state {
        VisitState::AwaitingCacheRead => {
            &&& storable(signal.now)
            &&& cache == cache_before
            &&& pages == pages_before
        },
        VisitState::AwaitingCacheWrite => {
            &&& opens_visit(cache_before, signal)
            &&& cache == cache_before
            &&& pages == pages_before
        },
        VisitState::AwaitingIncrement => {
            &&& opens_visit(cache_before, signal)
            &&& cache == cache_after_visit(cache_before, signal)
            &&& pages == pages_before
        },
        VisitState::Finished(result) => {
            &&& result == visit_result(cache_before, pages_before, signal)
            &&& cache == cache_after_visit(cache_before, signal)
            &&& pages == pages_after_visit(cache_before, pages_before, signal)
        },
    }
}

/// Records one signal: decides from the cache whether it opens a new visit
/// and, if it does, remembers its time in the cache and then counts one hit
/// for the page in the store.
///
/// A deduplicated signal changes neither store. The cache is written before
/// the store: where the store then refuses the hit, the cache has already
/// taken the time, and the signal is lost rather than open to be counted
/// twice.
pub fn record_visit(
    cache: &mut VisitCache,
    store: &mut PageStore,
    page_id: u128,
    visitor: u64,
    now: u64,
    visit_window: u64,
) -> (result: Result<VisitOutcome, Error>)
    requires
        old(cache).well_formed(),
        old(store).well_formed(),
    ensures
        final(cache).well_formed(),
        final(store).well_formed(),
        result == visit_result(
            old(cache)@,
            old(store)@,
            (Signal { page_id, visitor, now, visit_window }),
        ),
        final(cache)@ == cache_after_visit(
            old(cache)@,
            (Signal { page_id, visitor, now, visit_window }),
        ),
        final(store)@ == pages_after_visit(
            old(cache)@,
            old(store)@,
            (Signal { page_id, visitor, now, visit_window }),
        ),
{
    let signal = Signal { page_id, visitor, now, visit_window };
    let ghost cache_before = cache@;
    let ghost pages_before = store@;
    let started = begin_visit(&signal);
    let mut state = started.0;
    let mut action = started.1;
    loop
        invariant
            cache.well_formed(),
            store.well_formed(),
            signal == (Signal { page_id, visitor, now, visit_window }),
            cache_before == old(cache)@,
            pages_before == old(store)@,
            action == action_of(signal, state),
            on_course(signal, state, cache_before, pages_before, cache@, store@),
        decreases steps_left(state),
    {
        let event = match action {
            VisitAction::Finish(result) => {
                return result;
            },
            VisitAction::ReadCache { page_id, visitor } => VisitEvent::CacheRead(
                cache.get(page_id, visitor),
            ),
            VisitAction::WriteCache { page_id, visitor, last_seen_at } => {
                cache.set(page_id, visitor, last_seen_at);
                VisitEvent::CacheWritten
            },
            VisitAction::Increment { page_id, at_time } => match store.increment(page_id, at_time) {
                Ok(_) => VisitEvent::Incremented,
                Err(Error::NotFound) => VisitEvent::PageMissing,
                Err(_) => VisitEvent::StoreFailed,
            },
        };
        let moved = advance_visit(&signal, state, event);
        state = moved.0;
        action = moved.1;
    }
}

} // verus!
