//! What holds of the tracker as a whole, stated over the models that the
//! contracts of its operations speak of.

use vstd::prelude::*;
use crate::cache::{last_seen, without_stale};
use crate::engine::{cache_after_visit, opens_visit, pages_after_visit, visit_result};
use crate::error::Error;
use crate::pages::{
    consistent, filed_under, has_url, increment_result, with_hit, PageRecord,
};
use crate::policy::{outcome_of, VisitOutcome};
use crate::registry::{
    file_result, id_of, lemma_id_of, next_register_state, pages_after_file, register_action_of,
    RegisterAction, RegisterEvent, RegisterState,
};
use crate::visit::{next_state, storable, Signal, VisitEvent, VisitState};

verus! {

/// The signal of one visitor on one page at `now`.
pub open spec fn signal_at(page_id: u128, visitor: u64, visit_window: u64, now: u64) -> Signal {
    Signal { page_id, visitor, now, visit_window }
}

/// The cache and the store after the signals of one visitor on one page that
/// arrive at `times`, one after the other.
pub open spec fn replay(
    cache: Map<(u128, u64), u64>,
    pages: Map<u128, PageRecord>,
    page_id: u128,
    visitor: u64,
    visit_window: u64,
    times: Seq<u64>,
) -> (Map<(u128, u64), u64>, Map<u128, PageRecord>)
    decreases times.len(),
{
    if times.len() == 0 {
        (cache, pages)
    } else {
        let earlier = replay(cache, pages, page_id, visitor, visit_window, times.drop_last());
        let signal = signal_at(page_id, visitor, visit_window, times.last());
        (cache_after_visit(earlier.0, signal), pages_after_visit(earlier.0, earlier.1, signal))
    }
}

/// What the signal at `times[i]` is answered, after the signals before it.
pub open spec fn replay_result(
    cache: Map<(u128, u64), u64>,
    pages: Map<u128, PageRecord>,
    page_id: u128,
    visitor: u64,
    visit_window: u64,
    times: Seq<u64>,
    i: int,
) -> Result<VisitOutcome, Error> {
    let earlier = replay(cache, pages, page_id, visitor, visit_window, times.take(i));
    visit_result(earlier.0, earlier.1, signal_at(page_id, visitor, visit_window, times[i]))
}

/// The arrival times as the store keeps them.
pub open spec fn stored_times(times: Seq<u64>) -> Seq<i64> {
    Seq::new(times.len(), |i: int| times[i] as i64)
}

/// The page `page_id` is stored in `pages` and its counter has room for
/// `more` further hits.
pub open spec fn has_room(pages: Map<u128, PageRecord>, page_id: u128, more: int) -> bool {
    pages.contains_key(page_id) && pages[page_id].hit_count + more <= i32::MAX
}

/// The registrations of one URL with the candidates `candidates`, one after
/// the other.
pub open spec fn file_each(pages: Map<u128, PageRecord>, url: Seq<char>, candidates: Seq<u128>) -> Map<
    u128,
    PageRecord,
>
    decreases candidates.len(),
{
    if candidates.len() == 0 {
        pages
    } else {
        pages_after_file(file_each(pages, url, candidates.drop_last()), url, candidates.last())
    }
}

/// The state of a registration after the events `events`.
pub open spec fn run_registration(
    candidate: u128,
    state: RegisterState,
    events: Seq<RegisterEvent>,
) -> RegisterState
    decreases events.len(),
{
    if events.len() == 0 {
        state
    } else {
        next_register_state(
            candidate,
            run_registration(candidate, state, events.drop_last()),
            events.last(),
        )
    }
}

/// What the store `pages` answers to the action that a registration of `url`
/// in `state` has pending. Every action is one step of the store: a lookup
/// sees what is filed at that moment, and an insert is refused where the URL
/// or the identifier is taken.
pub open spec fn store_answer(
    pages: Map<u128, PageRecord>,
    url: Seq<char>,
    candidate: u128,
    state: RegisterState,
) -> RegisterEvent {
    match register_action_of(candidate, state) {
        RegisterAction::Lookup => if has_url(pages, url) {
            RegisterEvent::Found(id_of(pages, url))
        } else {
            RegisterEvent::Missing
        },
        RegisterAction::Insert { page_id } => if has_url(pages, url) || pages.contains_key(page_id) {
            RegisterEvent::RaceLost
        } else {
            RegisterEvent::Inserted
        },
        RegisterAction::Finish(_) => RegisterEvent::Missing,
    }
}

/// What the store holds after the action that a registration of `url` in
/// `state` has pending.
pub open spec fn store_after(
    pages: Map<u128, PageRecord>,
    url: Seq<char>,
    candidate: u128,
    state: RegisterState,
) -> Map<u128, PageRecord> {
    match register_action_of(candidate, state) {
        RegisterAction::Insert { page_id } => pages_after_file(pages, url, page_id),
        _ => pages,
    }
}

/// Several registrations of one URL at once, each with its own candidate:
/// the store and the state of each registration after the steps that
/// `schedule` names, one registration moving at a time, in any order.
pub open spec fn interleave(
    pages: Map<u128, PageRecord>,
    url: Seq<char>,
    candidates: Seq<u128>,
    schedule: Seq<int>,
) -> (Map<u128, PageRecord>, Seq<RegisterState>)
    decreases schedule.len(),
{
    if schedule.len() == 0 {
        (pages, Seq::new(candidates.len(), |k: int| RegisterState::AwaitingLookup))
    } else {
        let earlier = interleave(pages, url, candidates, schedule.drop_last());
        let k = schedule.last();
        if 0 <= k < candidates.len() {
            (
                store_after(earlier.0, url, candidates[k], earlier.1[k]),
                earlier.1.update(
                    k,
                    next_register_state(
                        candidates[k],
                        earlier.1[k],
                        store_answer(earlier.0, url, candidates[k], earlier.1[k]),
                    ),
                ),
            )
        } else {
            earlier
        }
    }
}

/// The identifier that a registration has ended with, if it has.
pub open spec fn answer_of(state: RegisterState) -> Option<u128> {
    match state {
        RegisterState::Finished(Ok(id)) => Some(id),
        _ => None,
    }
}

/// A registration that has ended has ended well: with the identifier of a
/// page that is filed under the URL, or with a failure other than `RaceLost`.
pub open spec fn settled(pages: Map<u128, PageRecord>, url: Seq<char>, state: RegisterState) -> bool {
    match state {
        RegisterState::Finished(Ok(id)) => filed_under(pages, url, id),
        RegisterState::Finished(Err(e)) => e != Error::RaceLost,
        _ => true,
    }
}

/// Registrations of one URL that run at once, in whatever order their steps
/// reach the store, agree: every one that ends with an identifier ends with
/// the same, the store holds one page for the URL and no second, and none
/// ends in `RaceLost`.
pub proof fn law_concurrent_registrations_agree(
    pages: Map<u128, PageRecord>,
    url: Seq<char>,
    candidates: Seq<u128>,
    schedule: Seq<int>,
)
    requires
        consistent(pages),
    ensures
        ({
            let after = interleave(pages, url, candidates, schedule);
            &&& consistent(after.0)
            &&& after.1.len() == candidates.len()
            &&& forall|k: int| 0 <= k < candidates.len() ==> settled(after.0, url, #[trigger] after.1[k])
            &&& forall|j: int, k: int|
                0 <= j < candidates.len() && 0 <= k < candidates.len() && answer_of(
                    #[trigger] after.1[j],
                ) is Some && answer_of(#[trigger] after.1[k]) is Some ==> answer_of(after.1[j])
                    == answer_of(after.1[k])
            &&& forall|a: u128, b: u128|
                filed_under(after.0, url, a) && filed_under(after.0, url, b) ==> a == b
        }),
    decreases schedule.len(),
{
    let after = interleave(pages, url, candidates, schedule);
    if schedule.len() > 0 {
        law_concurrent_registrations_agree(pages, url, candidates, schedule.drop_last());
        let earlier = interleave(pages, url, candidates, schedule.drop_last());
        let k = schedule.last();
        if 0 <= k < candidates.len() {
            let state = earlier.1[k];
            assert(settled(earlier.0, url, state));
            match register_action_of(candidates[k], state) {
                RegisterAction::Insert { page_id } => {
                    law_file_keeps_consistent(earlier.0, url, page_id);
                },
                _ => {},
            }
            if has_url(earlier.0, url) {
                assert(filed_under(earlier.0, url, id_of(earlier.0, url)));
            }
            assert forall|i: int| 0 <= i < candidates.len() implies settled(
                after.0,
                url,
                #[trigger] after.1[i],
            ) by {
                assert(settled(earlier.0, url, earlier.1[i]));
            }
        }
    }
    assert forall|j: int, k: int|
        0 <= j < candidates.len() && 0 <= k < candidates.len() && answer_of(
            #[trigger] after.1[j],
        ) is Some && answer_of(#[trigger] after.1[k]) is Some implies answer_of(after.1[j])
        == answer_of(after.1[k]) by {
        assert(settled(after.0, url, after.1[j]));
        assert(settled(after.0, url, after.1[k]));
    }
}

/// Once a URL is registered, registering it again, however often and with
/// whatever fresh identifiers at hand, returns the identifier of the first
/// registration and leaves the store as it was; and the store holds that one
/// page for the URL and no other.
pub proof fn law_register_is_idempotent(
    pages: Map<u128, PageRecord>,
    url: Seq<char>,
    first: u128,
    later: Seq<u128>,
)
    requires
        consistent(pages),
        file_result(pages, url, first) is Ok,
    ensures
        ({
            let id = file_result(pages, url, first)->Ok_0;
            let after = pages_after_file(pages, url, first);
            &&& consistent(after)
            &&& forall|other: u128| filed_under(after, url, other) <==> other == id
            &&& file_each(after, url, later) == after
            &&& forall|k: int|
                0 <= k < later.len() ==> file_each(after, url, later.take(k)) == after
                    && #[trigger] file_result(after, url, later[k]) == Ok::<u128, Error>(id)
        }),
    decreases later.len(),
{
    let id = file_result(pages, url, first)->Ok_0;
    let after = pages_after_file(pages, url, first);
    if has_url(pages, url) {
        assert(filed_under(pages, url, id_of(pages, url)));
    } else {
        assert(filed_under(after, url, first));
        assert forall|a: u128, b: u128|
            after.contains_key(a) && after.contains_key(b) && after[a].url == after[b].url implies a
            == b by {
            if a == first && b != first {
                assert(filed_under(pages, url, b));
            }
            if b == first && a != first {
                assert(filed_under(pages, url, a));
            }
        }
    }
    assert(filed_under(after, url, id));
    assert(consistent(after));
    lemma_id_of(after, url, id);
    assert forall|k: int| 0 <= k < later.len() implies #[trigger] file_result(
        after,
        url,
        later[k],
    ) == Ok::<u128, Error>(id) by {}
    if later.len() > 0 {
        law_register_is_idempotent(pages, url, first, later.drop_last());
        assert forall|k: int| 0 <= k < later.len() implies file_each(after, url, later.take(k))
            == after by {
            if k == later.len() - 1 {
                assert(later.take(k) =~= later.drop_last());
            } else {
                assert(later.take(k) =~= later.drop_last().take(k));
                assert(file_result(after, url, later.drop_last()[k]) == Ok::<u128, Error>(id));
            }
        }
    }
}

/// A registration never ends in `RaceLost`, whatever the store reports and
/// in whatever order: an insert that loses is followed by a second lookup,
/// and the registration ends with what that finds.
pub proof fn law_race_lost_is_absorbed(candidate: u128, events: Seq<RegisterEvent>, winner: u128)
    ensures
        run_registration(candidate, RegisterState::AwaitingLookup, events)
            != RegisterState::Finished(Err(Error::RaceLost)),
        next_register_state(
            candidate,
            next_register_state(candidate, RegisterState::AwaitingInsert, RegisterEvent::RaceLost),
            RegisterEvent::Found(winner),
        ) == RegisterState::Finished(Ok(winner)),
    decreases events.len(),
{
    if events.len() > 0 {
        law_race_lost_is_absorbed(candidate, events.drop_last(), winner);
    }
}

/// Registering a URL keeps the store consistent: every page still has one
/// arrival time per counted hit, and no URL is filed twice.
pub proof fn law_file_keeps_consistent(pages: Map<u128, PageRecord>, url: Seq<char>, candidate: u128)
    requires
        consistent(pages),
    ensures
        consistent(pages_after_file(pages, url, candidate)),
{
    let after = pages_after_file(pages, url, candidate);
    if !has_url(pages, url) && !pages.contains_key(candidate) {
        assert forall|a: u128, b: u128|
            after.contains_key(a) && after.contains_key(b) && after[a].url == after[b].url implies a
            == b by {
            if a == candidate && b != candidate {
                assert(filed_under(pages, url, b));
            }
            if b == candidate && a != candidate {
                assert(filed_under(pages, url, a));
            }
        }
    }
}

/// Counting a hit for a stored page keeps the store consistent.
pub proof fn law_hit_keeps_consistent(pages: Map<u128, PageRecord>, page_id: u128, at_time: i64)
    requires
        consistent(pages),
        pages.contains_key(page_id),
    ensures
        consistent(with_hit(pages, page_id, at_time)),
        with_hit(pages, page_id, at_time)[page_id].hit_count == pages[page_id].hit_count + 1,
        with_hit(pages, page_id, at_time)[page_id].hit_timestamps.len()
            == pages[page_id].hit_timestamps.len() + 1,
{
    let after = with_hit(pages, page_id, at_time);
    assert forall|id: u128| #[trigger] after.contains_key(id) implies 0 <= after[id].hit_count
        == after[id].hit_timestamps.len() by {
        assert(pages.contains_key(id));
    }
}

/// Recording a signal keeps the store consistent, whatever the signal and
/// whatever its outcome.
pub proof fn law_visit_keeps_consistent(
    cache: Map<(u128, u64), u64>,
    pages: Map<u128, PageRecord>,
    signal: Signal,
)
    requires
        consistent(pages),
    ensures
        consistent(pages_after_visit(cache, pages, signal)),
{
    if visit_result(cache, pages, signal) == Ok::<VisitOutcome, Error>(VisitOutcome::Counted) {
        law_hit_keeps_consistent(pages, signal.page_id, signal.now as i64);
    }
}

/// After any sequence of signals of one visitor on one page the store is
/// consistent: the counter of every page equals the number of its arrival
/// times.
pub proof fn law_replay_keeps_consistent(
    cache: Map<(u128, u64), u64>,
    pages: Map<u128, PageRecord>,
    page_id: u128,
    visitor: u64,
    visit_window: u64,
    times: Seq<u64>,
)
    requires
        consistent(pages),
    ensures
        consistent(replay(cache, pages, page_id, visitor, visit_window, times).1),
    decreases times.len(),
{
    if times.len() > 0 {
        law_replay_keeps_consistent(cache, pages, page_id, visitor, visit_window, times.drop_last());
        let earlier = replay(cache, pages, page_id, visitor, visit_window, times.drop_last());
        law_visit_keeps_consistent(
            earlier.0,
            earlier.1,
            signal_at(page_id, visitor, visit_window, times.last()),
        );
    }
}

/// Signals of one visitor on one page that arrive more than the visit window
/// apart are all counted: each raises the counter by exactly one and adds
/// its time, and the cache remembers the last of them.
///
/// The first signal has to be as far from what the cache remembers of the
/// visitor, the times have to be such as the store can hold, and the counter
/// needs room for them.
pub proof fn law_spaced_signals_all_count(
    cache: Map<(u128, u64), u64>,
    pages: Map<u128, PageRecord>,
    page_id: u128,
    visitor: u64,
    visit_window: u64,
    times: Seq<u64>,
)
    requires
        has_room(pages, page_id, times.len() as int),
        forall|i: int| 0 <= i < times.len() ==> storable(#[trigger] times[i]),
        forall|i: int| 0 < i < times.len() ==> #[trigger] times[i] - times[i - 1] > visit_window,
        times.len() > 0 ==> opens_visit(
            cache,
            signal_at(page_id, visitor, visit_window, times[0]),
        ),
    ensures
        ({
            let after = replay(cache, pages, page_id, visitor, visit_window, times);
            &&& after.1.contains_key(page_id)
            &&& after.1[page_id].hit_count == pages[page_id].hit_count + times.len()
            &&& after.1[page_id].hit_timestamps == pages[page_id].hit_timestamps + stored_times(
                times,
            )
            &&& after.1[page_id].url == pages[page_id].url
            &&& times.len() > 0 ==> last_seen(after.0, page_id, visitor) == Some(times.last())
            &&& forall|i: int|
                0 <= i < times.len() ==> #[trigger] replay_result(
                    cache,
                    pages,
                    page_id,
                    visitor,
                    visit_window,
                    times,
                    i,
                ) == Ok::<VisitOutcome, Error>(VisitOutcome::Counted)
        }),
    decreases times.len(),
{
    let after = replay(cache, pages, page_id, visitor, visit_window, times);
    if times.len() == 0 {
        assert(pages[page_id].hit_timestamps + stored_times(times) =~= pages[page_id].hit_timestamps);
    } else {
        let front = times.drop_last();
        let n = front.len() as int;
        assert forall|i: int| 0 < i < front.len() implies #[trigger] front[i] - front[i - 1]
            > visit_window by {
            assert(times[i] - times[i - 1] > visit_window);
        }
        assert(front.len() > 0 ==> front[0] == times[0]);
        law_spaced_signals_all_count(cache, pages, page_id, visitor, visit_window, front);
        let earlier = replay(cache, pages, page_id, visitor, visit_window, front);
        let signal = signal_at(page_id, visitor, visit_window, times.last());
        assert(storable(times[n]));
        assert(opens_visit(earlier.0, signal)) by {
            if n > 0 {
                assert(times[n] - times[n - 1] > visit_window);
                assert(front.last() == times[n - 1]);
            }
        }
        assert(increment_result(earlier.1, page_id) == Ok::<(), Error>(()));
        assert(visit_result(earlier.0, earlier.1, signal) == Ok::<VisitOutcome, Error>(
            VisitOutcome::Counted,
        ));
        assert(after.1 == with_hit(earlier.1, page_id, times[n] as i64));
        assert(after.1[page_id].hit_timestamps =~= pages[page_id].hit_timestamps + stored_times(
            times,
        ));
        assert forall|i: int| 0 <= i < times.len() implies #[trigger] replay_result(
            cache,
            pages,
            page_id,
            visitor,
            visit_window,
            times,
            i,
        ) == Ok::<VisitOutcome, Error>(VisitOutcome::Counted) by {
            if i == n {
                assert(times.take(i) =~= front);
            } else {
                assert(times.take(i) =~= front.take(i));
                assert(replay_result(cache, pages, page_id, visitor, visit_window, front, i) == Ok::<
                    VisitOutcome,
                    Error,
                >(VisitOutcome::Counted));
            }
        }
    }
}

/// Of the signals of one visitor on one page that arrive before the visit
/// window of the first has run out, only the first is counted: it raises the
/// counter by exactly one, and every following signal is deduplicated and
/// changes nothing. The first signal after the window has run out is counted
/// again.
pub proof fn law_signals_within_window_count_once(
    cache: Map<(u128, u64), u64>,
    pages: Map<u128, PageRecord>,
    page_id: u128,
    visitor: u64,
    visit_window: u64,
    times: Seq<u64>,
)
    requires
        times.len() > 0,
        has_room(pages, page_id, 1),
        forall|i: int| 0 <= i < times.len() ==> storable(#[trigger] times[i]),
        forall|i: int| 0 < i < times.len() ==> #[trigger] times[i] - times[0] <= visit_window,
        opens_visit(cache, signal_at(page_id, visitor, visit_window, times[0])),
    ensures
        ({
            let first = signal_at(page_id, visitor, visit_window, times[0]);
            let after = replay(cache, pages, page_id, visitor, visit_window, times);
            &&& after.0 == cache_after_visit(cache, first)
            &&& after.1 == with_hit(pages, page_id, times[0] as i64)
            &&& after.1[page_id].hit_count == pages[page_id].hit_count + 1
            &&& replay_result(cache, pages, page_id, visitor, visit_window, times, 0) == Ok::<
                VisitOutcome,
                Error,
            >(VisitOutcome::Counted)
            &&& forall|i: int|
                0 < i < times.len() ==> #[trigger] replay_result(
                    cache,
                    pages,
                    page_id,
                    visitor,
                    visit_window,
                    times,
                    i,
                ) == Ok::<VisitOutcome, Error>(VisitOutcome::Deduplicated)
            &&& forall|later: u64|
                storable(later) && later - times[0] > visit_window && has_room(pages, page_id, 2)
                    ==> #[trigger] visit_result(
                    after.0,
                    after.1,
                    signal_at(page_id, visitor, visit_window, later),
                ) == Ok::<VisitOutcome, Error>(VisitOutcome::Counted)
        }),
    decreases times.len(),
{
    let first = signal_at(page_id, visitor, visit_window, times[0]);
    let after = replay(cache, pages, page_id, visitor, visit_window, times);
    let front = times.drop_last();
    let n = front.len() as int;
    if n == 0 {
        assert(replay(cache, pages, page_id, visitor, visit_window, front) == (cache, pages));
        assert(times.take(0) =~= front);
    } else {
        assert forall|i: int| 0 < i < front.len() implies #[trigger] front[i] - front[0]
            <= visit_window by {
            assert(times[i] - times[0] <= visit_window);
        }
        law_signals_within_window_count_once(cache, pages, page_id, visitor, visit_window, front);
        let earlier = replay(cache, pages, page_id, visitor, visit_window, front);
        let signal = signal_at(page_id, visitor, visit_window, times.last());
        assert(times[n] - times[0] <= visit_window);
        assert(last_seen(earlier.0, page_id, visitor) == Some(times[0]));
        assert(!opens_visit(earlier.0, signal));
        assert forall|i: int| 0 <= i < times.len() implies #[trigger] replay_result(
            cache,
            pages,
            page_id,
            visitor,
            visit_window,
            times,
            i,
        ) == (if i == 0 {
            Ok::<VisitOutcome, Error>(VisitOutcome::Counted)
        } else {
            Ok::<VisitOutcome, Error>(VisitOutcome::Deduplicated)
        }) by {
            if i == n {
                assert(times.take(i) =~= front);
            } else {
                assert(times.take(i) =~= front.take(i));
                assert(replay_result(cache, pages, page_id, visitor, visit_window, front, i) == (if i
                    == 0 {
                    Ok::<VisitOutcome, Error>(VisitOutcome::Counted)
                } else {
                    Ok::<VisitOutcome, Error>(VisitOutcome::Deduplicated)
                }));
            }
        }
    }
}

/// The window's bound is still inside the visit: a signal that arrives
/// exactly one visit window after the visitor was last counted is
/// deduplicated, and the first that counts again arrives one second later.
pub proof fn law_window_boundary(last_seen_at: u64, visit_window: u64)
    ensures
        last_seen_at + visit_window <= u64::MAX ==> outcome_of(
            Some(last_seen_at),
            (last_seen_at + visit_window) as u64,
            visit_window,
        ) == VisitOutcome::Deduplicated,
        last_seen_at + visit_window + 1 <= u64::MAX ==> outcome_of(
            Some(last_seen_at),
            (last_seen_at + visit_window + 1) as u64,
            visit_window,
        ) == VisitOutcome::Counted,
        forall|now: u64|
            #[trigger] outcome_of(Some(last_seen_at), now, visit_window) == (if now
                > last_seen_at + visit_window {
                VisitOutcome::Counted
            } else {
                VisitOutcome::Deduplicated
            }),
{
}

/// The cache is told of a counted signal before the store is: the store is
/// only ever asked to count a hit once the cache has confirmed the write.
pub proof fn law_cache_is_written_first(signal: Signal, state: VisitState, event: VisitEvent)
    requires
        next_state(signal, state, event) == VisitState::AwaitingIncrement,
        state != VisitState::AwaitingIncrement,
    ensures
        state == VisitState::AwaitingCacheWrite,
        event == VisitEvent::CacheWritten,
{
}

/// A signal that opened a visit is not counted a second time when it is sent
/// again within the window, whether or not the store counted it the first
/// time: a hit may be lost to a failing store, never doubled.
pub proof fn law_retry_is_not_counted_twice(
    cache: Map<(u128, u64), u64>,
    pages: Map<u128, PageRecord>,
    signal: Signal,
    again: Signal,
)
    requires
        opens_visit(cache, signal),
        storable(again.now),
        again.page_id == signal.page_id,
        again.visitor == signal.visitor,
        again.now - signal.now <= again.visit_window,
    ensures
        visit_result(
            cache_after_visit(cache, signal),
            pages_after_visit(cache, pages, signal),
            again,
        ) == Ok::<VisitOutcome, Error>(VisitOutcome::Deduplicated),
{
}

/// Forgetting old entries of the cache never changes a decision: with a
/// `max_age` of at least the visit window, every signal that arrives at the
/// time of the eviction or later is decided as it would have been without
/// the eviction.
pub proof fn law_eviction_is_invisible(
    cache: Map<(u128, u64), u64>,
    evicted_at: u64,
    max_age: u64,
    signal: Signal,
)
    requires
        max_age >= signal.visit_window,
        signal.now >= evicted_at,
    ensures
        opens_visit(without_stale(cache, evicted_at, max_age), signal) == opens_visit(cache, signal),
{
}

} // verus!
