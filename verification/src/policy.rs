//! The visit window: when a signal counts as a new visit.

use vstd::prelude::*;

verus! {

/// What became of a signal.
#[derive(Clone, Copy, Debug, PartialEq, Eq, Structural)]
pub enum VisitOutcome {
    /// The signal opened a new visit: the hit counter went up by one.
    Counted,
    /// The signal belongs to a visit that was already counted.
    Deduplicated,
}

/// A visitor last counted at `last_seen_at` is still inside that visit at
/// `now`: no more than `visit_window` seconds have passed. The bound itself
/// is still inside.
pub open spec fn within_visit(last_seen_at: int, now: int, visit_window: int) -> bool {
    now - last_seen_at <= visit_window
}

/// The outcome of a signal at `now`, given what the cache holds for the
/// visitor: a visitor never seen counts, and so does one whose last counted
/// visit lies more than `visit_window` in the past.
pub open spec fn outcome_of(last_seen_at: Option<u64>, now: u64, visit_window: u64) -> VisitOutcome {
    match last_seen_at {
        None => VisitOutcome::Counted,
        Some(at) => if within_visit(at as int, now as int, visit_window as int) {
            VisitOutcome::Deduplicated
        } else {
            VisitOutcome::Counted
        },
    }
}

/// Decides whether a signal at `now` opens a new visit.
///
/// The elapsed time is taken over the integers: a `last_seen_at` that lies
/// after `now` has a negative distance and is therefore inside the window.
pub fn classify(last_seen_at: Option<u64>, now: u64, visit_window: u64) -> (outcome: VisitOutcome)
    ensures
        outcome == outcome_of(last_seen_at, now, visit_window),
{
    match last_seen_at {
        None => VisitOutcome::Counted,
        Some(at) => {
            if now > at && now - at > visit_window {
                VisitOutcome::Counted
            } else {
                VisitOutcome::Deduplicated
            }
        },
    }
}

} // verus!
