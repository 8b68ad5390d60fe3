//! The page registry: one page per URL, and the same identifier for a URL
//! however often it is registered.
//!
//! Registration is a state machine like the course of a signal: look the URL
//! up, insert a new page where there is none, and where the insert loses
//! against the uniqueness of the store, look the URL up once more and take
//! what the winner filed.

use vstd::prelude::*;
use crate::address::{canonical_form, canonical_url};
use crate::error::Error;
use crate::ident::{is_random_id, random_page_id};
use crate::pages::{consistent, filed_under, has_url, reports, with_page, Hits, PageRecord, PageStore};

verus! {

/// Where a registration stands.
#[derive(Clone, Copy, Debug, PartialEq, Eq)]
pub enum RegisterState {
    /// The store was asked for the page of the URL.
    AwaitingLookup,
    /// The URL is new; the store was told to file a page for it.
    AwaitingInsert,
    /// The insert lost; the store was asked again for the page of the URL.
    AwaitingReread,
    /// The registration is dealt with.
    Finished(Result<u128, Error>),
}

/// What the driver reports back.
#[derive(Clone, Copy, Debug, PartialEq, Eq)]
pub enum RegisterEvent {
    /// The store holds a page for the URL.
    Found(u128),
    /// The store holds no page for the URL.
    Missing,
    /// The store filed the new page.
    Inserted,
    /// The store refused the new page: its URL or identifier is taken.
    RaceLost,
    /// The store could not be reached.
    StoreFailed,
}

/// What the driver is to do next.
#[derive(Clone, Copy, Debug, PartialEq, Eq)]
pub enum RegisterAction {
    /// Ask the store for the page of the URL.
    Lookup,
    /// Have the store file a page without hits for the URL, as `page_id`.
    Insert { page_id: u128 },
    /// Nothing is left to do: report the result.
    Finish(Result<u128, Error>),
}

/// The state that follows `state` on `event`, for a registration that would
/// file its page as `candidate`. An event that does not answer what the
/// state waits for changes nothing.
pub open spec fn next_register_state(
    candidate: u128,
    state: RegisterState,
    event: RegisterEvent,
) -> RegisterState {
    match (state, event) {
        (RegisterState::AwaitingLookup, RegisterEvent::Found(id)) => RegisterState::Finished(Ok(id)),
        (RegisterState::AwaitingLookup, RegisterEvent::Missing) => RegisterState::AwaitingInsert,
        (RegisterState::AwaitingLookup, RegisterEvent::StoreFailed) => RegisterState::Finished(
            Err(Error::StoreUnavailable),
        ),
        (RegisterState::AwaitingInsert, RegisterEvent::Inserted) => RegisterState::Finished(
            Ok(candidate),
        ),
        (RegisterState::AwaitingInsert, RegisterEvent::RaceLost) => RegisterState::AwaitingReread,
        (RegisterState::AwaitingInsert, RegisterEvent::StoreFailed) => RegisterState::Finished(
            Err(Error::StoreUnavailable),
        ),
        (RegisterState::AwaitingReread, RegisterEvent::Found(id)) => RegisterState::Finished(Ok(id)),
        (RegisterState::AwaitingReread, RegisterEvent::Missing) => RegisterState::Finished(
            Err(Error::StoreUnavailable),
        ),
        (RegisterState::AwaitingReread, RegisterEvent::StoreFailed) => RegisterState::Finished(
            Err(Error::StoreUnavailable),
        ),
        _ => state,
    }
}

/// What the driver is to do while the registration is in `state`.
pub open spec fn register_action_of(candidate: u128, state: RegisterState) -> RegisterAction {
    match state {
        RegisterState::AwaitingLookup => RegisterAction::Lookup,
        RegisterState::AwaitingInsert => RegisterAction::Insert { page_id: candidate },
        RegisterState::AwaitingReread => RegisterAction::Lookup,
        RegisterState::Finished(result) => RegisterAction::Finish(result),
    }
}

/// How many more events a registration in `state` can take before it is
/// finished.
pub open spec fn register_steps_left(state: RegisterState) -> nat {
    match state {
        RegisterState::AwaitingLookup => 3,
        RegisterState::AwaitingInsert => 2,
        RegisterState::AwaitingReread => 1,
        RegisterState::Finished(_) => 0,
    }
}

/// What the driver is to do while the registration is in `state`.
fn register_pending(candidate: u128, state: RegisterState) -> (action: RegisterAction)
    ensures
        action == register_action_of(candidate, state),
{
    match state {
        RegisterState::AwaitingLookup => RegisterAction::Lookup,
        RegisterState::AwaitingInsert => RegisterAction::Insert { page_id: candidate },
        RegisterState::AwaitingReread => RegisterAction::Lookup,
        RegisterState::Finished(result) => RegisterAction::Finish(result),
    }
}

/// Takes up a registration: the state it starts in and the first thing to do.
pub fn begin_registration(candidate: u128) -> (started: (RegisterState, RegisterAction))
    ensures
        started.0 == RegisterState::AwaitingLookup,
        started.1 == register_action_of(candidate, started.0),
{
    (RegisterState::AwaitingLookup, RegisterAction::Lookup)
}

/// Moves a registration on by one event: the state that follows and what is
/// to be done in it.
pub fn advance_registration(candidate: u128, state: RegisterState, event: RegisterEvent) -> (moved: (
    RegisterState,
    RegisterAction,
))
    ensures
        moved.0 == next_register_state(candidate, state, event),
        moved.1 == register_action_of(candidate, moved.0),
{
    let next = match state {
        RegisterState::AwaitingLookup => match event {
            RegisterEvent::Found(id) => RegisterState::Finished(Ok(id)),
            RegisterEvent::Missing => RegisterState::AwaitingInsert,
            RegisterEvent::StoreFailed => RegisterState::Finished(Err(Error::StoreUnavailable)),
            _ => state,
        },
        RegisterState::AwaitingInsert => match event {
            RegisterEvent::Inserted => RegisterState::Finished(Ok(candidate)),
            RegisterEvent::RaceLost => RegisterState::AwaitingReread,
            RegisterEvent::StoreFailed => RegisterState::Finished(Err(Error::StoreUnavailable)),
            _ => state,
        },
        RegisterState::AwaitingReread => match event {
            RegisterEvent::Found(id) => RegisterState::Finished(Ok(id)),
            RegisterEvent::Missing => RegisterState::Finished(Err(Error::StoreUnavailable)),
            RegisterEvent::StoreFailed => RegisterState::Finished(Err(Error::StoreUnavailable)),
            _ => state,
        },
        RegisterState::Finished(_) => state,
    };
    (next, register_pending(candidate, next))
}

/// The identifier of the page that `pages` files under `url`, where there is
/// one; in a consistent store there is no second.
pub open spec fn id_of(pages: Map<u128, PageRecord>, url: Seq<char>) -> u128 {
    choose|id: u128| filed_under(pages, url, id)
}

/// What filing `url` with the fresh identifier `candidate` answers on
/// `pages`: the identifier the URL already has, else the candidate, unless
/// the candidate is the identifier of another page.
pub open spec fn file_result(pages: Map<u128, PageRecord>, url: Seq<char>, candidate: u128) -> Result<
    u128,
    Error,
> {
    if has_url(pages, url) {
        Ok(id_of(pages, url))
    } else if pages.contains_key(candidate) {
        Err(Error::StoreUnavailable)
    } else {
        Ok(candidate)
    }
}

/// What the store holds after filing `url` with the fresh identifier
/// `candidate`: one more page where the URL and the candidate were both new,
/// and what it held before in every other case.
pub open spec fn pages_after_file(
    pages: Map<u128, PageRecord>,
    url: Seq<char>,
    candidate: u128,
) -> Map<u128, PageRecord> {
    if !has_url(pages, url) && !pages.contains_key(candidate) {
        with_page(pages, candidate, url)
    } else {
        pages
    }
}

/// What `hits_of` answers for a canonical URL: the hits of its page, or
/// `NotFound` where no page is filed under it.
pub open spec fn hits_answer(pages: Map<u128, PageRecord>, url: Seq<char>, r: Result<Hits, Error>) -> bool {
    match r {
        Ok(hits) => has_url(pages, url) && reports(hits, pages[id_of(pages, url)])
            && hits.well_formed(),
        Err(e) => !has_url(pages, url) && e == Error::NotFound,
    }
}

/// In a consistent store the page of a URL is the one found.
pub proof fn lemma_id_of(pages: Map<u128, PageRecord>, url: Seq<char>, id: u128)
    requires
        consistent(pages),
        filed_under(pages, url, id),
    ensures
        has_url(pages, url),
        id_of(pages, url) == id,
{
    let chosen = id_of(pages, url);
    assert(filed_under(pages, url, chosen));
}

/// How far the store has come when the registration stands in `state`.
spec fn register_on_course(
    url: Seq<char>,
    candidate: u128,
    state: RegisterState,
    before: Map<u128, PageRecord>,
    pages: Map<u128, PageRecord>,
) -> bool {
    match state {
        RegisterState::AwaitingLookup => pages == before,
        RegisterState::AwaitingInsert => pages == before && !has_url(before, url),
        RegisterState::AwaitingReread => {
            &&& pages == before
            &&& !has_url(before, url)
            &&& before.contains_key(candidate)
        },
        RegisterState::Finished(result) => {
            &&& result == file_result(before, url, candidate)
            &&& pages == pages_after_file(before, url, candidate)
        },
    }
}

impl PageStore {
    /// Files the canonical URL `address`: returns the identifier of the page
    /// the URL already has and changes nothing, or files a new page without
    /// hits as `candidate` and returns that.
    ///
    /// A candidate that is the identifier of another page is refused by the
    /// store; the registration then fails with `StoreUnavailable` and changes
    /// nothing. `RaceLost` is never handed out.
    pub fn file(&mut self, address: &str, candidate: u128) -> (result: Result<u128, Error>)
        requires
            old(self).well_formed(),
        ensures
            final(self).well_formed(),
            result == file_result(old(self)@, address@, candidate),
            final(self)@ == pages_after_file(old(self)@, address@, candidate),
            result matches Ok(id) ==> filed_under(final(self)@, address@, id),
    {
        let ghost before = self@;
        proof {
            self.lemma_consistent();
        }
        let started = begin_registration(candidate);
        let mut state = started.0;
        let mut action = started.1;
        loop
            invariant
                self.well_formed(),
                before == old(self)@,
                consistent(before),
                action == register_action_of(candidate, state),
                register_on_course(address@, candidate, state, before, self@),
            decreases register_steps_left(state),
        {
            let event = match action {
                RegisterAction::Finish(result) => {
                    proof {
                        if has_url(before, address@) {
                            assert(filed_under(before, address@, id_of(before, address@)));
                        }
                    }
                    return result;
                },
                RegisterAction::Lookup => match self.lookup(address) {
                    Some(id) => {
                        proof {
                            lemma_id_of(before, address@, id);
                        }
                        RegisterEvent::Found(id)
                    },
                    None => RegisterEvent::Missing,
                },
                RegisterAction::Insert { page_id } => match self.insert(address, page_id) {
                    Ok(_) => RegisterEvent::Inserted,
                    Err(Error::RaceLost) => RegisterEvent::RaceLost,
                    Err(_) => RegisterEvent::StoreFailed,
                },
            };
            let moved = advance_registration(candidate, state, event);
            state = moved.0;
            action = moved.1;
        }
    }

    /// Registers a URL and returns the identifier of its page.
    ///
    /// A URL that does not parse as an absolute URL is `InvalidInput`, and
    /// the store is not touched. Otherwise the URL is filed under its
    /// canonical spelling, with an identifier drawn at random for the case
    /// that the URL is new: the result is that of `file` for some random
    /// identifier.
    pub fn register(&mut self, url: &str) -> (result: Result<u128, Error>)
        requires
            old(self).well_formed(),
        ensures
            final(self).well_formed(),
            match canonical_form(url@) {
                None => result == Err::<u128, Error>(Error::InvalidInput) && final(self)@ == old(
                    self,
                )@,
                Some(address) => exists|candidate: u128|
                    {
                        &&& is_random_id(candidate)
                        &&& result == #[trigger] file_result(old(self)@, address, candidate)
                        &&& final(self)@ == pages_after_file(old(self)@, address, candidate)
                    },
            },
    {
        match canonical_url(url) {
            Err(e) => Err(e),
            Ok(address) => {
                let candidate = random_page_id();
                self.file(address.as_str(), candidate)
            },
        }
    }

    /// The hits of the page filed under the canonical URL `address`, or
    /// `NotFound` where there is none.
    pub fn hits_of_address(&self, address: &str) -> (result: Result<Hits, Error>)
        requires
            self.well_formed(),
        ensures
            hits_answer(self@, address@, result),
    {
        proof {
            self.lemma_consistent();
        }
        match self.lookup(address) {
            None => Err(Error::NotFound),
            Some(id) => {
                proof {
                    lemma_id_of(self@, address@, id);
                }
                self.read(id)
            },
        }
    }

    /// The hits of the page registered for `url`.
    ///
    /// A URL that does not parse as an absolute URL is `InvalidInput`; a URL
    /// that no page is registered for is `NotFound`.
    pub fn hits_of(&self, url: &str) -> (result: Result<Hits, Error>)
        requires
            self.well_formed(),
        ensures
            match canonical_form(url@) {
                None => result is Err && result->Err_0 == Error::InvalidInput,
                Some(address) => hits_answer(self@, address, result),
            },
    {
        match canonical_url(url) {
            Err(e) => Err(e),
            Ok(address) => self.hits_of_address(address.as_str()),
        }
    }
}

} // verus!
