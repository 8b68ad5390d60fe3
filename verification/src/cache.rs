//! The recent-visit cache: for each page and visitor, when the visitor was
//! last counted.

use vstd::prelude::*;

verus! {

/// One remembered visit.
#[derive(Clone, Copy)]
struct Visit {
    page_id: u128,
    visitor: u64,
    last_seen_at: u64,
}

/// Whether slot `i` of `entries` belongs to the visitor `key.1` of page `key.0`.
spec fn holds_at(entries: Seq<Visit>, i: int, key: (u128, u64)) -> bool {
    0 <= i < entries.len() && entries[i].page_id == key.0 && entries[i].visitor == key.1
}

/// The slot of `entries` that belongs to `key`, where there is one.
spec fn slot_of(entries: Seq<Visit>, key: (u128, u64)) -> int {
    choose|i: int| holds_at(entries, i, key)
}

/// No two slots of `entries` belong to the same page and visitor.
spec fn distinct_keys(entries: Seq<Visit>) -> bool {
    forall|i: int, j: int|
        0 <= i < j < entries.len() ==> !(entries[i].page_id == entries[j].page_id
            && entries[i].visitor == entries[j].visitor)
}

/// What `entries` remembers: the last counted time of each page and visitor.
spec fn remembered(entries: Seq<Visit>) -> Map<(u128, u64), u64> {
    Map::new(
        |key: (u128, u64)| exists|i: int| holds_at(entries, i, key),
        |key: (u128, u64)| entries[slot_of(entries, key)].last_seen_at,
    )
}

/// With distinct keys, the slot that belongs to a key is the one found.
proof fn lemma_slot_found(entries: Seq<Visit>, i: int, key: (u128, u64))
    requires
        distinct_keys(entries),
        holds_at(entries, i, key),
    ensures
        remembered(entries).contains_key(key),
        slot_of(entries, key) == i,
        remembered(entries)[key] == entries[i].last_seen_at,
{
    let c = slot_of(entries, key);
    assert(holds_at(entries, c, key));
    if c < i {
        assert(false);
    }
    if i < c {
        assert(false);
    }
}

/// When `cache` last counted the visitor for the page, if ever.
pub open spec fn last_seen(cache: Map<(u128, u64), u64>, page_id: u128, visitor: u64) -> Option<
    u64,
> {
    if cache.contains_key((page_id, visitor)) {
        Some(cache[(page_id, visitor)])
    } else {
        None
    }
}

/// Appending a slot for a page and visitor that had none adds that one
/// entry.
proof fn lemma_remembered_pushed(before: Seq<Visit>, after: Seq<Visit>)
    requires
        distinct_keys(before),
        after.len() == before.len() + 1,
        forall|i: int| 0 <= i < before.len() ==> after[i] == before[i],
        forall|i: int|
            !holds_at(before, i, (after[before.len() as int].page_id, after[before.len() as int].visitor)),
    ensures
        distinct_keys(after),
        remembered(after) == remembered(before).insert(
            (after[before.len() as int].page_id, after[before.len() as int].visitor),
            after[before.len() as int].last_seen_at,
        ),
        !remembered(before).contains_key(
            (after[before.len() as int].page_id, after[before.len() as int].visitor),
        ),
{
    let n = before.len() as int;
    let key = (after[n].page_id, after[n].visitor);
    let wanted = remembered(before).insert(key, after[n].last_seen_at);
    assert forall|a: int, b: int| 0 <= a < b < after.len() implies !(after[a].page_id
        == after[b].page_id && after[a].visitor == after[b].visitor) by {
        if b == n {
            assert(!holds_at(before, a, key));
        }
    }
    assert forall|k: (u128, u64)| #[trigger] remembered(after).contains_key(k) == wanted.contains_key(
        k,
    ) by {
        if remembered(after).contains_key(k) {
            let s = slot_of(after, k);
            if s < n {
                assert(holds_at(before, s, k));
            }
        }
        if remembered(before).contains_key(k) {
            let s = slot_of(before, k);
            assert(holds_at(after, s, k));
        }
        if k == key {
            assert(holds_at(after, n, k));
        }
    }
    assert forall|k: (u128, u64)| #[trigger] remembered(after).contains_key(k) implies remembered(
        after,
    )[k] == wanted[k] by {
        let s = slot_of(after, k);
        assert(holds_at(after, s, k));
        lemma_slot_found(after, s, k);
        if k == key {
            lemma_slot_found(after, n, k);
        } else {
            assert(holds_at(before, s, k));
            lemma_slot_found(before, s, k);
        }
    }
    assert(remembered(after) =~= wanted);
}

/// Rewriting the time in the slot of a page and visitor changes that one
/// entry.
proof fn lemma_remembered_rewritten(before: Seq<Visit>, after: Seq<Visit>, i: int)
    requires
        distinct_keys(before),
        after.len() == before.len(),
        0 <= i < before.len(),
        forall|j: int| 0 <= j < before.len() && j != i ==> after[j] == before[j],
        after[i].page_id == before[i].page_id,
        after[i].visitor == before[i].visitor,
    ensures
        distinct_keys(after),
        remembered(after) == remembered(before).insert(
            (after[i].page_id, after[i].visitor),
            after[i].last_seen_at,
        ),
{
    let key = (after[i].page_id, after[i].visitor);
    let wanted = remembered(before).insert(key, after[i].last_seen_at);
    assert forall|a: int, b: int| 0 <= a < b < after.len() implies !(after[a].page_id
        == after[b].page_id && after[a].visitor == after[b].visitor) by {
        assert(before[a].page_id == after[a].page_id);
        assert(before[b].page_id == after[b].page_id);
        assert(before[a].visitor == after[a].visitor);
        assert(before[b].visitor == after[b].visitor);
    }
    assert forall|k: (u128, u64)| #[trigger] remembered(after).contains_key(k) == wanted.contains_key(
        k,
    ) by {
        if remembered(after).contains_key(k) {
            let s = slot_of(after, k);
            assert(holds_at(before, s, k));
        }
        if remembered(before).contains_key(k) {
            let s = slot_of(before, k);
            assert(holds_at(after, s, k));
        }
        if k == key {
            assert(holds_at(after, i, k));
        }
    }
    assert forall|k: (u128, u64)| #[trigger] remembered(after).contains_key(k) implies remembered(
        after,
    )[k] == wanted[k] by {
        let s = slot_of(after, k);
        assert(holds_at(after, s, k));
        lemma_slot_found(after, s, k);
        if k == key {
            lemma_slot_found(after, i, k);
        } else {
            assert(holds_at(before, s, k));
            lemma_slot_found(before, s, k);
        }
    }
    assert(remembered(after) =~= wanted);
}

/// With distinct keys there are as many entries as slots.
proof fn lemma_remembered_len(entries: Seq<Visit>)
    requires
        distinct_keys(entries),
    ensures
        remembered(entries).dom().finite(),
        remembered(entries).dom().len() == entries.len(),
    decreases entries.len(),
{
    if entries.len() == 0 {
        assert(remembered(entries).dom() =~= Set::<(u128, u64)>::empty());
    } else {
        let front = entries.drop_last();
        let n = front.len() as int;
        let key = (entries[n].page_id, entries[n].visitor);
        assert(distinct_keys(front));
        lemma_remembered_len(front);
        assert forall|i: int| !holds_at(front, i, key) by {
            if holds_at(front, i, key) {
                assert(entries[i].page_id == entries[n].page_id);
            }
        }
        lemma_remembered_pushed(front, entries);
        assert(remembered(entries).dom() =~= remembered(front).dom().insert(key));
    }
}

/// A time that is older than `max_age` at `now`.
pub open spec fn stale(last_seen_at: u64, now: u64, max_age: u64) -> bool {
    now - last_seen_at > max_age
}

/// What is left of `cache` once every time that is older than `max_age` at
/// `now` is forgotten.
pub open spec fn without_stale(cache: Map<(u128, u64), u64>, now: u64, max_age: u64) -> Map<
    (u128, u64),
    u64,
> {
    Map::new(
        |key: (u128, u64)| cache.contains_key(key) && !stale(cache[key], now, max_age),
        |key: (u128, u64)| cache[key],
    )
}

/// `visit` is one of the slots of `kept`.
spec fn among(kept: Seq<Visit>, visit: Visit) -> bool {
    exists|k: int| 0 <= k < kept.len() && #[trigger] kept[k] == visit
}

/// `visit` is one of the first `upto` slots of `entries`, and not stale.
spec fn survivor(entries: Seq<Visit>, upto: int, visit: Visit, now: u64, max_age: u64) -> bool {
    exists|j: int|
        0 <= j < upto && !stale(entries[j].last_seen_at, now, max_age) && #[trigger] entries[j]
            == visit
}

/// `kept` holds the slots among the first `upto` of `entries` that are not
/// stale, and nothing else.
spec fn sifted(entries: Seq<Visit>, upto: int, kept: Seq<Visit>, now: u64, max_age: u64) -> bool {
    &&& forall|j: int|
        0 <= j < upto && !stale(entries[j].last_seen_at, now, max_age) ==> among(
            kept,
            #[trigger] entries[j],
        )
    &&& forall|k: int|
        0 <= k < kept.len() ==> survivor(entries, upto, #[trigger] kept[k], now, max_age)
}

/// Sifting all of a cache's slots leaves what `without_stale` describes.
proof fn lemma_sifted_view(entries: Seq<Visit>, kept: Seq<Visit>, now: u64, max_age: u64)
    requires
        distinct_keys(entries),
        distinct_keys(kept),
        sifted(entries, entries.len() as int, kept, now, max_age),
    ensures
        remembered(kept) == without_stale(remembered(entries), now, max_age),
{
    let wanted = without_stale(remembered(entries), now, max_age);
    assert forall|key: (u128, u64)| #[trigger]
        remembered(kept).contains_key(key) implies wanted.contains_key(key) && remembered(kept)[key]
        == wanted[key] by {
        let k = slot_of(kept, key);
        assert(holds_at(kept, k, key));
        lemma_slot_found(kept, k, key);
        assert(survivor(entries, entries.len() as int, kept[k], now, max_age));
        let j = choose|j: int|
            0 <= j < entries.len() && !stale(entries[j].last_seen_at, now, max_age)
                && #[trigger] entries[j] == kept[k];
        assert(holds_at(entries, j, key));
        lemma_slot_found(entries, j, key);
    }
    assert forall|key: (u128, u64)| #[trigger]
        wanted.contains_key(key) implies remembered(kept).contains_key(key) by {
        let j = slot_of(entries, key);
        assert(holds_at(entries, j, key));
        lemma_slot_found(entries, j, key);
        assert(!stale(entries[j].last_seen_at, now, max_age));
        assert(among(kept, entries[j]));
        let k = choose|k: int| 0 <= k < kept.len() && #[trigger] kept[k] == entries[j];
        assert(holds_at(kept, k, key));
    }
    assert(remembered(kept) =~= wanted);
}

/// The recent-visit cache. Its view maps a page identifier and a hashed
/// visitor identity to the time the visitor was last counted for the page.
///
/// An entry is never trusted for being there: whether a visit is still open
/// is judged from the remembered time when it is read.
pub struct VisitCache {
    entries: Vec<Visit>,
}

impl View for VisitCache {
    type V = Map<(u128, u64), u64>;

    closed spec fn view(&self) -> Map<(u128, u64), u64> {
        remembered(self.entries@)
    }
}

impl VisitCache {
    /// Every page and visitor is remembered in one place only.
    pub closed spec fn well_formed(&self) -> bool {
        distinct_keys(self.entries@)
    }

    /// A cache that remembers nobody.
    pub fn new() -> (cache: VisitCache)
        ensures
            cache.well_formed(),
            cache@ == Map::<(u128, u64), u64>::empty(),
    {
        let cache = VisitCache { entries: Vec::new() };
        assert(cache@ =~= Map::<(u128, u64), u64>::empty());
        cache
    }

    /// The slot that holds the visitor of the page, if there is one.
    fn find(&self, page_id: u128, visitor: u64) -> (found: Option<usize>)
        ensures
            match found {
                Some(i) => holds_at(self.entries@, i as int, (page_id, visitor)),
                None => forall|i: int| !holds_at(self.entries@, i, (page_id, visitor)),
            },
    {
        let mut i: usize = 0;
        while i < self.entries.len()
            invariant
                i <= self.entries@.len(),
                forall|j: int| 0 <= j < i ==> !holds_at(self.entries@, j, (page_id, visitor)),
            decreases self.entries@.len() - i,
        {
            if self.entries[i].page_id == page_id && self.entries[i].visitor == visitor {
                return Some(i);
            }
            i += 1;
        }
        None
    }

    /// When the visitor was last counted for the page, if ever.
    pub fn get(&self, page_id: u128, visitor: u64) -> (seen: Option<u64>)
        requires
            self.well_formed(),
        ensures
            seen == last_seen(self@, page_id, visitor),
    {
        match self.find(page_id, visitor) {
            Some(i) => {
                proof {
                    lemma_slot_found(self.entries@, i as int, (page_id, visitor));
                }
                Some(self.entries[i].last_seen_at)
            },
            None => None,
        }
    }

    /// Remembers that the visitor was counted for the page at `last_seen_at`,
    /// whatever was remembered before.
    pub fn set(&mut self, page_id: u128, visitor: u64, last_seen_at: u64)
        requires
            old(self).well_formed(),
        ensures
            final(self).well_formed(),
            final(self)@ == old(self)@.insert((page_id, visitor), last_seen_at),
    {
        let ghost before = self.entries@;
        let entry = Visit { page_id, visitor, last_seen_at };
        match self.find(page_id, visitor) {
            Some(i) => {
                self.entries.set(i, entry);
                proof {
                    lemma_remembered_rewritten(before, self.entries@, i as int);
                }
            },
            None => {
                self.entries.push(entry);
                proof {
                    lemma_remembered_pushed(before, self.entries@);
                }
            },
        }
    }

    /// How many visitors the cache remembers, over all pages.
    pub fn len(&self) -> (n: usize)
        requires
            self.well_formed(),
        ensures
            self@.dom().finite(),
            n == self@.dom().len(),
    {
        proof {
            lemma_remembered_len(self.entries@);
        }
        self.entries.len()
    }

    /// Forgets every visitor whose remembered time is older than `max_age`
    /// at `now`, to bound what the cache holds.
    ///
    /// Nothing is ever decided from an entry being absent after this: with a
    /// `max_age` of at least the visit window, a forgotten visitor would have
    /// been counted anyway at `now` or later.
    pub fn evict_older_than(&mut self, now: u64, max_age: u64)
        requires
            old(self).well_formed(),
        ensures
            final(self).well_formed(),
            final(self)@ == without_stale(old(self)@, now, max_age),
    {
        let ghost before = self.entries@;
        let mut kept: Vec<Visit> = Vec::new();
        let mut i: usize = 0;
        while i < self.entries.len()
            invariant
                i <= self.entries@.len(),
                self.entries@ == before,
                distinct_keys(before),
                distinct_keys(kept@),
                sifted(before, i as int, kept@, now, max_age),
            decreases self.entries@.len() - i,
        {
            let entry = self.entries[i];
            let ghost kept_before = kept@;
            if !(now > entry.last_seen_at && now - entry.last_seen_at > max_age) {
                kept.push(entry);
                proof {
                    let n = kept_before.len() as int;
                    assert forall|a: int, b: int| 0 <= a < b < kept@.len() implies !(kept@[a].page_id
                        == kept@[b].page_id && kept@[a].visitor == kept@[b].visitor) by {
                        if b == n {
                            assert(survivor(before, i as int, kept_before[a], now, max_age));
                        }
                    }
                    assert(kept@[n] == before[i as int]);
                }
            }
            proof {
                assert forall|j: int|
                    0 <= j < i + 1 && !stale(before[j].last_seen_at, now, max_age) implies among(
                    kept@,
                    #[trigger] before[j],
                ) by {
                    if j < i {
                        assert(among(kept_before, before[j]));
                        let k = choose|k: int|
                            0 <= k < kept_before.len() && #[trigger] kept_before[k] == before[j];
                        assert(kept@[k] == before[j]);
                    } else {
                        assert(kept@[kept_before.len() as int] == before[j]);
                    }
                }
                assert forall|k: int| 0 <= k < kept@.len() implies survivor(
                    before,
                    i + 1,
                    #[trigger] kept@[k],
                    now,
                    max_age,
                ) by {
                    if k < kept_before.len() {
                        assert(survivor(before, i as int, kept_before[k], now, max_age));
                        let j = choose|j: int|
                            0 <= j < i && !stale(before[j].last_seen_at, now, max_age)
                                && #[trigger] before[j] == kept_before[k];
                        assert(before[j] == kept@[k]);
                    } else {
                        assert(before[i as int] == kept@[k]);
                    }
                }
            }
            i += 1;
        }
        proof {
            lemma_sifted_view(before, kept@, now, max_age);
        }
        self.entries = kept;
    }
}

} // verus!
