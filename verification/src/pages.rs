//! The page store: every registered page with its URL, its hit counter and
//! the times of its counted hits.

use vstd::prelude::*;
use crate::error::Error;

verus! {

/// The hits of one page, as a query is answered.
#[derive(Debug, PartialEq, Eq)]
pub struct Hits {
    /// How many hits were counted.
    pub n: i32,
    /// When each of them arrived, in seconds since the epoch, oldest first.
    pub timestamps: Vec<i64>,
}

impl Hits {
    /// There is one arrival time for every counted hit.
    pub open spec fn well_formed(&self) -> bool {
        self.n >= 0 && self.timestamps@.len() == self.n
    }

    /// The report for a stored row whose list of times may be missing: a
    /// missing list stands for no times at all.
    pub fn from_row(n: i32, timestamps: Option<Vec<i64>>) -> (hits: Hits)
        ensures
            hits.n == n,
            hits.timestamps@ == match timestamps {
                Some(times) => times@,
                None => Seq::<i64>::empty(),
            },
    {
        match timestamps {
            Some(times) => Hits { n, timestamps: times },
            None => Hits { n, timestamps: Vec::new() },
        }
    }
}

/// What the store holds for one page.
pub ghost struct PageRecord {
    /// The canonical URL the page is filed under.
    pub url: Seq<char>,
    /// How many hits were counted.
    pub hit_count: int,
    /// When each of them arrived, oldest first.
    pub hit_timestamps: Seq<i64>,
}

/// The page `id` is registered in `pages` under `url`.
pub open spec fn filed_under(pages: Map<u128, PageRecord>, url: Seq<char>, id: u128) -> bool {
    pages.contains_key(id) && pages[id].url == url
}

/// Some page is registered in `pages` under `url`.
pub open spec fn has_url(pages: Map<u128, PageRecord>, url: Seq<char>) -> bool {
    exists|id: u128| filed_under(pages, url, id)
}

/// The store's invariant: every page has one arrival time per counted hit,
/// and no URL is filed twice.
pub open spec fn consistent(pages: Map<u128, PageRecord>) -> bool {
    &&& forall|id: u128| #[trigger]
        pages.contains_key(id) ==> 0 <= pages[id].hit_count == pages[id].hit_timestamps.len()
    &&& forall|a: u128, b: u128|
        pages.contains_key(a) && pages.contains_key(b) && pages[a].url == pages[b].url ==> a == b
}

/// `pages` with a new page `id` under `url`, which has no hits yet.
pub open spec fn with_page(pages: Map<u128, PageRecord>, id: u128, url: Seq<char>) -> Map<
    u128,
    PageRecord,
> {
    pages.insert(id, PageRecord { url, hit_count: 0, hit_timestamps: Seq::empty() })
}

/// `pages` with one more hit for the page `id`, which arrived at `at_time`.
pub open spec fn with_hit(pages: Map<u128, PageRecord>, id: u128, at_time: i64) -> Map<
    u128,
    PageRecord,
> {
    pages.insert(
        id,
        PageRecord {
            url: pages[id].url,
            hit_count: pages[id].hit_count + 1,
            hit_timestamps: pages[id].hit_timestamps.push(at_time),
        },
    )
}

/// One stored page.
struct Page {
    page_id: u128,
    url: String,
    hit_count: i32,
    hit_timestamps: Vec<i64>,
}

impl Page {
    spec fn record(&self) -> PageRecord {
        PageRecord {
            url: self.url@,
            hit_count: self.hit_count as int,
            hit_timestamps: self.hit_timestamps@,
        }
    }
}

/// Whether row `i` of `rows` is the page `id`.
spec fn row_of(rows: Seq<Page>, i: int, id: u128) -> bool {
    0 <= i < rows.len() && rows[i].page_id == id
}

/// The row of `rows` that is the page `id`, where there is one.
spec fn row_index(rows: Seq<Page>, id: u128) -> int {
    choose|i: int| row_of(rows, i, id)
}

/// The rows hold what a table with a primary key on the identifier and a
/// uniqueness constraint on the URL can hold, and every counter is in step
/// with its list of times.
spec fn rows_valid(rows: Seq<Page>) -> bool {
    &&& forall|i: int, j: int| 0 <= i < j < rows.len() ==> rows[i].page_id != rows[j].page_id
    &&& forall|i: int, j: int| 0 <= i < j < rows.len() ==> rows[i].url@ != rows[j].url@
    &&& forall|i: int|
        0 <= i < rows.len() ==> 0 <= #[trigger] rows[i].hit_count
            == rows[i].hit_timestamps@.len()
}

/// The pages that `rows` holds, by identifier.
spec fn table(rows: Seq<Page>) -> Map<u128, PageRecord> {
    Map::new(
        |id: u128| exists|i: int| row_of(rows, i, id),
        |id: u128| rows[row_index(rows, id)].record(),
    )
}

/// With valid rows, the row of a page is the one found.
proof fn lemma_row_found(rows: Seq<Page>, i: int, id: u128)
    requires
        rows_valid(rows),
        row_of(rows, i, id),
    ensures
        table(rows).contains_key(id),
        row_index(rows, id) == i,
        table(rows)[id] == rows[i].record(),
{
    let c = row_index(rows, id);
    assert(row_of(rows, c, id));
    if c < i {
        assert(false);
    }
    if i < c {
        assert(false);
    }
}

/// Valid rows make a consistent table.
proof fn lemma_table_consistent(rows: Seq<Page>)
    requires
        rows_valid(rows),
    ensures
        consistent(table(rows)),
{
    let pages = table(rows);
    assert forall|id: u128| #[trigger] pages.contains_key(id) implies 0 <= pages[id].hit_count
        == pages[id].hit_timestamps.len() by {
        let i = row_index(rows, id);
        assert(row_of(rows, i, id));
        assert(0 <= rows[i].hit_count == rows[i].hit_timestamps@.len());
    }
    assert forall|a: u128, b: u128|
        pages.contains_key(a) && pages.contains_key(b) && pages[a].url == pages[b].url implies a
        == b by {
        let i = row_index(rows, a);
        let j = row_index(rows, b);
        assert(row_of(rows, i, a));
        assert(row_of(rows, j, b));
        if i < j {
            assert(rows[i].url@ != rows[j].url@);
        }
        if j < i {
            assert(rows[j].url@ != rows[i].url@);
        }
    }
}

/// What `increment` answers for the page `id` of `pages`.
pub open spec fn increment_result(pages: Map<u128, PageRecord>, id: u128) -> Result<(), Error> {
    if !pages.contains_key(id) {
        Err(Error::NotFound)
    } else if pages[id].hit_count >= i32::MAX {
        Err(Error::StoreUnavailable)
    } else {
        Ok(())
    }
}

/// `hits` says exactly what `record` holds.
pub open spec fn reports(hits: Hits, record: PageRecord) -> bool {
    hits.n == record.hit_count && hits.timestamps@ == record.hit_timestamps
}

/// Appending the row of a page that was not stored adds that page alone.
proof fn lemma_table_pushed(before: Seq<Page>, after: Seq<Page>, id: u128)
    requires
        rows_valid(before),
        rows_valid(after),
        after.len() == before.len() + 1,
        forall|i: int| 0 <= i < before.len() ==> after[i] == before[i],
        after[before.len() as int].page_id == id,
    ensures
        table(after) == table(before).insert(id, after[before.len() as int].record()),
{
    let n = before.len() as int;
    let wanted = table(before).insert(id, after[n].record());
    assert forall|k: u128| #[trigger] table(after).contains_key(k) == wanted.contains_key(k) by {
        if table(after).contains_key(k) {
            let r = row_index(after, k);
            if r < n {
                assert(row_of(before, r, k));
            }
        }
        if table(before).contains_key(k) {
            let r = row_index(before, k);
            assert(row_of(after, r, k));
        }
        if k == id {
            assert(row_of(after, n, k));
        }
    }
    assert forall|k: u128| #[trigger] table(after).contains_key(k) implies table(after)[k]
        == wanted[k] by {
        let r = row_index(after, k);
        assert(row_of(after, r, k));
        lemma_row_found(after, r, k);
        if k == id {
            lemma_row_found(after, n, k);
        } else {
            assert(row_of(before, r, k));
            lemma_row_found(before, r, k);
        }
    }
    assert(table(after) =~= wanted);
}

/// With valid rows there are as many pages as rows.
proof fn lemma_table_len(rows: Seq<Page>)
    requires
        rows_valid(rows),
    ensures
        table(rows).dom().finite(),
        table(rows).dom().len() == rows.len(),
    decreases rows.len(),
{
    if rows.len() == 0 {
        assert(table(rows).dom() =~= Set::<u128>::empty());
    } else {
        let front = rows.drop_last();
        let n = front.len() as int;
        let id = rows[n].page_id;
        assert(rows_valid(front)) by {
            assert forall|i: int| 0 <= i < front.len() implies 0 <= #[trigger] front[i].hit_count
                == front[i].hit_timestamps@.len() by {
                assert(0 <= rows[i].hit_count == rows[i].hit_timestamps@.len());
            }
        }
        lemma_table_len(front);
        lemma_table_pushed(front, rows, id);
        assert(!table(front).contains_key(id)) by {
            if table(front).contains_key(id) {
                let r = row_index(front, id);
                assert(row_of(front, r, id));
                assert(rows[r].page_id != rows[n].page_id);
            }
        }
        assert(table(rows).dom() =~= table(front).dom().insert(id));
    }
}

/// Rewriting the row of a stored page, identifier kept, changes the record
/// of that page alone.
proof fn lemma_table_updated(before: Seq<Page>, after: Seq<Page>, i: int)
    requires
        rows_valid(before),
        rows_valid(after),
        after.len() == before.len(),
        0 <= i < before.len(),
        forall|j: int| 0 <= j < before.len() && j != i ==> after[j] == before[j],
        after[i].page_id == before[i].page_id,
    ensures
        table(after) == table(before).insert(before[i].page_id, after[i].record()),
{
    let id = before[i].page_id;
    let wanted = table(before).insert(id, after[i].record());
    assert forall|k: u128| #[trigger] table(after).contains_key(k) == wanted.contains_key(k) by {
        if table(after).contains_key(k) {
            let r = row_index(after, k);
            assert(row_of(before, r, k));
        }
        if table(before).contains_key(k) {
            let r = row_index(before, k);
            assert(row_of(after, r, k));
        }
        if k == id {
            assert(row_of(after, i, k));
        }
    }
    assert forall|k: u128| #[trigger] table(after).contains_key(k) implies table(after)[k]
        == wanted[k] by {
        let r = row_index(after, k);
        assert(row_of(after, r, k));
        lemma_row_found(after, r, k);
        if k == id {
            lemma_row_found(after, i, k);
        } else {
            assert(row_of(before, r, k));
            lemma_row_found(before, r, k);
        }
    }
    assert(table(after) =~= wanted);
}

/// The page store. Its view maps the identifier of every registered page to
/// the page's record.
pub struct PageStore {
    rows: Vec<Page>,
}

impl View for PageStore {
    type V = Map<u128, PageRecord>;

    closed spec fn view(&self) -> Map<u128, PageRecord> {
        table(self.rows@)
    }
}

impl PageStore {
    /// No identifier and no URL is stored twice, and every counter is in step
    /// with its list of times.
    pub closed spec fn well_formed(&self) -> bool {
        rows_valid(self.rows@)
    }

    /// A well-formed store holds a consistent set of pages.
    pub proof fn lemma_consistent(&self)
        requires
            self.well_formed(),
        ensures
            consistent(self@),
    {
        lemma_table_consistent(self.rows@);
    }

    /// A store without pages.
    pub fn new() -> (store: PageStore)
        ensures
            store.well_formed(),
            store@ == Map::<u128, PageRecord>::empty(),
    {
        let store = PageStore { rows: Vec::new() };
        assert(store@ =~= Map::<u128, PageRecord>::empty());
        store
    }

    /// How many pages are registered.
    pub fn len(&self) -> (n: usize)
        requires
            self.well_formed(),
        ensures
            self@.dom().finite(),
            n == self@.dom().len(),
    {
        proof {
            lemma_table_len(self.rows@);
        }
        self.rows.len()
    }

    /// The row of the page `page_id`, if it is stored.
    fn find_id(&self, page_id: u128) -> (found: Option<usize>)
        ensures
            match found {
                Some(i) => row_of(self.rows@, i as int, page_id),
                None => forall|i: int| !row_of(self.rows@, i, page_id),
            },
    {
        let mut i: usize = 0;
        while i < self.rows.len()
            invariant
                i <= self.rows@.len(),
                forall|j: int| 0 <= j < i ==> !row_of(self.rows@, j, page_id),
            decreases self.rows@.len() - i,
        {
            if self.rows[i].page_id == page_id {
                return Some(i);
            }
            i += 1;
        }
        None
    }

    /// The row of the page filed under `url`, if there is one.
    fn find_url(&self, url: &String) -> (found: Option<usize>)
        ensures
            match found {
                Some(i) => 0 <= i < self.rows@.len() && self.rows@[i as int].url@ == url@,
                None => forall|i: int| 0 <= i < self.rows@.len() ==> self.rows@[i].url@ != url@,
            },
    {
        let mut i: usize = 0;
        while i < self.rows.len()
            invariant
                i <= self.rows@.len(),
                forall|j: int| 0 <= j < i ==> self.rows@[j].url@ != url@,
            decreases self.rows@.len() - i,
        {
            if self.rows[i].url == *url {
                return Some(i);
            }
            i += 1;
        }
        None
    }

    /// The identifier of the page filed under the canonical URL `url`.
    pub fn lookup(&self, url: &str) -> (found: Option<u128>)
        requires
            self.well_formed(),
        ensures
            match found {
                Some(id) => filed_under(self@, url@, id),
                None => !has_url(self@, url@),
            },
    {
        let wanted = url.to_owned();
        match self.find_url(&wanted) {
            Some(i) => {
                let id = self.rows[i].page_id;
                proof {
                    assert(row_of(self.rows@, i as int, id));
                    lemma_row_found(self.rows@, i as int, id);
                }
                Some(id)
            },
            None => {
                proof {
                    assert forall|id: u128| !filed_under(self@, url@, id) by {
                        if self@.contains_key(id) {
                            let r = row_index(self.rows@, id);
                            assert(row_of(self.rows@, r, id));
                        }
                    }
                }
                None
            },
        }
    }

    /// Files a new page without hits under the canonical URL `url`, as the
    /// page `page_id`. The store keeps URLs and identifiers unique: where
    /// either is taken the insert loses with `RaceLost` and changes nothing.
    pub fn insert(&mut self, url: &str, page_id: u128) -> (r: Result<(), Error>)
        requires
            old(self).well_formed(),
        ensures
            final(self).well_formed(),
            has_url(old(self)@, url@) || old(self)@.contains_key(page_id) ==> r == Err::<(), Error>(
                Error::RaceLost,
            ) && final(self)@ == old(self)@,
            !has_url(old(self)@, url@) && !old(self)@.contains_key(page_id) ==> r == Ok::<
                (),
                Error,
            >(()) && final(self)@ == with_page(old(self)@, page_id, url@),
    {
        let ghost before = self.rows@;
        let owned = url.to_owned();
        match self.find_url(&owned) {
            Some(i) => {
                proof {
                    let id = before[i as int].page_id;
                    assert(row_of(before, i as int, id));
                    lemma_row_found(before, i as int, id);
                    assert(filed_under(self@, url@, id));
                }
                return Err(Error::RaceLost);
            },
            None => {},
        }
        proof {
            assert forall|id: u128| !filed_under(self@, url@, id) by {
                if self@.contains_key(id) {
                    let r = row_index(before, id);
                    assert(row_of(before, r, id));
                }
            }
        }
        match self.find_id(page_id) {
            Some(i) => {
                proof {
                    lemma_row_found(before, i as int, page_id);
                }
                return Err(Error::RaceLost);
            },
            None => {},
        }
        self.rows.push(Page { page_id, url: owned, hit_count: 0, hit_timestamps: Vec::new() });
        proof {
            let after = self.rows@;
            let n = before.len() as int;
            assert(rows_valid(after)) by {
                assert forall|i: int, j: int| 0 <= i < j < after.len() implies after[i].page_id
                    != after[j].page_id by {
                    if j == n {
                        assert(!row_of(before, i, page_id));
                    }
                }
                assert forall|i: int, j: int| 0 <= i < j < after.len() implies after[i].url@
                    != after[j].url@ by {
                    if j == n {
                        assert(before[i].url@ != url@);
                    }
                }
            }
            lemma_table_pushed(before, after, page_id);
        }
        Ok(())
    }

    /// Counts one more hit for the page `page_id`, arrived at `at_time`: the
    /// counter goes up by one and the time is appended, in one step.
    ///
    /// Fails with `NotFound` where the page is not stored, and with
    /// `StoreUnavailable` where the counter has no room for another hit;
    /// a failed increment changes nothing.
    pub fn increment(&mut self, page_id: u128, at_time: i64) -> (r: Result<(), Error>)
        requires
            old(self).well_formed(),
        ensures
            final(self).well_formed(),
            r == increment_result(old(self)@, page_id),
            final(self)@ == (if r is Ok {
                with_hit(old(self)@, page_id, at_time)
            } else {
                old(self)@
            }),
    {
        let ghost before = self.rows@;
        match self.find_id(page_id) {
            None => Err(Error::NotFound),
            Some(i) => {
                proof {
                    lemma_row_found(before, i as int, page_id);
                }
                if self.rows[i].hit_count == i32::MAX {
                    return Err(Error::StoreUnavailable);
                }
                let mut page = self.rows.remove(i);
                page.hit_timestamps.push(at_time);
                page.hit_count = page.hit_count + 1;
                self.rows.insert(i, page);
                proof {
                    let after = self.rows@;
                    assert(after.len() == before.len());
                    assert forall|j: int| 0 <= j < after.len() && j != i implies after[j]
                        == before[j] by {}
                    assert(after[i as int].page_id == page_id);
                    assert(after[i as int].url@ == before[i as int].url@);
                    assert(rows_valid(after));
                    lemma_table_updated(before, after, i as int);
                    assert(after[i as int].record() == with_hit(table(before), page_id, at_time)[page_id]);
                    assert(table(after) =~= with_hit(table(before), page_id, at_time));
                }
                Ok(())
            },
        }
    }

    /// The hits of the page `page_id`, or `NotFound` where it is not stored.
    pub fn read(&self, page_id: u128) -> (r: Result<Hits, Error>)
        requires
            self.well_formed(),
        ensures
            match r {
                Ok(hits) => self@.contains_key(page_id) && reports(hits, self@[page_id])
                    && hits.well_formed(),
                Err(e) => !self@.contains_key(page_id) && e == Error::NotFound,
            },
    {
        match self.find_id(page_id) {
            None => Err(Error::NotFound),
            Some(i) => {
                proof {
                    lemma_row_found(self.rows@, i as int, page_id);
                }
                let timestamps = self.rows[i].hit_timestamps.clone();
                Ok(Hits { n: self.rows[i].hit_count, timestamps })
            },
        }
    }
}

} // verus!
