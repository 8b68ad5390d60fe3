use jhm::cache::VisitCache;
use jhm::engine::record_visit;
use jhm::error::Error;
use jhm::pages::{Hits, PageStore};
use jhm::policy::VisitOutcome;

// Every visit lasts one second here: a visitor is counted again once more
// than a second has passed since the last counted hit.
const VISIT: u64 = 1;

const PAGE: u128 = 0x67e5_5044_10b1_426f_9247_bb68_0e5f_e0c8;

const VISITOR: u64 = 0x5eed;

fn count_of(store: &PageStore, page_id: u128) -> i32 {
    store.read(page_id).expect("the page is registered").n
}

#[test]
fn hit_increment_works() {
    for n_hits in 0..5u64 {
        let mut cache = VisitCache::new();
        let mut store = PageStore::new();
        assert_eq!(store.insert("https://example.com", PAGE), Ok(()));

        let mut now = 1_700_000_000u64;
        for _ in 0..n_hits {
            let outcome = record_visit(&mut cache, &mut store, PAGE, VISITOR, now, VISIT);
            assert!(outcome.is_ok());
            now += 2;
        }

        assert_eq!(count_of(&store, PAGE), n_hits as i32);
    }
}

#[test]
fn register_and_hit_works() {
    const URL: &str = "https://example.com/";
    for n_hits in 0..5u64 {
        let mut cache = VisitCache::new();
        let mut store = PageStore::new();
        let page_id = store.register(URL).unwrap();

        let mut now = 1_700_000_000u64;
        for _ in 0..n_hits {
            let outcome = record_visit(&mut cache, &mut store, page_id, VISITOR, now, VISIT);
            assert!(outcome.is_ok());
            now += 2;
        }

        assert_eq!(count_of(&store, page_id), n_hits as i32);
    }
}

#[test]
fn ignoring_hits_during_a_single_visit_works() {
    // The page is loaded several times in a row, without any delay: only
    // one hit is counted for the whole visit.
    for n_hits in 1..4u64 {
        let mut cache = VisitCache::new();
        let mut store = PageStore::new();
        assert_eq!(store.insert("https://example.com", PAGE), Ok(()));

        let now = 1_700_000_000u64;
        for _ in 0..n_hits {
            let outcome = record_visit(&mut cache, &mut store, PAGE, VISITOR, now, VISIT);
            assert!(outcome.is_ok());
        }

        assert_eq!(count_of(&store, PAGE), 1);
    }
}

#[test]
fn get_number_of_hits_works() {
    let n_hits = 127;

    // A stored row that has a counter and no list of times yet.
    let hits = Hits::from_row(n_hits, None);
    assert_eq!(hits.n, n_hits);
    assert!(hits.timestamps.is_empty());

    let hits = Hits::from_row(2, Some(vec![1_700_000_000, 1_700_000_002]));
    assert_eq!(hits.n, 2);
    assert_eq!(hits.timestamps, vec![1_700_000_000i64, 1_700_000_002]);
}

#[test]
fn register_400s_on_missing_data() {
    let mut store = PageStore::new();
    let refused = store.register("");

    assert_eq!(refused, Err(Error::InvalidInput));
    assert!(Error::InvalidInput.is_client_error());
    assert_eq!(store.len(), 0);
}

#[test]
fn register_400s_on_malformed_data() {
    let mut store = PageStore::new();
    let refused = store.register("This is not a valid URL.");

    assert_eq!(refused, Err(Error::InvalidInput));
    assert!(Error::InvalidInput.is_client_error());
    assert_eq!(store.len(), 0);
}

#[test]
fn register_creates_and_returns_a_page() {
    const URL: &str = "https://example.com/";
    let mut store = PageStore::new();
    let page_id = store.register(URL).unwrap();

    assert_eq!(
        store.lookup(URL),
        Some(page_id),
        "Stored URL should be the same as the transmitted URL"
    );
    let hits = store.read(page_id).unwrap();
    assert_eq!(hits.n, 0);
    assert!(hits.timestamps.is_empty());
    assert_eq!(store.len(), 1);
}

#[test]
fn register_creates_each_url_only_once() {
    const URL1: &str = "https://example1.com/";
    const URL2: &str = "https://example2.com/";

    let mut store = PageStore::new();

    // First URL, first request.
    let page1_id1 = store.register(URL1).unwrap();

    // Same URL, second request.
    let page1_id2 = store.register(URL1).unwrap();

    // URL1 should have the same page ID each time.
    assert_eq!(page1_id1, page1_id2);

    // Second URL, first request.
    let page2_id1 = store.register(URL2).unwrap();

    // Second URL, second request.
    let page2_id2 = store.register(URL2).unwrap();

    // Again, the same URL should have the same page ID.
    assert_eq!(page2_id1, page2_id2);

    // Different pages should have different IDs.
    assert_ne!(page1_id1, page2_id1);

    assert_eq!(store.len(), 2);
}

#[test]
fn scenario_register_hit_and_query() {
    let visit_window = 12 * 60 * 60u64;
    let mut cache = VisitCache::new();
    let mut store = PageStore::new();

    let page_id = store.register("https://example.com/").unwrap();

    // Five signals of one visitor, twice the window apart: all count.
    let mut now = 1_700_000_000u64;
    for _ in 0..5 {
        assert_eq!(
            record_visit(&mut cache, &mut store, page_id, VISITOR, now, visit_window),
            Ok(VisitOutcome::Counted)
        );
        now += 2 * visit_window;
    }
    assert_eq!(store.hits_of("https://example.com/").unwrap().n, 5);

    // Four signals of another visitor with no delay: one counts.
    let other_page = store.register("https://example.org/").unwrap();
    let mut outcomes = Vec::new();
    for _ in 0..4 {
        outcomes.push(record_visit(&mut cache, &mut store, other_page, VISITOR, now, visit_window));
    }
    assert_eq!(
        outcomes,
        vec![
            Ok(VisitOutcome::Counted),
            Ok(VisitOutcome::Deduplicated),
            Ok(VisitOutcome::Deduplicated),
            Ok(VisitOutcome::Deduplicated),
        ]
    );
    assert_eq!(store.hits_of("https://example.org/").unwrap().n, 1);

    // A URL that was never registered.
    assert_eq!(store.hits_of("https://unknown.example/").unwrap_err(), Error::NotFound);

    // The same URL twice: one identifier, one page.
    let pages = store.len();
    assert_eq!(store.register("https://example.com/"), Ok(page_id));
    assert_eq!(store.register("https://example.com/"), Ok(page_id));
    assert_eq!(store.len(), pages);
}
