use jhm::cache::VisitCache;
use jhm::engine::record_visit;
use jhm::error::Error;
use jhm::pages::{Hits, PageStore};
use jhm::policy::{classify, VisitOutcome};

const PAGE: u128 = 42;

fn store_with_page() -> PageStore {
    let mut store = PageStore::new();
    assert_eq!(store.insert("https://example.com/", PAGE), Ok(()));
    store
}

#[test]
fn a_visitor_never_seen_is_counted() {
    assert_eq!(classify(None, 0, 0), VisitOutcome::Counted);
    assert_eq!(classify(None, 1_700_000_000, 43_200), VisitOutcome::Counted);
}

#[test]
fn a_visitor_inside_the_window_is_deduplicated() {
    assert_eq!(classify(Some(1_000), 1_000, 60), VisitOutcome::Deduplicated);
    assert_eq!(classify(Some(1_000), 1_001, 60), VisitOutcome::Deduplicated);
    assert_eq!(classify(Some(1_000), 1_059, 60), VisitOutcome::Deduplicated);
}

#[test]
fn the_bound_of_the_window_is_still_inside() {
    assert_eq!(classify(Some(1_000), 1_060, 60), VisitOutcome::Deduplicated);
    assert_eq!(classify(Some(1_000), 1_061, 60), VisitOutcome::Counted);
    assert_eq!(classify(Some(0), 0, 0), VisitOutcome::Deduplicated);
    assert_eq!(classify(Some(0), 1, 0), VisitOutcome::Counted);
}

#[test]
fn a_time_before_the_remembered_one_is_inside_the_window() {
    assert_eq!(classify(Some(1_000), 999, 0), VisitOutcome::Deduplicated);
    assert_eq!(classify(Some(u64::MAX), 0, 0), VisitOutcome::Deduplicated);
}

#[test]
fn the_window_does_not_overflow() {
    assert_eq!(classify(Some(0), u64::MAX, u64::MAX), VisitOutcome::Deduplicated);
    assert_eq!(classify(Some(0), u64::MAX, u64::MAX - 1), VisitOutcome::Counted);
    assert_eq!(classify(Some(1), u64::MAX, u64::MAX - 1), VisitOutcome::Deduplicated);
}

#[test]
fn signals_spaced_by_more_than_the_window_all_count() {
    let mut cache = VisitCache::new();
    let mut store = store_with_page();
    let times = [100u64, 111, 122, 200, 1_000];
    for (i, now) in times.iter().enumerate() {
        assert_eq!(
            record_visit(&mut cache, &mut store, PAGE, 7, *now, 10),
            Ok(VisitOutcome::Counted)
        );
        assert_eq!(store.read(PAGE).unwrap().n, i as i32 + 1);
        assert_eq!(cache.get(PAGE, 7), Some(*now));
    }
    assert_eq!(
        store.read(PAGE),
        Ok(Hits { n: 5, timestamps: vec![100, 111, 122, 200, 1_000] })
    );
}

#[test]
fn signals_within_the_window_count_once() {
    let mut cache = VisitCache::new();
    let mut store = store_with_page();
    assert_eq!(record_visit(&mut cache, &mut store, PAGE, 7, 100, 10), Ok(VisitOutcome::Counted));
    for now in [100u64, 101, 105, 109, 110, 99] {
        assert_eq!(
            record_visit(&mut cache, &mut store, PAGE, 7, now, 10),
            Ok(VisitOutcome::Deduplicated)
        );
        assert_eq!(store.read(PAGE), Ok(Hits { n: 1, timestamps: vec![100] }));
        assert_eq!(cache.get(PAGE, 7), Some(100));
    }
    // The window is measured from the counted hit, not from the last signal.
    assert_eq!(record_visit(&mut cache, &mut store, PAGE, 7, 111, 10), Ok(VisitOutcome::Counted));
    assert_eq!(store.read(PAGE), Ok(Hits { n: 2, timestamps: vec![100, 111] }));
    assert_eq!(cache.get(PAGE, 7), Some(111));
}

#[test]
fn visitors_and_pages_are_counted_apart() {
    let mut cache = VisitCache::new();
    let mut store = store_with_page();
    assert_eq!(store.insert("https://example.org/", 43), Ok(()));

    assert_eq!(record_visit(&mut cache, &mut store, PAGE, 1, 100, 10), Ok(VisitOutcome::Counted));
    assert_eq!(record_visit(&mut cache, &mut store, PAGE, 2, 100, 10), Ok(VisitOutcome::Counted));
    assert_eq!(record_visit(&mut cache, &mut store, 43, 1, 100, 10), Ok(VisitOutcome::Counted));
    assert_eq!(
        record_visit(&mut cache, &mut store, PAGE, 1, 105, 10),
        Ok(VisitOutcome::Deduplicated)
    );

    assert_eq!(store.read(PAGE), Ok(Hits { n: 2, timestamps: vec![100, 100] }));
    assert_eq!(store.read(43), Ok(Hits { n: 1, timestamps: vec![100] }));
    assert_eq!(cache.len(), 3);
}

#[test]
fn the_counter_equals_the_number_of_times() {
    let mut cache = VisitCache::new();
    let mut store = store_with_page();
    let mut now = 5u64;
    for round in 0..40u64 {
        let _ = record_visit(&mut cache, &mut store, PAGE, round % 3, now, 4);
        now += round % 5;
        let hits = store.read(PAGE).unwrap();
        assert_eq!(hits.timestamps.len(), hits.n as usize);
    }
    assert!(store.read(PAGE).unwrap().n > 1);
}

#[test]
fn a_signal_for_an_unknown_page_is_not_found() {
    let mut cache = VisitCache::new();
    let mut store = store_with_page();

    assert_eq!(record_visit(&mut cache, &mut store, 1, 7, 100, 10), Err(Error::NotFound));
    // The cache was told first: the signal is lost, not open to be repeated.
    assert_eq!(cache.get(1, 7), Some(100));
    assert_eq!(
        record_visit(&mut cache, &mut store, 1, 7, 101, 10),
        Ok(VisitOutcome::Deduplicated)
    );
    assert_eq!(store.len(), 1);
    assert_eq!(store.read(PAGE), Ok(Hits { n: 0, timestamps: vec![] }));
}

#[test]
fn a_time_the_store_cannot_hold_is_invalid() {
    let mut cache = VisitCache::new();
    let mut store = store_with_page();
    let too_late = i64::MAX as u64 + 1;

    assert_eq!(
        record_visit(&mut cache, &mut store, PAGE, 7, too_late, 10),
        Err(Error::InvalidInput)
    );
    assert_eq!(cache.get(PAGE, 7), None);
    assert_eq!(store.read(PAGE), Ok(Hits { n: 0, timestamps: vec![] }));

    assert_eq!(
        record_visit(&mut cache, &mut store, PAGE, 7, i64::MAX as u64, 10),
        Ok(VisitOutcome::Counted)
    );
    assert_eq!(store.read(PAGE), Ok(Hits { n: 1, timestamps: vec![i64::MAX] }));
}

#[test]
fn the_cache_overwrites_and_reads_back() {
    let mut cache = VisitCache::new();
    assert_eq!(cache.get(1, 2), None);
    cache.set(1, 2, 30);
    cache.set(1, 3, 40);
    cache.set(2, 2, 50);
    assert_eq!(cache.get(1, 2), Some(30));
    cache.set(1, 2, 31);
    assert_eq!(cache.get(1, 2), Some(31));
    assert_eq!(cache.get(1, 3), Some(40));
    assert_eq!(cache.get(2, 2), Some(50));
    assert_eq!(cache.get(2, 3), None);
    assert_eq!(cache.len(), 3);
}

#[test]
fn eviction_forgets_only_what_is_older_than_the_age() {
    let mut cache = VisitCache::new();
    cache.set(1, 1, 100);
    cache.set(1, 2, 150);
    cache.set(1, 3, 151);
    cache.set(2, 1, 400);

    cache.evict_older_than(200, 50);

    assert_eq!(cache.get(1, 1), None);
    assert_eq!(cache.get(1, 2), Some(150));
    assert_eq!(cache.get(1, 3), Some(151));
    assert_eq!(cache.get(2, 1), Some(400));
    assert_eq!(cache.len(), 3);
}

#[test]
fn eviction_changes_no_decision() {
    let window = 10u64;
    let seen = [(1u64, 100u64), (2, 185), (3, 190), (4, 200)];
    for now in [200u64, 201, 205, 211, 300] {
        let mut kept = VisitCache::new();
        let mut swept = VisitCache::new();
        for (visitor, at) in seen {
            kept.set(PAGE, visitor, at);
            swept.set(PAGE, visitor, at);
        }
        swept.evict_older_than(200, window);
        assert_eq!(swept.len(), 2);
        for (visitor, _) in seen {
            assert_eq!(
                classify(swept.get(PAGE, visitor), now, window),
                classify(kept.get(PAGE, visitor), now, window)
            );
        }
    }
}

#[test]
fn a_failed_increment_changes_nothing() {
    let mut store = store_with_page();
    assert_eq!(store.increment(7, 100), Err(Error::NotFound));
    assert_eq!(store.len(), 1);
    assert_eq!(store.read(7), Err(Error::NotFound));
    assert_eq!(store.increment(PAGE, -5), Ok(()));
    assert_eq!(store.increment(PAGE, 100), Ok(()));
    assert_eq!(store.read(PAGE), Ok(Hits { n: 2, timestamps: vec![-5, 100] }));
}
