use jhm::address::canonical_url;
use jhm::clock::unix_time_secs;
use jhm::error::Error;
use jhm::ident::parse_page_id;
use jhm::pages::{Hits, PageStore};

#[test]
fn a_url_is_filed_under_its_canonical_spelling() {
    assert_eq!(canonical_url("https://example.com"), Ok("https://example.com/".to_string()));
    assert_eq!(canonical_url("HTTPS://EXAMPLE.com/a/../b"), Ok("https://example.com/b".to_string()));
    assert_eq!(
        canonical_url("https://example.com/some page"),
        Ok("https://example.com/some%20page".to_string())
    );
}

#[test]
fn what_is_no_absolute_url_is_invalid() {
    assert_eq!(canonical_url(""), Err(Error::InvalidInput));
    assert_eq!(canonical_url("This is not a valid URL."), Err(Error::InvalidInput));
    assert_eq!(canonical_url("/relative/path"), Err(Error::InvalidInput));
    assert_eq!(canonical_url("https://"), Err(Error::InvalidInput));
}

#[test]
fn spellings_of_one_url_share_a_page() {
    let mut store = PageStore::new();
    let first = store.register("https://example.com").unwrap();
    let second = store.register("https://example.com/").unwrap();
    let third = store.register("HTTPS://Example.COM/").unwrap();
    assert_eq!(first, second);
    assert_eq!(first, third);
    assert_eq!(store.len(), 1);
    assert_eq!(store.lookup("https://example.com/"), Some(first));
    assert_eq!(store.lookup("https://example.com"), None);
}

#[test]
fn repeated_registration_returns_the_first_identifier() {
    let mut store = PageStore::new();
    assert_eq!(store.file("https://example.com/", 11), Ok(11));
    for candidate in [12u128, 13, 11, 14] {
        assert_eq!(store.file("https://example.com/", candidate), Ok(11));
        assert_eq!(store.len(), 1);
    }
    assert_eq!(store.read(12), Err(Error::NotFound));
}

#[test]
fn registration_keeps_the_hits_of_a_page() {
    let mut store = PageStore::new();
    assert_eq!(store.file("https://example.com/", 11), Ok(11));
    assert_eq!(store.increment(11, 100), Ok(()));
    assert_eq!(store.file("https://example.com/", 12), Ok(11));
    assert_eq!(store.read(11), Ok(Hits { n: 1, timestamps: vec![100] }));
}

#[test]
fn a_taken_identifier_is_refused() {
    let mut store = PageStore::new();
    assert_eq!(store.file("https://example.com/", 11), Ok(11));
    assert_eq!(store.file("https://example.org/", 11), Err(Error::StoreUnavailable));
    assert_eq!(store.len(), 1);
    assert_eq!(store.lookup("https://example.org/"), None);
    assert_eq!(store.file("https://example.org/", 12), Ok(12));
    assert_eq!(store.len(), 2);
}

#[test]
fn an_insert_that_loses_changes_nothing() {
    let mut store = PageStore::new();
    assert_eq!(store.insert("https://example.com/", 11), Ok(()));
    assert_eq!(store.insert("https://example.com/", 12), Err(Error::RaceLost));
    assert_eq!(store.insert("https://example.org/", 11), Err(Error::RaceLost));
    assert_eq!(store.len(), 1);
    assert_eq!(store.lookup("https://example.com/"), Some(11));
    assert!(!Error::RaceLost.is_client_error());
}

#[test]
fn a_new_page_has_no_hits() {
    let mut store = PageStore::new();
    let page_id = store.register("https://example.com/").unwrap();
    assert_eq!(store.read(page_id), Ok(Hits { n: 0, timestamps: vec![] }));
    assert_eq!(store.hits_of("https://example.com"), Ok(Hits { n: 0, timestamps: vec![] }));
}

#[test]
fn hits_are_found_by_url() {
    let mut store = PageStore::new();
    let page_id = store.register("https://example.com/").unwrap();
    let other = store.register("https://example.org/").unwrap();
    assert_eq!(store.increment(page_id, 10), Ok(()));
    assert_eq!(store.increment(page_id, 20), Ok(()));
    assert_eq!(store.increment(other, 30), Ok(()));

    assert_eq!(store.hits_of("https://example.com/"), Ok(Hits { n: 2, timestamps: vec![10, 20] }));
    assert_eq!(store.hits_of_address("https://example.org/"), Ok(Hits { n: 1, timestamps: vec![30] }));
}

#[test]
fn hits_of_an_unregistered_url_are_not_found() {
    let mut store = PageStore::new();
    store.register("https://example.com/").unwrap();
    assert_eq!(store.hits_of("https://example.org/"), Err(Error::NotFound));
    assert_eq!(store.hits_of_address("https://example.org/"), Err(Error::NotFound));
    assert!(Error::NotFound.is_client_error());
}

#[test]
fn hits_of_a_malformed_url_are_invalid() {
    let mut store = PageStore::new();
    store.register("https://example.com/").unwrap();
    assert_eq!(store.hits_of("example.com"), Err(Error::InvalidInput));
}

#[test]
fn random_identifiers_are_version_four() {
    let mut store = PageStore::new();
    let mut seen = Vec::new();
    for i in 0..20 {
        let id = store.register(&format!("https://example.com/{}", i)).unwrap();
        assert_eq!(id & 0xF000_C000_0000_0000_0000, 0x4000_8000_0000_0000_0000);
        assert!(!seen.contains(&id));
        seen.push(id);
    }
    assert_eq!(store.len(), 20);
}

#[test]
fn a_page_identifier_is_read_from_its_text() {
    assert_eq!(
        parse_page_id("550e8400-e29b-41d4-a716-446655440000"),
        Ok(0x550e_8400_e29b_41d4_a716_4466_5544_0000)
    );
    assert_eq!(
        parse_page_id("550E8400E29B41D4A716446655440000"),
        Ok(0x550e_8400_e29b_41d4_a716_4466_5544_0000)
    );
    assert_eq!(parse_page_id("00000000-0000-0000-0000-000000000001"), Ok(1));
}

#[test]
fn what_is_no_identifier_is_invalid() {
    assert_eq!(parse_page_id(""), Err(Error::InvalidInput));
    assert_eq!(parse_page_id("42"), Err(Error::InvalidInput));
    assert_eq!(parse_page_id("550e8400-e29b-41d4-a716-44665544000g"), Err(Error::InvalidInput));
    assert_eq!(parse_page_id("https://example.com/"), Err(Error::InvalidInput));
}

#[test]
fn the_clock_reads_a_time_of_this_century() {
    let first = unix_time_secs().expect("the clock stands after the epoch");
    assert!(first > 1_600_000_000);
    assert!(first < 4_102_444_800);
}

#[test]
fn only_the_callers_faults_are_client_errors() {
    assert!(Error::InvalidInput.is_client_error());
    assert!(Error::NotFound.is_client_error());
    assert!(!Error::CacheUnavailable.is_client_error());
    assert!(!Error::StoreUnavailable.is_client_error());
    assert!(!Error::RaceLost.is_client_error());
}
