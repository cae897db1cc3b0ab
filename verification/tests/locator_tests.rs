use telemetry::locator::{Delivery, Locator, Lookup};
use telemetry::types::Location;

const BERLIN: Location = Location { latitude: 52_520_000, longitude: 13_405_000 };

#[test]
fn first_request_starts_a_lookup() {
    let mut l = Locator::new(60);
    assert!(!l.in_flight(7));
    assert_eq!(l.request(7, 1, 0), Lookup::Start);
    assert!(l.in_flight(7));
    assert_eq!(l.cached(7), None);
}

#[test]
fn requests_during_a_lookup_wait_for_it() {
    let mut l = Locator::new(60);
    assert_eq!(l.request(7, 1, 0), Lookup::Start);
    assert_eq!(l.request(7, 2, 1), Lookup::Wait);
    assert_eq!(l.request(7, 3, 2), Lookup::Wait);
    // another address has its own lookup
    assert_eq!(l.request(8, 4, 3), Lookup::Start);
    let out = l.complete(7, Some(BERLIN), 5);
    assert_eq!(
        out,
        vec![
            Delivery { node: 1, location: Some(BERLIN) },
            Delivery { node: 2, location: Some(BERLIN) },
            Delivery { node: 3, location: Some(BERLIN) },
        ]
    );
    assert!(!l.in_flight(7));
    assert!(l.in_flight(8));
}

#[test]
fn resolved_address_is_answered_from_the_cache_for_good() {
    let mut l = Locator::new(60);
    l.request(7, 1, 0);
    l.complete(7, Some(BERLIN), 1);
    assert_eq!(l.cached(7), Some(BERLIN));
    assert_eq!(l.request(7, 2, 2), Lookup::Known(BERLIN));
    assert_eq!(l.request(7, 3, u64::MAX), Lookup::Known(BERLIN));
    assert!(!l.in_flight(7));
}

#[test]
fn failure_is_remembered_for_a_while() {
    let mut l = Locator::new(60);
    assert_eq!(l.request(7, 1, 100), Lookup::Start);
    assert_eq!(l.request(7, 2, 101), Lookup::Wait);
    let out = l.complete(7, None, 110);
    assert_eq!(
        out,
        vec![Delivery { node: 1, location: None }, Delivery { node: 2, location: None }]
    );
    assert_eq!(l.cached(7), None);
    assert_eq!(l.request(7, 3, 110), Lookup::Unavailable);
    assert_eq!(l.request(7, 3, 169), Lookup::Unavailable);
    assert!(!l.in_flight(7));
    assert_eq!(l.request(7, 3, 170), Lookup::Start);
    assert_eq!(l.request(7, 4, 171), Lookup::Wait);
    let out = l.complete(7, Some(BERLIN), 172);
    assert_eq!(
        out,
        vec![Delivery { node: 3, location: Some(BERLIN) }, Delivery { node: 4, location: Some(BERLIN) }]
    );
}

#[test]
fn failure_near_the_end_of_time_is_remembered_to_the_end() {
    let mut l = Locator::new(60);
    l.request(7, 1, u64::MAX - 10);
    l.complete(7, None, u64::MAX - 10);
    assert_eq!(l.request(7, 2, u64::MAX - 1), Lookup::Unavailable);
    assert_eq!(l.request(7, 2, u64::MAX), Lookup::Start);
}

#[test]
fn completion_without_a_lookup_changes_nothing() {
    let mut l = Locator::new(60);
    assert_eq!(l.complete(7, Some(BERLIN), 0), vec![]);
    assert_eq!(l.cached(7), None);
    assert_eq!(l.request(7, 1, 1), Lookup::Start);
    l.complete(7, Some(BERLIN), 2);
    let other = Location { latitude: 1, longitude: 1 };
    assert_eq!(l.complete(7, Some(other), 3), vec![]);
    assert_eq!(l.cached(7), Some(BERLIN));
}
