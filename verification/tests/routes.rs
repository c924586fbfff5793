use nadeshiko::endpoints::{FeedsEndpoint, Route};

#[test]
fn feeds_endpoints() {
    assert_eq!(FeedsEndpoint::get((b"GET", b"/feeds")), Some(FeedsEndpoint::Index));
    assert_eq!(FeedsEndpoint::get((b"GET", b"/feeds/entries")), Some(FeedsEndpoint::Entries));
    assert_eq!(FeedsEndpoint::get((b"POST", b"/feeds/insert")), Some(FeedsEndpoint::Insert));
    assert_eq!(FeedsEndpoint::get((b"POST", b"/feeds/delete")), Some(FeedsEndpoint::Delete));
    assert_eq!(FeedsEndpoint::get((b"POST", b"/feeds")), None);
    assert_eq!(FeedsEndpoint::get((b"GET", b"/feeds/insert")), None);
    assert_eq!(FeedsEndpoint::get((b"", b"")), None);
}

#[test]
fn every_route_is_found_by_its_text() {
    for route in Route::all() {
        assert_eq!(Route::get(route.as_bytes()), Some(route));
    }
}

#[test]
fn routes_by_text() {
    assert_eq!(Route::get(b"GET /"), Some(Route::GeneralIndex));
    assert_eq!(Route::get(b"POST /rules/update"), Some(Route::RulesUpdate));
    assert_eq!(Route::get(b"GET /mobile/styles.css"), Some(Route::MobileStyles));
    assert_eq!(Route::get(b"GET /nowhere"), None);
    assert_eq!(Route::get(b"get /"), None);
}
