use dnsmdcd::api::list;
use dnsmdcd::api::start_add;
use dnsmdcd::api::start_delete;
use dnsmdcd::api::ApiError;
use dnsmdcd::auth::is_authorized;

#[test]
fn authorization_trims_the_stored_token() {
    assert!(is_authorized("sekrit", "sekrit"));
    assert!(is_authorized("  sekrit\n", "sekrit"));
    assert!(is_authorized("\tsekrit \r\n", "sekrit"));
}

#[test]
fn authorization_trims_all_unicode_whitespace() {
    // The same characters str::trim strips: form feed, vertical tab,
    // no-break space, ideographic space.
    assert!(is_authorized("\u{c}sekrit\u{b}", "sekrit"));
    assert!(is_authorized("\u{a0}sekrit\u{3000}", "sekrit"));
    assert_eq!(is_authorized("\u{a0}sekrit", "sekrit"), "\u{a0}sekrit".trim() == "sekrit");
}

#[test]
fn authorization_rejects_mismatch() {
    assert!(!is_authorized("sekrit\n", "wrong"));
    assert!(!is_authorized("sekrit\n", ""));
    assert!(!is_authorized("sekrit\n", " sekrit"));
}

#[test]
fn list_enumerates_both_entries_in_file_order() {
    let text = "address=/test1/127.0.0.1\naddress=/test2/127.0.0.1\n";
    assert_eq!(
        list(text),
        Some(String::from(
            "{\"addresses\":[{\"name\":\"test1\",\"ip\":\"127.0.0.1\"},{\"name\":\"test2\",\"ip\":\"127.0.0.1\"}]}"
        ))
    );
}

#[test]
fn list_twice_returns_identical_results() {
    let text = "address=/test1/127.0.0.1\naddress=/test2/127.0.0.1\n";
    assert_eq!(list(text), list(text));
}

#[test]
fn list_of_empty_file_is_empty_array() {
    assert_eq!(list(""), Some(String::from("{\"addresses\":[]}")));
}

#[test]
fn list_of_undecodable_file_fails() {
    assert_eq!(list("garbage\n"), None);
}

#[test]
fn mutating_request_with_wrong_secret_is_unauthorized() {
    let file = "address=/a/1.1.1.1\n";
    let token = "sekrit\n";
    let added = start_add(
        file,
        token,
        "wrong",
        String::from("b"),
        String::from("2.2.2.2"),
    );
    assert_eq!(added.err(), Some(ApiError::Unauthorized));
    let deleted = start_delete(file, token, "wrong", "a", "1.1.1.1");
    assert_eq!(deleted.err(), Some(ApiError::Unauthorized));
}

#[test]
fn mutating_request_on_undecodable_store_fails() {
    let r = start_add(
        "garbage\n",
        "sekrit\n",
        "sekrit",
        String::from("b"),
        String::from("2.2.2.2"),
    );
    assert_eq!(r.err(), Some(ApiError::MalformedStore));
}
