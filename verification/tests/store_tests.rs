use dnsmdcd::codec::Entry;
use dnsmdcd::store::add;
use dnsmdcd::store::delete;
use dnsmdcd::store::load;

fn entry(name: &str, address: &str) -> Entry {
    Entry::new(String::from(name), String::from(address))
}

#[test]
fn load_of_empty_text_is_empty_list() {
    assert_eq!(load(""), Some(Vec::new()));
}

#[test]
fn load_two_entries_in_file_order() {
    let text = "address=/a/1.1.1.1\naddress=/b/2.2.2.2\n";
    assert_eq!(load(text), Some(vec![entry("a", "1.1.1.1"), entry("b", "2.2.2.2")]));
}

#[test]
fn load_ignores_trailing_terminator() {
    let with_terminator = load("address=/a/1.1.1.1\n");
    let without_terminator = load("address=/a/1.1.1.1");
    assert_eq!(with_terminator, Some(vec![entry("a", "1.1.1.1")]));
    assert_eq!(with_terminator, without_terminator);
}

#[test]
fn load_skips_blank_lines() {
    let text = "address=/a/1.1.1.1\n\naddress=/b/2.2.2.2\n";
    assert_eq!(load(text), Some(vec![entry("a", "1.1.1.1"), entry("b", "2.2.2.2")]));
}

#[test]
fn load_rejects_undecodable_line() {
    assert_eq!(load("address=/a/1.1.1.1\ngarbage\n"), None);
}

#[test]
fn load_of_encoded_list_returns_the_list() {
    let list = vec![entry("a", "1.1.1.1"), entry("b", "2.2.2.2"), entry("", "")];
    let text = dnsmdcd::codec::encode_list(&list);
    assert_eq!(load(&text), Some(list));
}

#[test]
fn add_appends_at_the_end() {
    let list = vec![entry("a", "1.1.1.1")];
    let list = add(list, entry("b", "2.2.2.2"));
    assert_eq!(list, vec![entry("a", "1.1.1.1"), entry("b", "2.2.2.2")]);
}

#[test]
fn add_keeps_duplicates() {
    let list = vec![entry("a", "1.1.1.1")];
    let list = add(list, entry("a", "1.1.1.1"));
    assert_eq!(list.len(), 2);
}

#[test]
fn delete_undoes_add_of_fresh_entry() {
    let list = vec![entry("a", "1.1.1.1"), entry("b", "2.2.2.2")];
    let list = add(list, entry("c", "3.3.3.3"));
    let list = delete(list, "c", "3.3.3.3");
    assert_eq!(list, vec![entry("a", "1.1.1.1"), entry("b", "2.2.2.2")]);
}

#[test]
fn delete_of_absent_pair_is_a_no_op() {
    let list = vec![entry("a", "1.1.1.1"), entry("b", "2.2.2.2")];
    let list = delete(list, "a", "9.9.9.9");
    assert_eq!(list, vec![entry("a", "1.1.1.1"), entry("b", "2.2.2.2")]);
}

#[test]
fn delete_removes_every_duplicate() {
    let list = vec![
        entry("a", "1.1.1.1"),
        entry("x", "5.5.5.5"),
        entry("a", "1.1.1.1"),
        entry("a", "1.1.1.1"),
    ];
    let list = delete(list, "a", "1.1.1.1");
    assert_eq!(list, vec![entry("x", "5.5.5.5")]);
}

#[test]
fn delete_needs_both_fields_to_match() {
    let list = vec![entry("a", "1.1.1.1"), entry("a", "2.2.2.2"), entry("b", "1.1.1.1")];
    let list = delete(list, "a", "1.1.1.1");
    assert_eq!(list, vec![entry("a", "2.2.2.2"), entry("b", "1.1.1.1")]);
}
