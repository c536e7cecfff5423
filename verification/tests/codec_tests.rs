use dnsmdcd::codec::decode_line;
use dnsmdcd::codec::encode_entry;
use dnsmdcd::codec::encode_list;
use dnsmdcd::codec::encode_list_as_json;
use dnsmdcd::codec::parse_address_string;
use dnsmdcd::codec::parse_address_vector_into_address_string;
use dnsmdcd::codec::parse_address_vector_into_json_string;
use dnsmdcd::codec::Entry;

fn entry(name: &str, address: &str) -> Entry {
    Entry::new(String::from(name), String::from(address))
}

#[test]
fn test_parse_address_string() {
    assert_eq!(
        parse_address_string("address=/test.myhost.de/127.0.0.1"),
        vec!["test.myhost.de", "127.0.0.1"]
    );
}

#[test]
fn test_parse_address_vector_into_json_string() {
    let adr1 = "address=/test1/127.0.0.1";
    let adr2 = "address=/test2/127.0.0.1";
    let list_of_addrs = vec![parse_address_string(adr1), parse_address_string(adr2)];

    assert_eq!(
        parse_address_vector_into_json_string(list_of_addrs),
        "{\"addresses\":[{\"name\":\"test1\",\"ip\":\"127.0.0.1\"},{\"name\":\"test2\",\"ip\":\"127.0.0.1\"}]}"
    );
}

#[test]
fn test_parse_address_vector_into_address_string() {
    let adr1 = "address=/test1/127.0.0.1";
    let adr2 = "address=/test2/127.0.0.1";
    let list_of_addrs = vec![parse_address_string(adr1), parse_address_string(adr2)];

    assert_eq!(
        parse_address_vector_into_address_string(list_of_addrs),
        "address=/test1/127.0.0.1\naddress=/test2/127.0.0.1\n"
    );
}

#[test]
fn parse_address_string_keeps_extra_segments() {
    assert_eq!(parse_address_string("address=/a/b/c"), vec!["a", "b", "c"]);
}

#[test]
fn parse_address_string_keeps_empty_fields() {
    assert_eq!(parse_address_string("address=//"), vec!["", ""]);
    assert_eq!(parse_address_string("address=/x/"), vec!["x", ""]);
    assert_eq!(parse_address_string("address=//1.1.1.1"), vec!["", "1.1.1.1"]);
}

#[test]
fn parse_address_string_without_separators_yields_no_fields() {
    assert_eq!(parse_address_string(""), Vec::<String>::new());
    assert_eq!(parse_address_string("garbage"), Vec::<String>::new());
}

#[test]
fn encode_entry_produces_one_line() {
    assert_eq!(
        encode_entry(&entry("host.example.com", "10.0.0.5")),
        "address=/host.example.com/10.0.0.5\n"
    );
}

#[test]
fn encode_list_concatenates_in_order() {
    let list = vec![entry("a", "1.1.1.1"), entry("b", "2.2.2.2")];
    assert_eq!(encode_list(&list), "address=/a/1.1.1.1\naddress=/b/2.2.2.2\n");
}

#[test]
fn encode_empty_list_is_empty_text() {
    assert_eq!(encode_list(&Vec::new()), "");
}

#[test]
fn round_trip_decode_of_encode() {
    let e = entry("host.example.com", "10.0.0.5");
    let line = encode_entry(&e);
    assert_eq!(decode_line(&line), Some(e));
}

#[test]
fn round_trip_accepts_empty_fields() {
    let e = entry("", "");
    let line = encode_entry(&e);
    assert_eq!(line, "address=//\n");
    assert_eq!(decode_line(&line), Some(e));
}

#[test]
fn decode_line_without_newline() {
    assert_eq!(
        decode_line("address=/test.myhost.de/127.0.0.1"),
        Some(entry("test.myhost.de", "127.0.0.1"))
    );
}

#[test]
fn decode_line_rejects_missing_separators() {
    assert_eq!(decode_line(""), None);
    assert_eq!(decode_line("garbage"), None);
    assert_eq!(decode_line("address=/only-one-field"), None);
}

#[test]
fn json_of_empty_list_is_empty_array() {
    assert_eq!(encode_list_as_json(&Vec::new()), "{\"addresses\":[]}");
}

#[test]
fn json_of_single_entry_has_no_comma() {
    let list = vec![entry("a", "1.1.1.1")];
    assert_eq!(
        encode_list_as_json(&list),
        "{\"addresses\":[{\"name\":\"a\",\"ip\":\"1.1.1.1\"}]}"
    );
}
