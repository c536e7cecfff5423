//! The entry codec: conversion between the on-disk override-entry line
//! format `address=/<name>/<address>` (one entry per line, trailing
//! newline) and in-memory entries, plus the JSON rendering of an entry
//! list. Pure, no side effects.

use vstd::prelude::*;
use vstd::string::StrSliceExecFns;
use vstd::string::StringExecFns;

use crate::text::index_of_char;
use crate::text::lemma_first_index;
use crate::text::lemma_no_index;
use crate::text::lemma_split_at_char_len;
use crate::text::split_at_char;
use crate::text::split_chars;

verus! {

/// A single DNS override mapping a name to an address.
#[derive(Debug, PartialEq, Eq)]
pub struct Entry {
    pub name: String,
    pub address: String,
}

/// Mathematical model of an entry: its two fields as character sequences.
pub ghost struct EntryModel {
    pub name: Seq<char>,
    pub address: Seq<char>,
}

impl View for Entry {
    type V = EntryModel;

    open spec fn view(&self) -> EntryModel {
        EntryModel { name: self.name@, address: self.address@ }
    }
}

impl DeepView for Entry {
    type V = EntryModel;

    open spec fn deep_view(&self) -> EntryModel {
        self.view()
    }
}

impl Entry {
    pub fn new(name: String, address: String) -> (e: Entry)
        ensures
            e@ == (EntryModel { name: name@, address: address@ }),
    {
        Entry { name, address }
    }
}

/// The one-line encoding of an entry, trailing newline included.
pub open spec fn encode_entry_spec(e: EntryModel) -> Seq<char> {
    "address=/"@ + e.name + "/"@ + e.address + "\n"@
}

/// Concatenation of the line encodings of a list, in order.
pub open spec fn encode_list_spec(es: Seq<EntryModel>) -> Seq<char>
    decreases es.len(),
{
    if es.len() == 0 {
        Seq::empty()
    } else {
        encode_entry_spec(es[0]) + encode_list_spec(es.drop_first())
    }
}

/// `t` with one trailing newline removed, when present.
pub open spec fn strip_newline(t: Seq<char>) -> Seq<char> {
    if t.len() > 0 && t[t.len() - 1] == '\n' {
        t.drop_last()
    } else {
        t
    }
}

/// Decoding of one line: after discarding a trailing newline, the text up
/// to the first `/` is the marker, the text between the first and second
/// `/` is the name, and everything after the second `/` is the address.
/// Lines with fewer than two `/` separators do not decode.
pub open spec fn decode_line_spec(line: Seq<char>) -> Option<EntryModel> {
    let t = strip_newline(line);
    let i = index_of_char(t, '/');
    if i < 0 {
        None
    } else {
        let rest = t.skip(i + 1);
        let j = index_of_char(rest, '/');
        if j < 0 {
            None
        } else {
            Some(EntryModel { name: rest.take(j), address: rest.skip(j + 1) })
        }
    }
}

/// One entry as a JSON object with `name` and `ip` fields. Field text is
/// embedded verbatim: no JSON escaping is performed, a deliberate choice
/// that keeps the wire format byte-compatible for existing clients. A
/// quote or backslash in a field would corrupt the rendering; field
/// format correctness stays the caller's responsibility.
pub open spec fn json_entry_spec(e: EntryModel) -> Seq<char> {
    "{\"name\":\""@ + e.name + "\",\"ip\":\""@ + e.address + "\"}"@
}

/// Comma-separated JSON objects for the entries of `es`.
pub open spec fn json_entries_spec(es: Seq<EntryModel>) -> Seq<char>
    decreases es.len(),
{
    if es.len() == 0 {
        Seq::empty()
    } else {
        json_entry_spec(es[0]) + json_rest_spec(es.drop_first())
    }
}

/// The remaining JSON objects, each preceded by a comma.
pub open spec fn json_rest_spec(es: Seq<EntryModel>) -> Seq<char>
    decreases es.len(),
{
    if es.len() == 0 {
        Seq::empty()
    } else {
        ","@ + json_entry_spec(es[0]) + json_rest_spec(es.drop_first())
    }
}

/// The JSON rendering of a whole list: an object with one `addresses`
/// array holding the entries in order.
pub open spec fn json_list_spec(es: Seq<EntryModel>) -> Seq<char> {
    "{\"addresses\":["@ + json_entries_spec(es) + "]}"@
}

/// The entry models named by a list of rows, reading each row's first
/// element as the name and its second as the address.
pub open spec fn entries_of_rows(rows: Seq<Seq<Seq<char>>>) -> Seq<EntryModel> {
    Seq::new(rows.len(), |i: int| EntryModel { name: rows[i][0], address: rows[i][1] })
}

/// Encode one entry as its configuration line, trailing newline included.
pub fn encode_entry(e: &Entry) -> (r: String)
    ensures
        r@ == encode_entry_spec(e@),
{
    let mut r = String::new();
    r.append("address=/");
    r.append(e.name.as_str());
    r.append("/");
    r.append(e.address.as_str());
    r.append("\n");
    proof {
        assert(r@ =~= encode_entry_spec(e@));
    }
    r
}

/// Encode a whole list as the full contents of the backing file.
pub fn encode_list(entries: &Vec<Entry>) -> (r: String)
    ensures
        r@ == encode_list_spec(entries.deep_view()),
{
    let ghost dv = entries.deep_view();
    let mut r = String::new();
    let mut i: usize = 0;
    proof {
        assert(dv.skip(0) =~= dv);
    }
    while i < entries.len()
        invariant
            i <= entries@.len(),
            dv == entries.deep_view(),
            dv.len() == entries@.len(),
            encode_list_spec(dv) == r@ + encode_list_spec(dv.skip(i as int)),
        decreases entries@.len() - i,
    {
        let line = encode_entry(&entries[i]);
        proof {
            let suf = dv.skip(i as int);
            assert(suf[0] == dv[i as int]);
            assert(suf.drop_first() =~= dv.skip(i as int + 1));
            assert(dv[i as int] == entries@[i as int]@);
            assert(encode_list_spec(suf) == encode_entry_spec(dv[i as int])
                + encode_list_spec(dv.skip(i as int + 1)));
            assert(r@ + encode_list_spec(suf) =~= (r@ + line@) + encode_list_spec(
                dv.skip(i as int + 1),
            ));
        }
        r.append(line.as_str());
        i = i + 1;
    }
    proof {
        assert(dv.skip(dv.len() as int) =~= Seq::<EntryModel>::empty());
        assert(encode_list_spec(dv) =~= r@);
    }
    r
}

fn json_object(e: &Entry) -> (r: String)
    ensures
        r@ == json_entry_spec(e@),
{
    let mut r = String::new();
    r.append("{\"name\":\"");
    r.append(e.name.as_str());
    r.append("\",\"ip\":\"");
    r.append(e.address.as_str());
    r.append("\"}");
    proof {
        assert(r@ =~= json_entry_spec(e@));
    }
    r
}

spec fn json_tail(es: Seq<EntryModel>, i: int) -> Seq<char> {
    if i <= 0 {
        json_entries_spec(es)
    } else {
        json_rest_spec(es.skip(i))
    }
}

/// Encode a whole list as its JSON rendering. Fields are embedded
/// without escaping; see `json_entry_spec` for that decision.
pub fn encode_list_as_json(entries: &Vec<Entry>) -> (r: String)
    ensures
        r@ == json_list_spec(entries.deep_view()),
{
    let ghost dv = entries.deep_view();
    let mut body = String::new();
    let mut i: usize = 0;
    while i < entries.len()
        invariant
            i <= entries@.len(),
            dv == entries.deep_view(),
            dv.len() == entries@.len(),
            json_entries_spec(dv) == body@ + json_tail(dv, i as int),
        decreases entries@.len() - i,
    {
        let obj = json_object(&entries[i]);
        proof {
            assert(dv[i as int] == entries@[i as int]@);
        }
        if i == 0 {
            proof {
                assert(json_entries_spec(dv) == json_entry_spec(dv[0]) + json_rest_spec(
                    dv.drop_first(),
                ));
                assert(dv.drop_first() =~= dv.skip(1));
                assert(body@ + json_entries_spec(dv) =~= (body@ + obj@) + json_rest_spec(
                    dv.skip(1),
                ));
            }
            body.append(obj.as_str());
        } else {
            proof {
                let suf = dv.skip(i as int);
                assert(suf[0] == dv[i as int]);
                assert(suf.drop_first() =~= dv.skip(i as int + 1));
                assert(json_rest_spec(suf) == ","@ + json_entry_spec(dv[i as int])
                    + json_rest_spec(dv.skip(i as int + 1)));
                assert(body@ + json_rest_spec(suf) =~= ((body@ + ","@) + obj@)
                    + json_rest_spec(dv.skip(i as int + 1)));
            }
            body.append(",");
            body.append(obj.as_str());
        }
        i = i + 1;
    }
    proof {
        if dv.len() > 0 {
            assert(dv.skip(dv.len() as int) =~= Seq::<EntryModel>::empty());
            assert(json_rest_spec(dv.skip(dv.len() as int)) =~= Seq::<char>::empty());
        }
        assert(json_entries_spec(dv) =~= body@);
    }
    let mut r = String::new();
    r.append("{\"addresses\":[");
    r.append(body.as_str());
    r.append("]}");
    proof {
        assert(r@ =~= json_list_spec(dv));
    }
    r
}

/// Decode one line of the backing file, accepting empty fields; `None`
/// when the line lacks two `/` separators.
pub fn decode_line(line: &str) -> (r: Option<Entry>)
    ensures
        match r {
            Some(e) => decode_line_spec(line@) == Some(e@),
            None => decode_line_spec(line@) is None,
        },
{
    let n = line.unicode_len();
    let s_end: usize = if n > 0 && line.get_char(n - 1) == '\n' {
        n - 1
    } else {
        n
    };
    let ghost t = strip_newline(line@);
    proof {
        assert(t =~= line@.take(s_end as int));
    }
    let mut i1: usize = 0;
    while i1 < s_end && line.get_char(i1) != '/'
        invariant
            s_end <= n == line@.len(),
            i1 <= s_end,
            t == strip_newline(line@),
            t =~= line@.take(s_end as int),
            forall|j: int| 0 <= j < i1 ==> line@[j] != '/',
        decreases s_end - i1,
    {
        i1 = i1 + 1;
    }
    if i1 == s_end {
        proof {
            assert(forall|j: int| 0 <= j < t.len() ==> t[j] != '/');
            lemma_no_index(t, '/');
        }
        return None;
    }
    proof {
        assert(t[i1 as int] == '/');
        lemma_first_index(t, '/', i1 as int);
    }
    let ghost rest = t.skip(i1 as int + 1);
    proof {
        assert(rest =~= line@.subrange(i1 as int + 1, s_end as int));
    }
    let mut i2: usize = i1 + 1;
    while i2 < s_end && line.get_char(i2) != '/'
        invariant
            s_end <= n == line@.len(),
            i1 < i2 <= s_end,
            forall|j: int| i1 < j < i2 ==> line@[j] != '/',
        decreases s_end - i2,
    {
        i2 = i2 + 1;
    }
    if i2 == s_end {
        proof {
            assert(forall|j: int| 0 <= j < rest.len() ==> rest[j] != '/');
            lemma_no_index(rest, '/');
        }
        return None;
    }
    proof {
        assert(rest[i2 as int - i1 as int - 1] == '/');
        assert(forall|j: int| 0 <= j < i2 as int - i1 as int - 1 ==> rest[j] != '/');
        lemma_first_index(rest, '/', i2 as int - i1 as int - 1);
    }
    let name = String::from_str(line.substring_char(i1 + 1, i2));
    let address = String::from_str(line.substring_char(i2 + 1, s_end));
    proof {
        assert(rest.take(i2 as int - i1 as int - 1) =~= line@.subrange(
            i1 as int + 1,
            i2 as int,
        ));
        assert(rest.skip(i2 as int - i1 as int) =~= line@.subrange(i2 as int + 1, s_end as int));
    }
    Some(Entry { name, address })
}

/// Fields that stay inside the codec's contract: no `/` and no newline.
/// Entries with a `/` in a field are out of contract on encode and decode.
pub open spec fn entry_fields_clean(e: EntryModel) -> bool {
    &&& forall|i: int| 0 <= i < e.name.len() ==> e.name[i] != '/' && e.name[i] != '\n'
    &&& forall|i: int| 0 <= i < e.address.len() ==> e.address[i] != '/' && e.address[i] != '\n'
}

/// The codec round trip: an entry whose fields hold no `/` and no newline
/// decodes back from its own encoding unchanged.
pub proof fn lemma_encode_decode_round_trip(e: EntryModel)
    requires
        entry_fields_clean(e),
    ensures
        decode_line_spec(encode_entry_spec(e)) == Some(e),
{
    reveal_strlit("address=/");
    reveal_strlit("/");
    reveal_strlit("\n");
    let t0 = encode_entry_spec(e);
    assert(t0[t0.len() - 1] == '\n');
    let t = strip_newline(t0);
    assert(t =~= "address=/"@ + e.name + "/"@ + e.address);
    assert(t[8] == '/');
    assert(forall|j: int| 0 <= j < 8 ==> t[j] == "address=/"@[j]);
    assert(forall|j: int| 0 <= j < 8 ==> t[j] != '/');
    lemma_first_index(t, '/', 8);
    let rest = t.skip(9);
    assert(rest =~= e.name + "/"@ + e.address);
    let m = e.name.len() as int;
    assert(rest[m] == '/');
    assert(forall|j: int| 0 <= j < m ==> rest[j] != '/');
    lemma_first_index(rest, '/', m);
    assert(rest.take(m) =~= e.name);
    assert(rest.skip(m + 1) =~= e.address);
}

/// Convert row form (each row `[name, address, ..]`) into entries.
pub fn rows_to_entries(rows: &Vec<Vec<String>>) -> (r: Vec<Entry>)
    requires
        forall|i: int| 0 <= i < rows@.len() ==> #[trigger] rows@[i]@.len() >= 2,
    ensures
        r.deep_view() == entries_of_rows(rows.deep_view()),
{
    let ghost dv = rows.deep_view();
    let mut r: Vec<Entry> = Vec::new();
    let mut i: usize = 0;
    while i < rows.len()
        invariant
            i <= rows@.len(),
            dv == rows.deep_view(),
            dv.len() == rows@.len(),
            forall|k: int| 0 <= k < rows@.len() ==> #[trigger] rows@[k]@.len() >= 2,
            r.deep_view() =~= entries_of_rows(dv).take(i as int),
        decreases rows@.len() - i,
    {
        let row = &rows[i];
        let e = Entry { name: row[0].clone(), address: row[1].clone() };
        proof {
            assert(dv[i as int] == rows@[i as int].deep_view());
            assert(dv[i as int][0] == rows@[i as int]@[0]@);
            assert(dv[i as int][1] == rows@[i as int]@[1]@);
            assert(e@ == entries_of_rows(dv)[i as int]);
        }
        let ghost old_r = r.deep_view();
        r.push(e);
        proof {
            assert(r.deep_view() =~= old_r.push(e@));
            assert(r.deep_view() =~= entries_of_rows(dv).take(i as int + 1));
        }
        i = i + 1;
    }
    proof {
        assert(entries_of_rows(dv).take(dv.len() as int) =~= entries_of_rows(dv));
    }
    r
}

/// Extract the fields of one override line in row form: split on `/`,
/// drop the leading marker segment, keep every later segment — empty
/// fields included, so `address=//` yields two empty fields. A line
/// without separators yields no fields.
pub fn parse_address_string(address: &str) -> (r: Vec<String>)
    ensures
        r.deep_view() == split_at_char(address@, '/').drop_first(),
{
    let mut parts = split_chars(address, '/');
    proof {
        lemma_split_at_char_len(address@, '/');
    }
    let ghost before = parts.deep_view();
    parts.remove(0);
    proof {
        assert(parts.deep_view() =~= before.drop_first());
    }
    parts
}

/// Serialize rows into the backing-file text, one line per row.
pub fn parse_address_vector_into_address_string(addresses: Vec<Vec<String>>) -> (r: String)
    requires
        forall|i: int| 0 <= i < addresses@.len() ==> #[trigger] addresses@[i]@.len() >= 2,
    ensures
        r@ == encode_list_spec(entries_of_rows(addresses.deep_view())),
{
    let entries = rows_to_entries(&addresses);
    encode_list(&entries)
}

/// Serialize rows into the JSON rendering of the list.
pub fn parse_address_vector_into_json_string(addresses: Vec<Vec<String>>) -> (r: String)
    requires
        forall|i: int| 0 <= i < addresses@.len() ==> #[trigger] addresses@[i]@.len() >= 2,
    ensures
        r@ == json_list_spec(entries_of_rows(addresses.deep_view())),
{
    let entries = rows_to_entries(&addresses);
    encode_list_as_json(&entries)
}

} // verus!
