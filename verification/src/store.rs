//! The entry store: loading the ordered entry list from the backing-file
//! text, appending an entry, and deleting every entry that matches a
//! (name, address) pair while preserving the order of the survivors.

use vstd::prelude::*;
use vstd::string::StrSliceExecFns;

use crate::codec::Entry;
use crate::codec::EntryModel;
use crate::codec::decode_line;
use crate::codec::decode_line_spec;
use crate::codec::encode_entry_spec;
use crate::codec::encode_list_spec;
use crate::codec::entry_fields_clean;
use crate::codec::lemma_encode_decode_round_trip;
use crate::codec::strip_newline;
use crate::text::lemma_split_term_prepend;
use crate::text::split_term_at_char;
use crate::text::split_terminator_chars;
use crate::text::str_eq;

verus! {

/// The non-empty lines of `ls`, in order.
pub open spec fn keep_nonempty(ls: Seq<Seq<char>>) -> Seq<Seq<char>>
    decreases ls.len(),
{
    if ls.len() == 0 {
        Seq::empty()
    } else if ls[0].len() > 0 {
        seq![ls[0]] + keep_nonempty(ls.drop_first())
    } else {
        keep_nonempty(ls.drop_first())
    }
}

/// Decode every line of `ls`; `None` as soon as one line fails.
pub open spec fn decode_lines_spec(ls: Seq<Seq<char>>) -> Option<Seq<EntryModel>>
    decreases ls.len(),
{
    if ls.len() == 0 {
        Some(Seq::empty())
    } else {
        match decode_line_spec(ls[0]) {
            None => None,
            Some(e) => match decode_lines_spec(ls.drop_first()) {
                None => None,
                Some(rest) => Some(seq![e] + rest),
            },
        }
    }
}

/// The entry list stored in the backing-file text `t`: its non-empty
/// lines decoded in order, or `None` when one of them does not decode.
pub open spec fn load_spec(t: Seq<char>) -> Option<Seq<EntryModel>> {
    decode_lines_spec(keep_nonempty(split_term_at_char(t, '\n')))
}

/// Load the entry list from the full contents of the backing file.
pub fn load(text: &str) -> (r: Option<Vec<Entry>>)
    ensures
        match r {
            Some(v) => load_spec(text@) == Some(v.deep_view()),
            None => load_spec(text@) is None,
        },
{
    let lines = split_terminator_chars(text, '\n');
    let ghost lv = lines.deep_view();
    let mut r: Vec<Entry> = Vec::new();
    let mut i: usize = 0;
    proof {
        assert(lv.skip(0) =~= lv);
        assert(r.deep_view() =~= Seq::<EntryModel>::empty());
    }
    while i < lines.len()
        invariant
            i <= lines@.len(),
            lv == lines.deep_view(),
            lv.len() == lines@.len(),
            match decode_lines_spec(keep_nonempty(lv.skip(i as int))) {
                Some(rest) => load_spec(text@) == Some(r.deep_view() + rest),
                None => load_spec(text@) is None,
            },
        decreases lines@.len() - i,
    {
        let line = &lines[i];
        let ghost suf = lv.skip(i as int);
        proof {
            assert(suf[0] == lv[i as int]);
            assert(suf[0] == line@);
            assert(suf.drop_first() =~= lv.skip(i as int + 1));
        }
        if line.as_str().unicode_len() == 0 {
            proof {
                assert(keep_nonempty(suf) == keep_nonempty(lv.skip(i as int + 1)));
            }
        } else {
            let ghost ne = keep_nonempty(suf);
            proof {
                assert(ne == seq![line@] + keep_nonempty(lv.skip(i as int + 1)));
                assert(ne[0] == line@);
                assert(ne.drop_first() =~= keep_nonempty(lv.skip(i as int + 1)));
            }
            match decode_line(line.as_str()) {
                None => {
                    proof {
                        assert(decode_lines_spec(ne) is None);
                    }
                    return None;
                },
                Some(e) => {
                    let ghost old_r = r.deep_view();
                    r.push(e);
                    proof {
                        assert(r.deep_view() =~= old_r.push(e@));
                        match decode_lines_spec(keep_nonempty(lv.skip(i as int + 1))) {
                            Some(rest) => {
                                assert(decode_lines_spec(ne) == Some(seq![e@] + rest));
                                assert(old_r + (seq![e@] + rest) =~= r.deep_view() + rest);
                            },
                            None => {
                                assert(decode_lines_spec(ne) is None);
                            },
                        }
                    }
                },
            }
        }
        i = i + 1;
    }
    proof {
        assert(lv.skip(lv.len() as int) =~= Seq::<Seq<char>>::empty());
        assert(keep_nonempty(lv.skip(lv.len() as int)) == Seq::<Seq<char>>::empty());
        assert(r.deep_view() + Seq::<EntryModel>::empty() =~= r.deep_view());
    }
    Some(r)
}

/// A field-for-field copy of the list, e.g. to keep the original while a
/// mutated list is being applied.
pub fn clone_entries(list: &Vec<Entry>) -> (r: Vec<Entry>)
    ensures
        r.deep_view() == list.deep_view(),
{
    let mut r: Vec<Entry> = Vec::new();
    let mut i: usize = 0;
    while i < list.len()
        invariant
            i <= list@.len(),
            list.deep_view().len() == list@.len(),
            r.deep_view() =~= list.deep_view().take(i as int),
        decreases list@.len() - i,
    {
        let e = Entry { name: list[i].name.clone(), address: list[i].address.clone() };
        let ghost old_r = r.deep_view();
        r.push(e);
        proof {
            assert(e@ == list.deep_view()[i as int]);
            assert(r.deep_view() =~= old_r.push(e@));
            assert(r.deep_view() =~= list.deep_view().take(i as int + 1));
        }
        i = i + 1;
    }
    proof {
        assert(list.deep_view().take(list@.len() as int) =~= list.deep_view());
    }
    r
}

/// Append `e` to the end of the list. Always succeeds; duplicates stay.
pub fn add(list: Vec<Entry>, e: Entry) -> (r: Vec<Entry>)
    ensures
        r.deep_view() == list.deep_view().push(e@),
{
    let ghost before = list.deep_view();
    let mut r = list;
    r.push(e);
    proof {
        assert(r.deep_view() =~= before.push(r@[r@.len() - 1]@));
    }
    r
}

/// Whether an entry matches a (name, address) pair exactly.
pub open spec fn entry_matches(e: EntryModel, name: Seq<char>, address: Seq<char>) -> bool {
    e.name == name && e.address == address
}

/// The list with every entry matching (name, address) removed, survivors
/// keeping their relative order.
pub open spec fn delete_spec(es: Seq<EntryModel>, name: Seq<char>, address: Seq<char>) -> Seq<
    EntryModel,
>
    decreases es.len(),
{
    if es.len() == 0 {
        Seq::empty()
    } else {
        let rest = delete_spec(es.drop_first(), name, address);
        if entry_matches(es[0], name, address) {
            rest
        } else {
            seq![es[0]] + rest
        }
    }
}

/// Remove every entry whose name and address both match; a no-op when
/// nothing matches.
pub fn delete(list: Vec<Entry>, name: &str, address: &str) -> (r: Vec<Entry>)
    ensures
        r.deep_view() == delete_spec(list.deep_view(), name@, address@),
{
    let ghost dv = list.deep_view();
    let mut r: Vec<Entry> = Vec::new();
    let mut i: usize = 0;
    proof {
        assert(dv.skip(0) =~= dv);
    }
    while i < list.len()
        invariant
            i <= list@.len(),
            dv == list.deep_view(),
            dv.len() == list@.len(),
            delete_spec(dv, name@, address@) == r.deep_view() + delete_spec(
                dv.skip(i as int),
                name@,
                address@,
            ),
        decreases list@.len() - i,
    {
        let ghost suf = dv.skip(i as int);
        proof {
            assert(suf[0] == dv[i as int]);
            assert(suf[0] == list@[i as int]@);
            assert(suf.drop_first() =~= dv.skip(i as int + 1));
        }
        let keep = !(str_eq(list[i].name.as_str(), name) && str_eq(
            list[i].address.as_str(),
            address,
        ));
        if keep {
            let e = Entry { name: list[i].name.clone(), address: list[i].address.clone() };
            proof {
                assert(e@ == dv[i as int]);
                assert(!entry_matches(suf[0], name@, address@));
            }
            let ghost old_r = r.deep_view();
            r.push(e);
            proof {
                assert(r.deep_view() =~= old_r.push(e@));
                assert(old_r + (seq![e@] + delete_spec(dv.skip(i as int + 1), name@, address@))
                    =~= r.deep_view() + delete_spec(dv.skip(i as int + 1), name@, address@));
            }
        } else {
            proof {
                assert(entry_matches(suf[0], name@, address@));
            }
        }
        i = i + 1;
    }
    proof {
        assert(dv.skip(dv.len() as int) =~= Seq::<EntryModel>::empty());
        assert(r.deep_view() + Seq::<EntryModel>::empty() =~= r.deep_view());
    }
    r
}

/// The backing file is a faithful image of the list written to it: the
/// text encoded for a list of clean-field entries loads back as exactly
/// that list. In particular, the state a commit or a rollback leaves on
/// disk is the state the next request loads.
pub proof fn lemma_load_of_encode_list(es: Seq<EntryModel>)
    requires
        forall|i: int| 0 <= i < es.len() ==> entry_fields_clean(#[trigger] es[i]),
    ensures
        load_spec(encode_list_spec(es)) == Some(es),
    decreases es.len(),
{
    reveal_strlit("address=/");
    reveal_strlit("/");
    reveal_strlit("\n");
    if es.len() == 0 {
        assert(encode_list_spec(es) == Seq::<char>::empty());
        assert(split_term_at_char(Seq::<char>::empty(), '\n') == Seq::<Seq<char>>::empty());
        assert(keep_nonempty(Seq::<Seq<char>>::empty()) == Seq::<Seq<char>>::empty());
        assert(decode_lines_spec(Seq::<Seq<char>>::empty()) == Some(Seq::<EntryModel>::empty()));
        assert(es =~= Seq::<EntryModel>::empty());
    } else {
        let e0 = es[0];
        let body = "address=/"@ + e0.name + "/"@ + e0.address;
        let tail = encode_list_spec(es.drop_first());
        assert(encode_entry_spec(e0) =~= body + seq!['\n']);
        assert(encode_list_spec(es) == encode_entry_spec(e0) + tail);
        assert(encode_list_spec(es) =~= body + seq!['\n'] + tail);
        assert(forall|j: int| 0 <= j < 9 ==> body[j] == "address=/"@[j]);
        assert(forall|j: int| 9 <= j < 9 + e0.name.len() ==> body[j] == e0.name[j - 9]);
        assert(body[9 + e0.name.len() as int] == '/');
        assert(forall|j: int|
            9 + e0.name.len() + 1 <= j < body.len() ==> body[j] == e0.address[j - (9
                + e0.name.len() as int + 1)]);
        assert(forall|j: int| 0 <= j < body.len() ==> body[j] != '\n');
        lemma_split_term_prepend(body, '\n', tail);
        assert(split_term_at_char(encode_list_spec(es), '\n') == seq![body] + split_term_at_char(
            tail,
            '\n',
        ));
        let ls = seq![body] + split_term_at_char(tail, '\n');
        assert(ls[0] == body);
        assert(ls.drop_first() =~= split_term_at_char(tail, '\n'));
        assert(body.len() > 0);
        assert(keep_nonempty(ls) == seq![body] + keep_nonempty(split_term_at_char(tail, '\n')));
        lemma_encode_decode_round_trip(e0);
        assert(body[body.len() - 1] != '\n');
        assert(strip_newline(body) == body);
        assert(strip_newline(encode_entry_spec(e0)) =~= body);
        assert(decode_line_spec(body) == Some(e0));
        assert(forall|i: int|
            0 <= i < es.drop_first().len() ==> entry_fields_clean(
                #[trigger] es.drop_first()[i],
            )) by {
            assert(forall|i: int|
                0 <= i < es.drop_first().len() ==> es.drop_first()[i] == es[i + 1]);
        }
        lemma_load_of_encode_list(es.drop_first());
        let ne_tail = keep_nonempty(split_term_at_char(tail, '\n'));
        assert(decode_lines_spec(ne_tail) == Some(es.drop_first()));
        let ls2 = seq![body] + ne_tail;
        assert(ls2[0] == body);
        assert(ls2.drop_first() =~= ne_tail);
        assert(decode_lines_spec(ls2) == Some(seq![e0] + es.drop_first()));
        assert(seq![e0] + es.drop_first() =~= es);
    }
}

/// Deleting a pair that matches nothing in the list leaves it unchanged.
pub proof fn lemma_delete_no_match(es: Seq<EntryModel>, name: Seq<char>, address: Seq<char>)
    requires
        forall|i: int| 0 <= i < es.len() ==> !entry_matches(#[trigger] es[i], name, address),
    ensures
        delete_spec(es, name, address) == es,
    decreases es.len(),
{
    if es.len() == 0 {
        assert(delete_spec(es, name, address) =~= es);
    } else {
        assert(forall|i: int|
            0 <= i < es.drop_first().len() ==> !entry_matches(
                #[trigger] es.drop_first()[i],
                name,
                address,
            )) by {
            assert(forall|i: int|
                0 <= i < es.drop_first().len() ==> es.drop_first()[i] == es[i + 1]);
        }
        lemma_delete_no_match(es.drop_first(), name, address);
        assert(!entry_matches(es[0], name, address));
        assert(seq![es[0]] + es.drop_first() =~= es);
    }
}

/// Deleting the name and address of an entry that did not occur in the
/// list undoes its addition: the original list comes back, order intact.
pub proof fn lemma_add_then_delete(es: Seq<EntryModel>, e: EntryModel)
    requires
        forall|i: int| 0 <= i < es.len() ==> !entry_matches(#[trigger] es[i], e.name, e.address),
    ensures
        delete_spec(es.push(e), e.name, e.address) == es,
    decreases es.len(),
{
    if es.len() == 0 {
        assert(es.push(e)[0] == e);
        assert(es.push(e).drop_first() =~= Seq::<EntryModel>::empty());
        assert(delete_spec(Seq::<EntryModel>::empty(), e.name, e.address)
            == Seq::<EntryModel>::empty());
        assert(delete_spec(es.push(e), e.name, e.address) =~= es);
    } else {
        assert(forall|i: int|
            0 <= i < es.drop_first().len() ==> !entry_matches(
                #[trigger] es.drop_first()[i],
                e.name,
                e.address,
            )) by {
            assert(forall|i: int|
                0 <= i < es.drop_first().len() ==> es.drop_first()[i] == es[i + 1]);
        }
        lemma_add_then_delete(es.drop_first(), e);
        assert(es.push(e).drop_first() =~= es.drop_first().push(e));
        assert(es.push(e)[0] == es[0]);
        assert(!entry_matches(es[0], e.name, e.address));
        assert(seq![es[0]] + es.drop_first() =~= es);
    }
}

/// Deletion removes every match: however many times the pair occurred in
/// the list, none of the surviving entries matches it.
pub proof fn lemma_delete_removes_all(es: Seq<EntryModel>, name: Seq<char>, address: Seq<char>)
    ensures
        forall|i: int|
            0 <= i < delete_spec(es, name, address).len() ==> !entry_matches(
                #[trigger] delete_spec(es, name, address)[i],
                name,
                address,
            ),
    decreases es.len(),
{
    if es.len() == 0 {
    } else {
        lemma_delete_removes_all(es.drop_first(), name, address);
        let rest = delete_spec(es.drop_first(), name, address);
        if !entry_matches(es[0], name, address) {
            assert(forall|i: int|
                0 <= i < (seq![es[0]] + rest).len() ==> !entry_matches(
                    #[trigger] (seq![es[0]] + rest)[i],
                    name,
                    address,
                )) by {
                assert(forall|i: int| 1 <= i < (seq![es[0]] + rest).len() ==> (seq![es[0]]
                    + rest)[i] == rest[i - 1]);
            }
        }
    }
}

} // verus!
