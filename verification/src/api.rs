//! The request-level decisions behind the HTTP surface: authorize, load
//! the stored list, apply the requested mutation in memory, and hand back
//! a reconciler ready to drive the persist/restart protocol. Reading the
//! two files and serving HTTP stay with the caller; nothing here performs
//! I/O, and no write is ever demanded unless a reconciler is returned.

use vstd::prelude::*;

use crate::auth::authorized_spec;
use crate::auth::is_authorized;
use crate::codec::Entry;
use crate::codec::EntryModel;
use crate::codec::encode_list_as_json;
use crate::codec::json_list_spec;
use crate::reconcile::Phase;
use crate::reconcile::Reconciler;
use crate::store::clone_entries;
use crate::store::delete;
use crate::store::delete_spec;
use crate::store::load;
use crate::store::load_spec;

verus! {

/// Why a mutating request was refused before any write was demanded.
#[derive(Clone, Copy, Debug, PartialEq, Eq, Structural)]
pub enum ApiError {
    /// The request's secret did not equal the trimmed stored token.
    Unauthorized,
    /// A non-empty line of the stored entries text did not decode.
    MalformedStore,
}

/// The JSON rendering of the stored list, when the text decodes.
pub open spec fn list_result_spec(t: Seq<char>) -> Option<Seq<char>> {
    match load_spec(t) {
        Some(es) => Some(json_list_spec(es)),
        None => None,
    }
}

/// Pure read: render the stored list as JSON, in file order. No
/// mutation happens, so there is nothing to reconcile or roll back.
pub fn list(file_text: &str) -> (r: Option<String>)
    ensures
        match r {
            Some(s) => list_result_spec(file_text@) == Some(s@),
            None => list_result_spec(file_text@) is None,
        },
{
    match load(file_text) {
        None => None,
        Some(entries) => Some(encode_list_as_json(&entries)),
    }
}

/// Listing is pure: its result is a function of the stored text alone,
/// so two list results over the same text — no intervening mutation —
/// are identical.
pub proof fn lemma_list_idempotent(t: Seq<char>, r1: Option<Seq<char>>, r2: Option<Seq<char>>)
    requires
        r1 == list_result_spec(t),
        r2 == list_result_spec(t),
    ensures
        r1 == r2,
{
}

/// Begin an add request: authorize against the stored token, load the
/// stored list, append the entry, and return the reconciler that will
/// apply the change. A secret mismatch refuses the request with no
/// reconciler, so no write is ever demanded for it.
pub fn start_add(
    file_text: &str,
    token_text: &str,
    secret: &str,
    name: String,
    address: String,
) -> (r: Result<Reconciler, ApiError>)
    ensures
        match r {
            Err(ApiError::Unauthorized) => !authorized_spec(token_text@, secret@),
            Err(ApiError::MalformedStore) => authorized_spec(token_text@, secret@) && load_spec(
                file_text@,
            ) is None,
            Ok(rec) => authorized_spec(token_text@, secret@) && load_spec(file_text@) is Some
                && rec.wf() && rec.phase == Phase::Writing && !rec.file_known@
                && rec.original.deep_view() == load_spec(file_text@).unwrap()
                && rec.updated.deep_view() == load_spec(file_text@).unwrap().push(
                EntryModel { name: name@, address: address@ },
            ),
        },
{
    if !is_authorized(token_text, secret) {
        return Err(ApiError::Unauthorized);
    }
    match load(file_text) {
        None => Err(ApiError::MalformedStore),
        Some(entries) => {
            let original = clone_entries(&entries);
            let updated = crate::store::add(entries, Entry { name, address });
            Ok(Reconciler::new(original, updated))
        },
    }
}

/// Begin a delete request: authorize against the stored token, load the
/// stored list, remove every entry matching the pair, and return the
/// reconciler that will apply the change. A secret mismatch refuses the
/// request with no reconciler, so no write is ever demanded for it.
pub fn start_delete(
    file_text: &str,
    token_text: &str,
    secret: &str,
    name: &str,
    address: &str,
) -> (r: Result<Reconciler, ApiError>)
    ensures
        match r {
            Err(ApiError::Unauthorized) => !authorized_spec(token_text@, secret@),
            Err(ApiError::MalformedStore) => authorized_spec(token_text@, secret@) && load_spec(
                file_text@,
            ) is None,
            Ok(rec) => authorized_spec(token_text@, secret@) && load_spec(file_text@) is Some
                && rec.wf() && rec.phase == Phase::Writing && !rec.file_known@
                && rec.original.deep_view() == load_spec(file_text@).unwrap()
                && rec.updated.deep_view() == delete_spec(
                load_spec(file_text@).unwrap(),
                name@,
                address@,
            ),
        },
{
    if !is_authorized(token_text, secret) {
        return Err(ApiError::Unauthorized);
    }
    match load(file_text) {
        None => Err(ApiError::MalformedStore),
        Some(entries) => {
            let original = clone_entries(&entries);
            let updated = delete(entries, name, address);
            Ok(Reconciler::new(original, updated))
        },
    }
}

} // verus!
