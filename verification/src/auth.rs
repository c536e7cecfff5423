//! The authorization check: a request's secret is compared for exact
//! equality against the stored token after the token has been trimmed of
//! surrounding whitespace. Reading the token file is the caller's job;
//! the decision itself is pure.

use vstd::prelude::*;

use crate::text::str_eq;
use crate::text::trim_spec;
use crate::text::trim_str;

verus! {

/// Whether `secret` authorizes a request under the stored `token` text.
pub open spec fn authorized_spec(token: Seq<char>, secret: Seq<char>) -> bool {
    trim_spec(token) == secret
}

/// Decide authorization: the trimmed token must equal the secret exactly.
pub fn is_authorized(token: &str, secret: &str) -> (r: bool)
    ensures
        r == authorized_spec(token@, secret@),
{
    let trimmed = trim_str(token);
    str_eq(trimmed.as_str(), secret)
}

} // verus!
