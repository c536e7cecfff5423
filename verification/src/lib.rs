//! Verified core of a dnsmasq override-entry control daemon.
//!
//! The library owns the entry codec (the `address=/<name>/<address>` line
//! format and its JSON rendering), the entry store (load, add, delete), the
//! token comparison used for authorization, and the write/restart/rollback
//! reconciliation state machine. All file and process I/O lives outside the
//! library and is driven through the state machine's demanded actions.

pub mod api;
pub mod auth;
pub mod codec;
pub mod reconcile;
pub mod store;
pub mod text;
