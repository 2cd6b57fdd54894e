//! Core of a line-delimited text broadcast hub.
//!
//! Clients connect over a persistent stream, register a display name, and
//! exchange structured envelopes; every registered session receives what the
//! others send, plus a replay of prior history on join. This crate holds the
//! verified core: the message model and its wire codec, the session registry,
//! the append-only history log, the broadcast engine with partial-failure
//! pruning, and the per-connection protocol state machine. The unverified
//! binary around it only moves bytes between sockets and these functions.

pub mod client;
pub mod codec;
pub mod engine;
pub mod errors;
pub mod history;
pub mod message;
pub mod registry;

use vstd::prelude::*;
use vstd::string::StrSliceExecFns;

verus! {

/// Display names are chosen once at handshake and must be 1 to 20 characters.
pub open spec fn spec_valid_name(name: Seq<char>) -> bool {
    1 <= name.len() <= 20
}

/// Whether `name` may serve as a session's display name: non-empty and at
/// most 20 characters.
pub fn valid_name(name: &str) -> (r: bool)
    ensures
        r == spec_valid_name(name@),
{
    let n = name.unicode_len();
    1 <= n && n <= 20
}

} // verus!
