//! The hub's error taxonomy: transport failures, per-session protocol
//! faults, lock poisoning, and startup exhaustion.
//!
//! Transport and parse errors are always recoverable at the scope of one
//! session; a poisoned lock is fatal for the operation that met it but not
//! for the server; no available port is fatal at startup only. The binary
//! maps its lock and socket failures into these variants.

use vstd::prelude::*;
use vstd::string::StringExecFns;

verus! {

/// Everything that can go wrong around a session, by kind.
#[derive(Debug)]
pub enum ChatServerError {
    IoError(String),
    ClientDisconnected(String),
    JsonError(String),
    PoisonedLock,
    NoAvailablePorts,
}

/// The result type the hub's fallible operations use.
pub type ChatResult<T> = Result<T, ChatServerError>;

impl ChatServerError {
    /// The human-readable description of the error.
    pub fn describe(&self) -> (r: String)
        ensures
            match *self {
                ChatServerError::IoError(ref m) => r@ == "IO error: "@ + m@,
                ChatServerError::ClientDisconnected(ref m) => r@ == "Client disconnected: "@
                    + m@,
                ChatServerError::JsonError(ref m) => r@ == "Failed to parse JSON: "@ + m@,
                ChatServerError::PoisonedLock => r@ == "Resource lock poisoned"@,
                ChatServerError::NoAvailablePorts => r@ == "No available ports"@,
            },
    {
        match self {
            ChatServerError::IoError(m) => {
                let mut s = String::from_str("IO error: ");
                s.append(m.as_str());
                s
            },
            ChatServerError::ClientDisconnected(m) => {
                let mut s = String::from_str("Client disconnected: ");
                s.append(m.as_str());
                s
            },
            ChatServerError::JsonError(m) => {
                let mut s = String::from_str("Failed to parse JSON: ");
                s.append(m.as_str());
                s
            },
            ChatServerError::PoisonedLock => String::from_str("Resource lock poisoned"),
            ChatServerError::NoAvailablePorts => String::from_str("No available ports"),
        }
    }
}

} // verus!
