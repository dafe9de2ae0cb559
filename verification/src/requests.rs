//! Client messages: the requests a client sends on the client port, and
//! their responses.

use vstd::prelude::*;

verus! {

/// A request received on the client port.
pub enum RequestsEnum {
    /// Store `value` under `key` for `ttl` seconds.
    Put { key: String, value: String, ttl: u64 },
    /// Read the value under `key`.
    Get { key: String },
    /// Ask whether `key` has a live entry.
    Exists { key: String },
    /// End this client's session; only its connection closes.
    Exit,
}

/// The response to a client request.
pub enum ReqResponseEnum {
    /// The value was stored.
    Put,
    /// The value under the key, or `None` when the key has no live entry —
    /// a valid outcome, not an error.
    Get { key: String, value: Option<String> },
    /// Whether the key has a live entry.  (The field cannot carry the
    /// wire name `exists`, a reserved word of the verifier.)
    Exists { present: bool },
    /// The request could not be processed: its key is owned by a node the
    /// directory has no connection to.
    ErrorProcessingCommand,
}

} // verus!
