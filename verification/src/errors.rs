//! Error types shared by the server's protocol front ends.

use vstd::prelude::*;

verus! {

/// Error raised by a protocol server front end (RTMP / HTTP-FLV accept loops).
pub struct ServerError {
    pub value: ServerErrorValue,
}

/// The kinds of server front-end errors.
pub enum ServerErrorValue {
    Error,
}

impl ServerError {
    /// A short description of the error, for logging.
    pub fn describe(&self) -> (s: &'static str)
        ensures
            s@ == seq!['s', 'e', 'r', 'v', 'e', 'r', ' ', 'e', 'r', 'r', 'o', 'r'],
    {
        proof {
            reveal_strlit("server error");
        }
        "server error"
    }
}

} // verus!
