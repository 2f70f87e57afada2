//! Core of a live-streaming media server: RTMP ingest, an in-process
//! publish/subscribe stream hub with a GOP cache, and FLV remux for
//! HTTP-FLV egress.

use vstd::prelude::*;

pub mod amf0;
pub mod bytesio;
pub mod chunk;
pub mod errors;
pub mod flv;
pub mod gop;
pub mod handshake;
pub mod httpflv;
pub mod session;
pub mod streamhub;

verus! {

} // verus!
