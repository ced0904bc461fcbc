//! A small transparent reverse proxy library: parsing and rewriting of
//! HTTP-like header blocks, and the per-connection decision logic that
//! sequences the proxy lifecycle (rewrite, connect, forward, relay, stream).
//!
//! The surrounding executable (listener, sockets, worker pool) lives outside
//! this crate; everything here is pure logic over plain values.

pub mod headers;
pub mod proxy;
pub mod text;
pub mod transform;

pub use proxy::Builder;
pub use proxy::Handler;

use vstd::prelude::*;

verus! {

/// The two-character line terminator of a header block.
pub open spec fn crlf() -> Seq<char> {
    seq!['\r', '\n']
}

/// True when a carriage-return/line-feed pair sits at position `i` of `s`.
pub open spec fn crlf_at(s: Seq<char>, i: int) -> bool {
    0 <= i && i + 2 <= s.len() && s[i] == '\r' && s[i + 1] == '\n'
}

} // verus!
