//! Proxy configuration and the per-connection decision logic.
//!
//! One accepted connection runs through a fixed sequence: receive the
//! request, rewrite its Host line, connect upstream, forward, relay the
//! response preamble, then stream the body in chunks.  Everything that
//! decides — whether to reject, what to forward, when the body relay stops —
//! lives here as functions from plain values to plain values; the
//! surrounding executable performs the reads and writes and hands the
//! outcomes back in.

use vstd::prelude::*;
use vstd::string::StrSliceExecFns;

use crate::headers::{decode_utf8_exec, Headers};
use crate::transform::spec_change_host;

verus! {

/// Severity of one log line.
#[derive(Debug, Clone, Copy, PartialEq, Eq, Structural)]
pub enum LogLevel {
    Info,
    Warn,
    Error,
}

/// Default number of bytes of one body chunk.
pub const CHUNK_SIZE: usize = 1024;

/// Default upstream target address.
pub const TARGET_ADDRESS: &'static str = "127.0.0.1:3001";

/// Default number of worker threads.
pub const THREADS: usize = 4;

/// Default log verbosity.
pub const LOG_LEVEL: LogLevel = LogLevel::Info;

/// Default listen address.
pub const PROXY_ADDRESS: &'static str = "127.0.0.1:3000";

/// Milliseconds a handler waits after a failed upstream connect: a throttle
/// against tight failure loops when the upstream is down, not a retry.
pub const CONNECT_FAILURE_DELAY_MS: u64 = 100;

/// Immutable proxy configuration, built once before bind and copied into
/// each connection handler.
#[derive(Debug, Clone, Copy)]
pub struct Builder {
    pub address: &'static str,
    pub target: &'static str,
    pub log_level: LogLevel,
    pub threads: usize,
    pub chunk_size: usize,
}

impl Builder {
    /// Creates a configuration holding the default parameters.
    pub fn new() -> (b: Builder)
        ensures
            b.address@ == PROXY_ADDRESS@,
            b.target@ == TARGET_ADDRESS@,
            b.log_level == LOG_LEVEL,
            b.threads == THREADS,
            b.chunk_size == CHUNK_SIZE,
    {
        Builder {
            address: PROXY_ADDRESS,
            target: TARGET_ADDRESS,
            log_level: LOG_LEVEL,
            threads: THREADS,
            chunk_size: CHUNK_SIZE,
        }
    }

    /// Sets the listen address.
    pub fn with_address(self, address: &'static str) -> (b: Builder)
        ensures
            b == (Builder { address, ..self }),
    {
        Builder { address, ..self }
    }

    /// Sets the upstream target address.
    pub fn with_target(self, target: &'static str) -> (b: Builder)
        ensures
            b == (Builder { target, ..self }),
    {
        Builder { target, ..self }
    }

    /// Sets the log verbosity.
    pub fn with_log_level(self, log_level: LogLevel) -> (b: Builder)
        ensures
            b == (Builder { log_level, ..self }),
    {
        Builder { log_level, ..self }
    }

    /// Sets the number of worker threads.
    pub fn with_threads(self, threads: usize) -> (b: Builder)
        ensures
            b == (Builder { threads, ..self }),
    {
        Builder { threads, ..self }
    }
}

/// Response statuses the proxy produces on its own, without an upstream.
#[derive(Debug, Clone, Copy, PartialEq, Eq, Structural)]
pub enum Status {
    /// The client request carried no Host line.
    BadRequest,
    /// The upstream target could not be reached.
    BadGateway,
}

/// What the handler decides to do with one received request.
#[derive(Debug)]
pub enum RequestPlan {
    /// No usable Host line: answer 400 with an empty body and open no
    /// upstream connection.
    Reject,
    /// Send these rewritten request bytes to the upstream target.
    Forward(Vec<u8>),
}

/// The forwardable form of a received request: its text with the Host line
/// rewritten to the target, as bytes.  `None` when the bytes are not UTF-8
/// text or no Host line exists — the request is then rejected.
pub open spec fn spec_plan(target: Seq<char>, request: Seq<u8>) -> Option<Seq<u8>> {
    if !vstd::utf8::valid_utf8(request) {
        None
    } else {
        match spec_change_host(vstd::utf8::decode_utf8(request), target) {
            None => None,
            Some(t) => Some(vstd::utf8::encode_utf8(t)),
        }
    }
}

/// The handler of one accepted connection: a copy of the configuration and
/// the decisions made from it.
pub struct Handler {
    pub config: Builder,
}

impl Handler {
    /// Creates the handler for one accepted connection, holding its own
    /// copy of the configuration.
    pub fn new(config: Builder) -> (h: Handler)
        ensures
            h.config == config,
    {
        Handler { config }
    }

    /// The rewrite decision for one received request: reject when it holds
    /// no rewritable Host line (or is not text), otherwise forward it with
    /// the Host line naming the configured target.
    pub fn plan_request(&self, request: &Vec<u8>) -> (p: RequestPlan)
        ensures
            p is Reject <==> spec_plan(self.config.target@, request@) is None,
            p matches RequestPlan::Forward(f) ==> Some(f@) == spec_plan(
                self.config.target@,
                request@,
            ),
    {
        match decode_utf8_exec(request) {
            None => RequestPlan::Reject,
            Some(text) => {
                match Headers::change_host(text, self.config.target) {
                    None => RequestPlan::Reject,
                    Some(rewritten) => RequestPlan::Forward(rewritten.as_str().as_bytes_vec()),
                }
            },
        }
    }
}

/// The two-line empty-body terminator written to the client after a status
/// line when the proxy answers without an upstream.
pub fn empty_body_terminator() -> (r: &'static str)
    ensures
        r@ == "Content-Length: 0\r\n\r\n"@,
{
    "Content-Length: 0\r\n\r\n"
}

/// The kind of a failed chunk read.
#[derive(Debug, Clone, Copy, PartialEq, Eq, Structural)]
pub enum ReadFailure {
    /// The peer reset the connection — expected when an upstream closes
    /// abruptly.
    PeerReset,
    /// Any other I/O fault.
    Other,
}

/// One observed outcome of an upstream body read.
#[derive(Debug)]
pub enum ChunkEvent {
    /// The read returned these bytes.
    Data(Vec<u8>),
    /// The read returned nothing: the upstream closed the stream.
    Closed,
    /// The read failed.
    Failed(ReadFailure),
}

/// What the body relay does after one observed read.
#[derive(Debug)]
pub enum ChunkAction {
    /// Write these bytes to the client and read the next chunk.
    Send(Vec<u8>),
    /// Log at this severity and read the next chunk.
    Retry(LogLevel),
    /// The body is over, or the relay gives up: close the connection.
    Stop,
}

/// Reads that may fail in a row before the relay stops rather than spin.
pub const MAX_READ_FAILURES: u32 = 8;

/// Severity at which one failed read is logged: a peer reset is expected
/// and informational, anything else is an error.
pub open spec fn fail_level(f: ReadFailure) -> LogLevel {
    match f {
        ReadFailure::PeerReset => LogLevel::Info,
        ReadFailure::Other => LogLevel::Error,
    }
}

/// The body-relay state machine: data is forwarded, end of stream stops the
/// relay, and failed reads are logged and retried at most
/// [`MAX_READ_FAILURES`] times in a row.
#[derive(Debug)]
pub struct BodyRelay {
    /// Failed reads observed since the last successful one.
    pub failures: u32,
}

impl BodyRelay {
    /// A fresh relay, before the first chunk read.
    pub fn new() -> (r: BodyRelay)
        ensures
            r.failures == 0,
    {
        BodyRelay { failures: 0 }
    }

    /// Advances the relay by one observed read and says what to do next.
    pub fn step(&mut self, event: ChunkEvent) -> (a: ChunkAction)
        ensures
            match event {
                ChunkEvent::Data(d) => {
                    &&& d@.len() > 0 ==> (a matches ChunkAction::Send(x)
                        && x@ == d@) && final(self).failures == 0
                    &&& d@.len() == 0 ==> a is Stop && *final(self) == *old(self)
                },
                ChunkEvent::Closed => a is Stop && *final(self) == *old(self),
                ChunkEvent::Failed(f) => {
                    &&& old(self).failures + 1 < MAX_READ_FAILURES ==> (a matches
                        ChunkAction::Retry(l)
                        && l == fail_level(f)) && final(self).failures == old(self).failures + 1
                    &&& old(self).failures + 1 >= MAX_READ_FAILURES ==> a is Stop
                },
            },
    {
        match event {
            ChunkEvent::Data(d) => {
                if d.len() > 0 {
                    self.failures = 0;
                    ChunkAction::Send(d)
                } else {
                    ChunkAction::Stop
                }
            },
            ChunkEvent::Closed => ChunkAction::Stop,
            ChunkEvent::Failed(f) => {
                if self.failures < MAX_READ_FAILURES - 1 {
                    self.failures = self.failures + 1;
                    match f {
                        ReadFailure::PeerReset => ChunkAction::Retry(LogLevel::Info),
                        ReadFailure::Other => ChunkAction::Retry(LogLevel::Error),
                    }
                } else {
                    ChunkAction::Stop
                }
            },
        }
    }
}

} // verus!
