//! The control surface the listener and its callers share: the
//! supervisor state, the live-stream filter, the per-connection clock,
//! and the fixed decisions of the connection handler.

use vstd::prelude::*;

verus! {

use crate::capture::BodyCapture;
use crate::transaction::{
    legal_transition,
    spec_filter_matches,
    HttpTransaction,
    TransactionFilter,
    TransactionState,
};

/// Proxy configuration.
#[derive(Debug, Clone)]
pub struct ProxyConfig {
    /// Port to listen on.
    pub port: u16,
    /// Bind address.
    pub bind_address: String,
    /// Whether HTTPS interception is enabled.
    pub enable_https: bool,
    /// Whether HTTP/2 upstream support is enabled.
    pub enable_h2: bool,
    /// Storage root for the CA and the traffic log.
    pub storage_path: String,
}

impl Default for ProxyConfig {
    /// Loopback on port 9090, no interception, storage in the working
    /// directory.
    fn default() -> (r: ProxyConfig)
        ensures
            r.port == 9090,
            r.bind_address@ == "127.0.0.1"@,
            r.enable_https == false,
            r.enable_h2 == false,
            r.storage_path@ == "./"@,
    {
        ProxyConfig {
            port: 9090,
            bind_address: "127.0.0.1".to_owned(),
            enable_https: false,
            enable_h2: false,
            storage_path: "./".to_owned(),
        }
    }
}

/// Proxy status information.
#[derive(Debug, Clone)]
pub struct ProxyStatus {
    /// Whether the proxy is running.
    pub is_running: bool,
    /// Current port.
    pub port: u16,
    /// Bind address.
    pub bind_address: String,
    /// Number of active connections.
    pub active_connections: u32,
    /// Total requests processed.
    pub total_requests: u64,
}

/// The supervisor value the listener owns: the running flag and what
/// status reports.
pub struct Supervisor {
    running: bool,
    port: u16,
    bind_address: String,
    active_connections: u32,
    total_requests: u64,
}

impl Supervisor {
    /// Whether the proxy is running.
    pub closed spec fn spec_running(self) -> bool {
        self.running
    }

    /// The configured port.
    pub closed spec fn spec_port(self) -> u16 {
        self.port
    }

    /// The configured bind address.
    pub closed spec fn spec_bind(self) -> Seq<char> {
        self.bind_address@
    }

    /// Requests counted so far.
    pub closed spec fn spec_total(self) -> u64 {
        self.total_requests
    }

    /// A stopped supervisor with the default address.
    pub fn new() -> (r: Supervisor)
        ensures
            !r.spec_running(),
            r.spec_port() == 9090,
            r.spec_total() == 0,
    {
        Supervisor {
            running: false,
            port: 9090,
            bind_address: "127.0.0.1".to_owned(),
            active_connections: 0,
            total_requests: 0,
        }
    }

    /// Record a successful start on the selected port.
    pub fn started(&mut self, port: u16, bind_address: String)
        ensures
            final(self).spec_running(),
            final(self).spec_port() == port,
            final(self).spec_bind() == bind_address@,
            final(self).spec_total() == old(self).spec_total(),
    {
        self.running = true;
        self.port = port;
        self.bind_address = bind_address;
    }

    /// Record a stop; the listener drains before calling this.
    pub fn stopped(&mut self)
        ensures
            !final(self).spec_running(),
            final(self).spec_port() == old(self).spec_port(),
            final(self).spec_bind() == old(self).spec_bind(),
            final(self).spec_total() == old(self).spec_total(),
    {
        self.running = false;
    }

    /// Count one handled request, saturating at the counter's cap.
    pub fn count_request(&mut self)
        ensures
            final(self).spec_running() == old(self).spec_running(),
            final(self).spec_total() as int == (if old(self).spec_total() < u64::MAX {
                old(self).spec_total() + 1
            } else {
                old(self).spec_total() as int
            }),
    {
        if self.total_requests < u64::MAX {
            self.total_requests = self.total_requests + 1;
        }
    }

    /// Whether the listener's loop should keep accepting.
    pub fn is_running_internal(&self) -> (r: bool)
        ensures
            r == self.spec_running(),
    {
        self.running
    }

    /// The current status snapshot.
    pub fn status(&self) -> (r: ProxyStatus)
        ensures
            r.is_running == self.spec_running(),
            r.port == self.spec_port(),
            r.bind_address@ == self.spec_bind(),
            r.total_requests == self.spec_total(),
    {
        ProxyStatus {
            is_running: self.running,
            port: self.port,
            bind_address: self.bind_address.clone(),
            active_connections: self.active_connections,
            total_requests: self.total_requests,
        }
    }
}

/// The live-stream filter: what the traffic sink forwards.
pub struct StreamFilter {
    filter: TransactionFilter,
}

impl StreamFilter {
    /// The current filter.
    pub closed spec fn spec_filter(self) -> TransactionFilter {
        self.filter
    }

    /// The pass-everything filter.
    pub fn new() -> (r: StreamFilter)
        ensures
            r.spec_filter().method is None,
            r.spec_filter().host_contains is None,
            r.spec_filter().path_contains is None,
            r.spec_filter().status_min is None,
            r.spec_filter().status_max is None,
    {
        StreamFilter { filter: Default::default() }
    }

    /// Replace the filter; `None` resets to pass-everything.
    pub fn set_stream_filter(&mut self, filter: Option<TransactionFilter>)
        ensures
            match filter {
                Some(f) => final(self).spec_filter() == f,
                None => {
                    &&& final(self).spec_filter().method is None
                    &&& final(self).spec_filter().host_contains is None
                    &&& final(self).spec_filter().path_contains is None
                    &&& final(self).spec_filter().status_min is None
                    &&& final(self).spec_filter().status_max is None
                },
            },
    {
        match filter {
            Some(f) => {
                self.filter = f;
            },
            None => {
                self.filter = Default::default();
            },
        }
    }

    /// Whether the live stream forwards this transaction.
    pub fn stream_filter_allows(&self, tx: &HttpTransaction) -> (r: bool)
        ensures
            r == spec_filter_matches(self.spec_filter(), *tx),
    {
        self.filter.matches(tx)
    }
}

/// What the traffic sink receives for a transaction: nothing when the
/// live filter rejects it, else a body-stripped copy of the snapshot.
pub fn send_transaction_to_sink(filter: &StreamFilter, tx: &HttpTransaction) -> (r: Option<
    HttpTransaction,
>)
    ensures
        r is Some <==> spec_filter_matches(filter.spec_filter(), *tx),
        match r {
            Some(t) => crate::store::tx_equiv(
                t,
                (HttpTransaction { request_body: None, response_body: None, ..*tx }),
            ),
            None => !spec_filter_matches(filter.spec_filter(), *tx),
        },
{
    if filter.stream_filter_allows(tx) {
        let mut copy = crate::store::clone_tx(tx);
        strip_bodies(&mut copy);
        Some(copy)
    } else {
        None
    }
}

/// Strip the captured bodies off a snapshot before it goes to a live
/// view; everything else is untouched.
pub fn strip_bodies(tx: &mut HttpTransaction)
    ensures
        *final(tx) == (HttpTransaction {
            request_body: None,
            response_body: None,
            ..*old(tx)
        }),
{
    tx.request_body = None;
    tx.response_body = None;
}

/// The per-connection clock: start times handed to successive requests
/// of one connection never decrease, whatever the wall clock does.
pub struct ConnectionClock {
    last_ms: i64,
}

impl ConnectionClock {
    /// The last start time handed out.
    pub closed spec fn spec_last(self) -> i64 {
        self.last_ms
    }

    /// The clock starts at zero.
    pub fn new() -> (r: ConnectionClock)
        ensures
            r.spec_last() == 0,
    {
        ConnectionClock { last_ms: 0 }
    }

    /// The start time for the next request: the wall clock when it moved
    /// forward, else the previous value again. The result never
    /// decreases and is never negative.
    pub fn next_start(&mut self, now_raw: i64) -> (r: i64)
        requires
            old(self).spec_last() >= 0,
        ensures
            r >= 0,
            r >= old(self).spec_last(),
            final(self).spec_last() == r,
            r == (if now_raw > old(self).spec_last() {
                now_raw
            } else {
                old(self).spec_last()
            }),
    {
        if now_raw > self.last_ms {
            self.last_ms = now_raw;
        }
        self.last_ms
    }
}

/// What a CONNECT turns the connection into.
#[derive(Debug, Clone, Copy, PartialEq, Eq, Structural)]
pub enum ConnectPlan {
    /// Intercept: complete TLS with a forged leaf and parse inside.
    Intercept,
    /// Copy bytes blindly between client and origin.
    PlainTunnel,
}

/// Dispatch a CONNECT: interception happens exactly when a certificate
/// authority is configured; without one the proxy opens a plain tunnel.
pub fn connect_dispatch(ca_available: bool) -> (r: ConnectPlan)
    ensures
        r == ConnectPlan::Intercept <==> ca_available,
{
    if ca_available {
        ConnectPlan::Intercept
    } else {
        ConnectPlan::PlainTunnel
    }
}

/// How a request failed, as the client and the record see it.
#[derive(Debug, Clone, Copy, PartialEq, Eq, Structural)]
pub enum FailureKind {
    /// The upstream could not be reached.
    UpstreamUnreachable,
    /// The TLS handshake with the upstream failed.
    TlsFailure,
    /// The upstream's response head could not be read.
    ResponseReadFailed,
    /// The client's request head could not be parsed.
    HeadParseFailed,
    /// The request body exceeds the cap.
    BodyTooLarge,
    /// A breakpoint aborted the request.
    BreakpointAborted,
}

/// The status line and body the proxy answers with for a failure:
/// 502 for upstream, TLS and response-read failures, 400 for a bad
/// head, 413 for an oversize body, and 409 for a breakpoint abort.
pub fn failure_status(kind: FailureKind) -> (r: (u16, &'static str, &'static str))
    ensures
        kind == FailureKind::UpstreamUnreachable ==> r.0 == 502 && r.1@ == "Bad Gateway"@
            && r.2@ == "Unable to reach upstream server"@,
        kind == FailureKind::TlsFailure ==> r.0 == 502 && r.1@ == "Bad Gateway"@ && r.2@
            == "Unable to reach upstream server"@,
        kind == FailureKind::ResponseReadFailed ==> r.0 == 502 && r.1@ == "Bad Gateway"@
            && r.2@ == "Failed to read response"@,
        kind == FailureKind::HeadParseFailed ==> r.0 == 400 && r.1@ == "Bad Request"@ && r.2@
            == "Unable to parse HTTP request"@,
        kind == FailureKind::BodyTooLarge ==> r.0 == 413 && r.1@ == "Payload Too Large"@
            && r.2@ == "Request body exceeds allowed size"@,
        kind == FailureKind::BreakpointAborted ==> r.0 == 409 && r.1@ == "Conflict"@ && r.2@
            == "Request aborted at breakpoint"@,
{
    match kind {
        FailureKind::UpstreamUnreachable => (502, "Bad Gateway", "Unable to reach upstream server"),
        FailureKind::TlsFailure => (502, "Bad Gateway", "Unable to reach upstream server"),
        FailureKind::ResponseReadFailed => (502, "Bad Gateway", "Failed to read response"),
        FailureKind::HeadParseFailed => (400, "Bad Request", "Unable to parse HTTP request"),
        FailureKind::BodyTooLarge => (413, "Payload Too Large", "Request body exceeds allowed size"),
        FailureKind::BreakpointAborted => (409, "Conflict", "Request aborted at breakpoint"),
    }
}

/// Mark a transaction failed with its status; legal only from a state
/// the graph lets fail.
pub fn mark_failed(tx: &mut HttpTransaction, code: u16, message: String)
    requires
        legal_transition(old(tx).state, TransactionState::Failed),
    ensures
        *final(tx) == (HttpTransaction {
            state: TransactionState::Failed,
            status_code: Some(code),
            status_message: Some(message),
            ..*old(tx)
        }),
{
    tx.state = TransactionState::Failed;
    tx.status_code = Some(code);
    tx.status_message = Some(message);
}

/// Record a completed response on a transaction: the status line, the
/// response headers, the bounded body capture, and the exact number of
/// body bytes that were forwarded on the wire. The captured body never
/// exceeds the capture cap; the size field records the true wire count.
pub fn finalize_response(
    tx: &mut HttpTransaction,
    code: u16,
    message: String,
    headers: Vec<(String, String)>,
    capture: BodyCapture,
    wire_body_bytes: u64,
)
    requires
        legal_transition(old(tx).state, TransactionState::Completed),
        capture.wf(),
    ensures
        final(tx).state == TransactionState::Completed,
        final(tx).status_code == Some(code),
        final(tx).status_message == Some(message),
        final(tx).response_headers == Some(headers),
        final(tx).response_size == Some(wire_body_bytes),
        match final(tx).response_body {
            Some(b) => b@ == capture.bytes() && 0 < capture.bytes().len() <= capture.cap(),
            None => capture.bytes().len() == 0,
        },
        final(tx).id == old(tx).id,
        final(tx).method == old(tx).method,
        final(tx).scheme == old(tx).scheme,
        final(tx).host == old(tx).host,
        final(tx).port == old(tx).port,
        final(tx).path == old(tx).path,
        final(tx).request_headers == old(tx).request_headers,
        final(tx).request_body == old(tx).request_body,
        final(tx).timing == old(tx).timing,
        final(tx).connection_reused == old(tx).connection_reused,
        final(tx).is_websocket == old(tx).is_websocket,
{
    proof {
        capture.lemma_bounded();
    }
    tx.state = TransactionState::Completed;
    tx.status_code = Some(code);
    tx.status_message = Some(message);
    tx.response_headers = Some(headers);
    tx.response_size = Some(wire_body_bytes);
    tx.response_body = capture.into_option();
}

/// Mark a transaction completed with its status; legal only from
/// `Pending`.
pub fn mark_completed(tx: &mut HttpTransaction, code: u16, message: String)
    requires
        legal_transition(old(tx).state, TransactionState::Completed),
    ensures
        *final(tx) == (HttpTransaction {
            state: TransactionState::Completed,
            status_code: Some(code),
            status_message: Some(message),
            ..*old(tx)
        }),
{
    tx.state = TransactionState::Completed;
    tx.status_code = Some(code);
    tx.status_message = Some(message);
}

} // verus!
