//! The transaction model: one captured request/response pair.
//!
//! A transaction is created in `Pending` the moment the request line is
//! parsed and leaves `Pending` exactly once; the legal transitions are
//! `Pending -> {Breakpointed, Completed, Failed}` and
//! `Breakpointed -> {Pending, Failed}`. Every function that changes the
//! state requires legality, so an illegal step cannot be written.

use vstd::prelude::*;

verus! {

use crate::headers::string_bytes;
use crate::method::HttpMethod;
use crate::sys::{fresh_id, now_millis};
use crate::text::contains_ci;

/// Lifecycle state of a transaction.
#[derive(Debug, Clone, Copy, PartialEq, Eq, Structural)]
pub enum TransactionState {
    /// Request is in flight.
    Pending,
    /// Request completed successfully.
    Completed,
    /// Request failed with an error.
    Failed,
    /// Request is paused at a breakpoint.
    Breakpointed,
}

/// The legal transition graph over transaction states.
pub open spec fn legal_transition(from: TransactionState, to: TransactionState) -> bool {
    match (from, to) {
        (TransactionState::Pending, TransactionState::Breakpointed) => true,
        (TransactionState::Pending, TransactionState::Completed) => true,
        (TransactionState::Pending, TransactionState::Failed) => true,
        (TransactionState::Breakpointed, TransactionState::Pending) => true,
        (TransactionState::Breakpointed, TransactionState::Failed) => true,
        _ => false,
    }
}

/// A state is terminal when no transition leaves it.
pub open spec fn is_terminal(s: TransactionState) -> bool {
    s == TransactionState::Completed || s == TransactionState::Failed
}

/// The terminal states are exactly `Completed` and `Failed`: no transition
/// leaves either, and every other state has a way out.
pub proof fn lemma_terminal_states()
    ensures
        forall|s: TransactionState, t: TransactionState|
            is_terminal(s) ==> !#[trigger] legal_transition(s, t),
        forall|s: TransactionState|
            !is_terminal(s) ==> exists|t: TransactionState| #[trigger] legal_transition(s, t),
{
    assert(legal_transition(TransactionState::Pending, TransactionState::Failed));
    assert(legal_transition(TransactionState::Breakpointed, TransactionState::Failed));
}

impl TransactionState {
    /// Whether the graph allows stepping from `self` to `to`.
    pub fn can_transition(&self, to: TransactionState) -> (r: bool)
        ensures
            r == legal_transition(*self, to),
    {
        match (self, to) {
            (TransactionState::Pending, TransactionState::Breakpointed) => true,
            (TransactionState::Pending, TransactionState::Completed) => true,
            (TransactionState::Pending, TransactionState::Failed) => true,
            (TransactionState::Breakpointed, TransactionState::Pending) => true,
            (TransactionState::Breakpointed, TransactionState::Failed) => true,
            _ => false,
        }
    }
}

/// Per-phase timing of a transaction, in milliseconds.
#[derive(Debug, Clone, Copy)]
pub struct TransactionTiming {
    /// When the request started, milliseconds since the Unix epoch.
    pub start_time: i64,
    /// DNS lookup duration.
    pub dns_lookup_ms: Option<u32>,
    /// TCP connect duration.
    pub tcp_connect_ms: Option<u32>,
    /// TLS handshake duration.
    pub tls_handshake_ms: Option<u32>,
    /// Request send duration.
    pub request_send_ms: Option<u32>,
    /// Time to first byte of the response.
    pub waiting_ms: Option<u32>,
    /// Content download duration.
    pub content_download_ms: Option<u32>,
    /// Total duration.
    pub total_ms: Option<u32>,
}

impl TransactionTiming {
    /// A timing record anchored at `start_time`, with no phase recorded.
    pub fn anchored_at(start_time: i64) -> (r: TransactionTiming)
        ensures
            r.start_time == start_time,
            r.dns_lookup_ms is None,
            r.tcp_connect_ms is None,
            r.tls_handshake_ms is None,
            r.request_send_ms is None,
            r.waiting_ms is None,
            r.content_download_ms is None,
            r.total_ms is None,
    {
        TransactionTiming {
            start_time,
            dns_lookup_ms: None,
            tcp_connect_ms: None,
            tls_handshake_ms: None,
            request_send_ms: None,
            waiting_ms: None,
            content_download_ms: None,
            total_ms: None,
        }
    }
}

/// A single captured HTTP request/response pair.
#[derive(Debug, Clone)]
pub struct HttpTransaction {
    /// Stable identifier, sortable by creation.
    pub id: String,
    /// HTTP method.
    pub method: HttpMethod,
    /// Request scheme, `http` or `https`.
    pub scheme: String,
    /// Host name.
    pub host: String,
    /// Port number.
    pub port: u16,
    /// Request path including the query string.
    pub path: String,
    /// Protocol version string, e.g. `HTTP/1.1`.
    pub http_version: String,
    /// Current lifecycle state.
    pub state: TransactionState,
    /// Request headers in wire order.
    pub request_headers: Vec<(String, String)>,
    /// Captured request body, truncated to the capture cap.
    pub request_body: Option<Vec<u8>>,
    /// Request content type.
    pub request_content_type: Option<String>,
    /// Response status code.
    pub status_code: Option<u16>,
    /// Response status message.
    pub status_message: Option<String>,
    /// Response headers in wire order.
    pub response_headers: Option<Vec<(String, String)>>,
    /// Captured response body, truncated to the capture cap.
    pub response_body: Option<Vec<u8>>,
    /// Response content type.
    pub response_content_type: Option<String>,
    /// Timing record.
    pub timing: TransactionTiming,
    /// True wire size of the response in bytes.
    pub response_size: Option<u64>,
    /// Whether the transaction is paused at a breakpoint.
    pub has_breakpoint: bool,
    /// Freeform notes.
    pub notes: Option<String>,
    /// Resolved server IP address.
    pub server_ip: Option<String>,
    /// Negotiated TLS protocol version.
    pub tls_version: Option<String>,
    /// Negotiated TLS cipher suite.
    pub tls_cipher: Option<String>,
    /// Whether an existing connection was reused.
    pub connection_reused: bool,
    /// HTTP/2 stream identifier, when multiplexed.
    pub stream_id: Option<u32>,
    /// Whether this is a WebSocket upgrade.
    pub is_websocket: bool,
}

impl HttpTransaction {
    /// A fresh `Pending` transaction for an incoming request. The start
    /// time is taken from the clock and clamped to be non-negative.
    pub fn new(
        method: HttpMethod,
        scheme: &str,
        host: &str,
        port: u16,
        path: &str,
        headers: Vec<(String, String)>,
    ) -> (t: HttpTransaction)
        ensures
            t.state == TransactionState::Pending,
            t.method == method,
            t.scheme@ == scheme@,
            t.host@ == host@,
            t.port == port,
            t.path@ == path@,
            t.http_version@ == "HTTP/1.1"@,
            t.request_headers == headers,
            t.request_body is None,
            t.status_code is None,
            t.status_message is None,
            t.response_headers is None,
            t.response_body is None,
            t.response_size is None,
            t.timing.start_time >= 0,
            t.timing.total_ms is None,
            t.has_breakpoint == false,
            t.connection_reused == false,
            t.is_websocket == false,
            t.stream_id is None,
            t.notes is None,
    {
        let now = now_millis();
        let start: i64 = if now < 0 {
            0
        } else {
            now
        };
        HttpTransaction {
            id: fresh_id(),
            method,
            scheme: scheme.to_owned(),
            host: host.to_owned(),
            port,
            path: path.to_owned(),
            http_version: "HTTP/1.1".to_owned(),
            state: TransactionState::Pending,
            request_headers: headers,
            request_body: None,
            request_content_type: None,
            status_code: None,
            status_message: None,
            response_headers: None,
            response_body: None,
            response_content_type: None,
            timing: TransactionTiming::anchored_at(start),
            response_size: None,
            has_breakpoint: false,
            notes: None,
            server_ip: None,
            tls_version: None,
            tls_cipher: None,
            connection_reused: false,
            stream_id: None,
            is_websocket: false,
        }
    }

    /// Step the lifecycle state; only legal transitions can be taken.
    pub fn set_state(&mut self, to: TransactionState)
        requires
            legal_transition(old(self).state, to),
        ensures
            *final(self) == (HttpTransaction { state: to, ..*old(self) }),
    {
        self.state = to;
    }
}

/// Filter options for querying or streaming transactions.
#[derive(Debug, Clone)]
pub struct TransactionFilter {
    /// Match a specific HTTP method.
    pub method: Option<HttpMethod>,
    /// Case-insensitive host substring.
    pub host_contains: Option<String>,
    /// Case-insensitive path substring.
    pub path_contains: Option<String>,
    /// Minimum HTTP status, inclusive.
    pub status_min: Option<u16>,
    /// Maximum HTTP status, inclusive.
    pub status_max: Option<u16>,
}

/// What it means for a transaction to pass a filter: fields are
/// AND-composed, substrings fold ASCII case, and a missing status counts
/// as zero for the range test.
pub open spec fn spec_filter_matches(f: TransactionFilter, t: HttpTransaction) -> bool {
    &&& match f.method {
        Some(m) => t.method == m,
        None => true,
    }
    &&& match f.host_contains {
        Some(h) => contains_ci(string_bytes(t.host), string_bytes(h)),
        None => true,
    }
    &&& match f.path_contains {
        Some(p) => contains_ci(string_bytes(t.path), string_bytes(p)),
        None => true,
    }
    &&& match f.status_min {
        Some(min) => spec_status_or_zero(t) >= min,
        None => true,
    }
    &&& match f.status_max {
        Some(max) => spec_status_or_zero(t) <= max,
        None => true,
    }
}

/// The status code used by range filters: the recorded one, or zero.
pub open spec fn spec_status_or_zero(t: HttpTransaction) -> u16 {
    match t.status_code {
        Some(c) => c,
        None => 0,
    }
}

impl TransactionFilter {
    /// Whether the transaction passes the filter.
    pub fn matches(&self, tx: &HttpTransaction) -> (r: bool)
        ensures
            r == spec_filter_matches(*self, *tx),
    {
        if let Some(m) = &self.method {
            if tx.method != *m {
                return false;
            }
        }
        if let Some(h) = &self.host_contains {
            if !crate::text::str_contains_ci(tx.host.as_str(), h.as_str()) {
                return false;
            }
        }
        if let Some(p) = &self.path_contains {
            if !crate::text::str_contains_ci(tx.path.as_str(), p.as_str()) {
                return false;
            }
        }
        let status: u16 = match &tx.status_code {
            Some(c) => *c,
            None => 0,
        };
        if let Some(min) = &self.status_min {
            if status < *min {
                return false;
            }
        }
        if let Some(max) = &self.status_max {
            if status > *max {
                return false;
            }
        }
        true
    }
}

impl Default for TransactionFilter {
    /// The empty filter, which every transaction passes.
    fn default() -> (r: TransactionFilter)
        ensures
            r.method is None,
            r.host_contains is None,
            r.path_contains is None,
            r.status_min is None,
            r.status_max is None,
    {
        TransactionFilter {
            method: None,
            host_contains: None,
            path_contains: None,
            status_min: None,
            status_max: None,
        }
    }
}

/// Every transaction passes the empty filter.
pub proof fn lemma_empty_filter_matches_all(f: TransactionFilter, t: HttpTransaction)
    requires
        f.method is None,
        f.host_contains is None,
        f.path_contains is None,
        f.status_min is None,
        f.status_max is None,
    ensures
        spec_filter_matches(f, t),
{
}

/// One page of a transaction query.
#[derive(Debug, Clone)]
pub struct PaginatedTransactions {
    /// Total number of matches, across all pages.
    pub total: u64,
    /// The page index that was asked for.
    pub page: u32,
    /// The page size that was asked for.
    pub page_size: u32,
    /// The matches on this page, most recent first.
    pub items: Vec<HttpTransaction>,
}

} // verus!
