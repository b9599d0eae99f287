//! End-to-end scenarios at the data-plane level: the byte streams a
//! client and an upstream would exchange, run through the parsing,
//! rewriting and capture pipeline, and the stored transaction checked.

use cheddar_core::api::{finalize_response, ConnectionClock};
use cheddar_core::breakpoint::{BreakpointContext, BreakpointEngine, BreakpointRuleInput};
use cheddar_core::capture::{BodyCapture, DEFAULT_BODY_CAPTURE_BYTES};
use cheddar_core::codec::{parse_head, scan_head, HeadScan};
use cheddar_core::forward::{sanitize_request_headers, serialize_request_head};
use cheddar_core::method::HttpMethod;
use cheddar_core::request::{from_head, RequestEdit};
use cheddar_core::store::TransactionStore;
use cheddar_core::target::RequestScheme;
use cheddar_core::transaction::{HttpTransaction, TransactionFilter, TransactionState};

fn no_filter() -> TransactionFilter {
    TransactionFilter {
        method: None,
        host_contains: None,
        path_contains: None,
        status_min: None,
        status_max: None,
    }
}

/// Run one request/response pair through the pipeline and persist it.
fn run_exchange(
    store: &mut TransactionStore,
    clock: &mut ConnectionClock,
    request_bytes: &[u8],
    scheme: RequestScheme,
    response_bytes: &[u8],
    reused: bool,
) -> (HttpTransaction, String) {
    let p = match scan_head(request_bytes) {
        HeadScan::Complete(p) => p,
        other => panic!("request head should complete, got {:?}", other),
    };
    let head = parse_head(&request_bytes[..p]).expect("request head parses");
    let request = from_head(head, scheme, request_bytes[p..].to_vec()).expect("target resolves");

    let mut tx = HttpTransaction::new(
        request.method,
        &request.scheme,
        &request.host,
        request.port,
        &request.path,
        request.header_list.clone(),
    );
    tx.timing.start_time = clock.next_start(tx.timing.start_time);
    tx.connection_reused = reused;

    // the head as it goes upstream, hop-by-hop headers rewritten
    let outbound = sanitize_request_headers(&request.header_list);
    let wire_head =
        serialize_request_head(request.method, &request.path, &request.version, &outbound);

    // the upstream's answer
    let rp = match scan_head(response_bytes) {
        HeadScan::Complete(p) => p,
        other => panic!("response head should complete, got {:?}", other),
    };
    let response_head = parse_head(&response_bytes[..rp]).expect("response head parses");
    let status: u16 = response_head.f1.parse().expect("numeric status");
    let body = &response_bytes[rp..];
    let mut capture = BodyCapture::new(DEFAULT_BODY_CAPTURE_BYTES);
    capture.push(body);
    finalize_response(
        &mut tx,
        status,
        response_head.f2.clone(),
        response_head.headers,
        capture,
        body.len() as u64,
    );
    store.add_transaction(cheddar_core::store::clone_tx(&tx));
    (tx, wire_head)
}

#[test]
fn plain_http_capture_records_the_transaction() {
    let mut store = TransactionStore::new(100);
    let mut clock = ConnectionClock::new();
    let request = b"GET http://127.0.0.1:8080/test HTTP/1.1\r\nHost: 127.0.0.1\r\nContent-Length: 0\r\n\r\n";
    let response = b"HTTP/1.1 200 OK\r\nContent-Length: 2\r\n\r\nOK";
    let (tx, wire_head) = run_exchange(
        &mut store,
        &mut clock,
        request,
        RequestScheme::Http,
        response,
        false,
    );
    assert_eq!(tx.host, "127.0.0.1");
    assert_eq!(tx.path, "/test");
    assert_eq!(tx.method, HttpMethod::Get);
    assert_eq!(tx.status_code, Some(200));
    assert_eq!(tx.state, TransactionState::Completed);
    assert_eq!(tx.response_size, Some(2));
    // the forwarded head carries Connection: close
    assert!(wire_head.contains("\r\nConnection: close\r\n"));
    // the stored transaction is queryable
    let page = store.query(&no_filter(), 0, 10);
    assert_eq!(page.total, 1);
    assert_eq!(page.items[0].path, "/test");
}

#[test]
fn https_interception_records_scheme_and_body() {
    let mut store = TransactionStore::new(100);
    let mut clock = ConnectionClock::new();
    // after CONNECT + TLS, the decrypted request is origin-form
    let request = b"GET /secure HTTP/1.1\r\nHost: example.com\r\nContent-Length: 0\r\n\r\n";
    let response = b"HTTP/1.1 200 OK\r\nContent-Length: 7\r\n\r\nSECURE!";
    let (tx, _) = run_exchange(
        &mut store,
        &mut clock,
        request,
        RequestScheme::Https,
        response,
        false,
    );
    assert_eq!(tx.scheme, "https");
    assert_eq!(tx.host, "example.com");
    assert_eq!(tx.path, "/secure");
    assert_eq!(tx.response_body, Some(b"SECURE!".to_vec()));
    let got = store.get_by_id(&tx.id).expect("stored https transaction present");
    assert_eq!(got.scheme, "https");
    assert_eq!(got.path, "/secure");
}

#[test]
fn keep_alive_marks_the_second_request_reused() {
    let mut store = TransactionStore::new(100);
    let mut clock = ConnectionClock::new();
    let first = b"GET /first HTTP/1.1\r\nHost: example.com\r\nContent-Length: 0\r\n\r\n";
    let second =
        b"GET /second HTTP/1.1\r\nHost: example.com\r\nConnection: close\r\nContent-Length: 0\r\n\r\n";
    let ra = b"HTTP/1.1 200 OK\r\nContent-Length: 5\r\n\r\nFIRST";
    let rb = b"HTTP/1.1 200 OK\r\nContent-Length: 6\r\n\r\nSECOND";
    let (tx1, _) = run_exchange(&mut store, &mut clock, first, RequestScheme::Https, ra, false);
    let (tx2, _) = run_exchange(&mut store, &mut clock, second, RequestScheme::Https, rb, true);
    assert!(!tx1.connection_reused);
    assert!(tx2.connection_reused);
    // both captured, and start times never decrease within the connection
    assert_eq!(store.count(), 2);
    assert!(tx2.timing.start_time >= tx1.timing.start_time);
    let got = store.get_by_id(&tx2.id).expect("second request recorded");
    assert!(got.connection_reused);
    assert_eq!(got.path, "/second");
}

#[test]
fn breakpoint_on_one_stream_leaves_others_alone() {
    let mut engine = BreakpointEngine::new();
    engine.add_breakpoint_rule(BreakpointRuleInput {
        enabled: true,
        method: Some(HttpMethod::Get),
        host_contains: None,
        path_contains: Some("break".to_string()),
    });
    let paused = BreakpointContext {
        method: HttpMethod::Get,
        host: "example.com".to_string(),
        path: "/break".to_string(),
    };
    let free = BreakpointContext {
        method: HttpMethod::Get,
        host: "example.com".to_string(),
        path: "/normal".to_string(),
    };
    assert!(engine.should_break(&paused));
    assert!(!engine.should_break(&free));

    // stream one suspends; stream two is unaffected by the registration
    let mut tx1 = HttpTransaction::new(
        HttpMethod::Get,
        "https",
        "example.com",
        443,
        "/break",
        Vec::new(),
    );
    engine.register_pending(tx1.id.clone());
    tx1.set_state(TransactionState::Breakpointed);
    assert!(!engine.should_break(&free));

    // out-of-band resume with the empty edit leaves the request as it was
    let mut req = cheddar_core::request::ParsedRequest {
        method: HttpMethod::Get,
        scheme: "https".to_string(),
        host: "example.com".to_string(),
        port: 443,
        path: "/break".to_string(),
        version: "HTTP/1.1".to_string(),
        header_list: vec![("Host".to_string(), "example.com".to_string())],
        body_kind: cheddar_core::request::RequestBodyKind::NoBody,
        buffered_body: Vec::new(),
    };
    let before = req.header_list.clone();
    assert!(engine.resume_breakpoint(&tx1.id));
    req.apply_edit(&RequestEdit::default());
    assert_eq!(req.path, "/break");
    assert_eq!(req.header_list, before);
    tx1.set_state(TransactionState::Pending);
    tx1.set_state(TransactionState::Completed);
    assert_eq!(tx1.state, TransactionState::Completed);
}
