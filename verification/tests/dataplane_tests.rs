//! Tests for the forwarding decisions, edits, breakpoints, the upstream
//! pool with its blocklist, and the connection handler's fixed choices.

use cheddar_core::api::{
    connect_dispatch, failure_status, finalize_response, mark_completed, mark_failed,
    send_transaction_to_sink, strip_bodies, ConnectPlan, ConnectionClock, FailureKind,
    StreamFilter, Supervisor,
};
use cheddar_core::breakpoint::{
    rule_matches, BreakpointContext, BreakpointEngine, BreakpointRuleInput,
};
use cheddar_core::bridge::{
    authority_for, build_h1_status_line, reason_phrase, sanitize_h2_request_headers,
    sanitize_h2_response_headers,
};
use cheddar_core::ca::{san_kind_for, LeafCache, SanKind};
use cheddar_core::capture::BodyCapture;
use cheddar_core::forward::{
    build_status_response, is_websocket_upgrade, sanitize_request_headers,
    serialize_request_head, should_keep_alive,
};
use cheddar_core::headers::{header_value, remove_header, set_header};
use cheddar_core::method::HttpMethod;
use cheddar_core::pool::{alpn_protocols, plan_upstream, UpstreamPlan, UpstreamRegistry};
use cheddar_core::request::{ParsedRequest, RequestBodyKind, RequestEdit};
use cheddar_core::target::{split_host_and_port, RequestScheme};
use cheddar_core::transaction::{HttpTransaction, TransactionState};

fn headers(pairs: &[(&str, &str)]) -> Vec<(String, String)> {
    pairs
        .iter()
        .map(|(a, b)| (a.to_string(), b.to_string()))
        .collect()
}

fn sample_request(path: &str) -> ParsedRequest {
    ParsedRequest {
        method: HttpMethod::Get,
        scheme: "http".to_string(),
        host: "example.com".to_string(),
        port: 80,
        path: path.to_string(),
        version: "HTTP/1.1".to_string(),
        header_list: headers(&[("Host", "example.com"), ("Content-Length", "0")]),
        body_kind: RequestBodyKind::ContentLength { length: 0 },
        buffered_body: Vec::new(),
    }
}

#[test]
fn hop_by_hop_headers_are_normalized() {
    let hs = headers(&[
        ("Host", "example.com"),
        ("Proxy-Connection", "keep-alive"),
        ("Keep-Alive", "timeout=5"),
        ("Connection", "keep-alive"),
        ("Accept", "*/*"),
    ]);
    let out = sanitize_request_headers(&hs);
    let names: Vec<&str> = out.iter().map(|h| h.0.as_str()).collect();
    assert_eq!(names, vec!["Host", "Connection", "Accept"]);
    assert_eq!(header_value(&out, "connection").as_deref(), Some("close"));
}

#[test]
fn connection_close_is_appended_when_absent() {
    let hs = headers(&[("Host", "example.com")]);
    let out = sanitize_request_headers(&hs);
    assert_eq!(out.last().unwrap().0, "Connection");
    assert_eq!(out.last().unwrap().1, "close");
}

#[test]
fn serialized_head_rewrites_connection() {
    let req = sample_request("/test");
    let out = sanitize_request_headers(&req.header_list);
    let head = serialize_request_head(req.method, &req.path, &req.version, &out);
    assert_eq!(
        head,
        "GET /test HTTP/1.1\r\nHost: example.com\r\nContent-Length: 0\r\nConnection: close\r\n\r\n"
    );
}

#[test]
fn keep_alive_follows_version_and_header() {
    assert!(should_keep_alive("HTTP/1.1", &headers(&[])));
    assert!(!should_keep_alive("HTTP/1.0", &headers(&[])));
    assert!(!should_keep_alive("HTTP/1.1", &headers(&[("Connection", "close")])));
    assert!(should_keep_alive("HTTP/1.0", &headers(&[("Connection", "Keep-Alive")])));
}

#[test]
fn websocket_upgrade_detection_needs_all_parts() {
    let hs = headers(&[("Upgrade", "websocket"), ("Connection", "keep-alive, Upgrade")]);
    assert!(is_websocket_upgrade(HttpMethod::Get, &hs));
    assert!(!is_websocket_upgrade(HttpMethod::Post, &hs));
    let hs = headers(&[("Upgrade", "websocket")]);
    assert!(!is_websocket_upgrade(HttpMethod::Get, &hs));
}

#[test]
fn status_response_carries_exact_content_length() {
    let r = build_status_response(502, "Bad Gateway", "Unable to reach upstream server");
    assert_eq!(
        r,
        "HTTP/1.1 502 Bad Gateway\r\nContent-Length: 31\r\nConnection: close\r\nContent-Type: text/plain\r\n\r\nUnable to reach upstream server"
    );
}

#[test]
fn empty_edit_changes_nothing() {
    let mut req = sample_request("/break");
    let before_path = req.path.clone();
    let before_headers = req.header_list.clone();
    req.apply_edit(&RequestEdit::default());
    assert_eq!(req.path, before_path);
    assert_eq!(req.header_list, before_headers);
    assert!(matches!(req.body_kind, RequestBodyKind::ContentLength { length: 0 }));
}

#[test]
fn path_edit_is_applied() {
    let mut req = sample_request("/break");
    let edit = RequestEdit {
        method: None,
        path: Some("/edited".to_string()),
        headers: None,
        body: None,
    };
    req.apply_edit(&edit);
    assert_eq!(req.path, "/edited");
    let head = serialize_request_head(
        req.method,
        &req.path,
        &req.version,
        &sanitize_request_headers(&req.header_list),
    );
    assert!(head.starts_with("GET /edited HTTP/1.1\r\n"));
}

#[test]
fn body_edit_rewrites_framing() {
    let mut req = sample_request("/upload");
    set_header(&mut req.header_list, "Transfer-Encoding", "chunked".to_string());
    let edit = RequestEdit {
        method: None,
        path: None,
        headers: None,
        body: Some(b"hello".to_vec()),
    };
    req.apply_edit(&edit);
    match &req.body_kind {
        RequestBodyKind::Edited { data } => assert_eq!(data, &b"hello".to_vec()),
        other => panic!("expected edited body, got {:?}", other),
    }
    assert!(header_value(&req.header_list, "transfer-encoding").is_none());
    assert_eq!(header_value(&req.header_list, "content-length").as_deref(), Some("5"));
}

#[test]
fn header_helpers_fold_case() {
    let mut hs = headers(&[("Host", "example.com")]);
    assert_eq!(header_value(&hs, "HOST").as_deref(), Some("example.com"));
    set_header(&mut hs, "host", "other.example".to_string());
    assert_eq!(hs.len(), 1);
    assert_eq!(hs[0].1, "other.example");
    remove_header(&mut hs, "HoSt");
    assert!(hs.is_empty());
}

#[test]
fn breakpoint_rules_are_conjunctive_inside_disjunctive_across() {
    let mut engine = BreakpointEngine::new();
    let rule = engine.add_breakpoint_rule(BreakpointRuleInput {
        enabled: true,
        method: Some(HttpMethod::Get),
        host_contains: None,
        path_contains: Some("break".to_string()),
    });
    let hit = BreakpointContext {
        method: HttpMethod::Get,
        host: "example.com".to_string(),
        path: "/break".to_string(),
    };
    let miss = BreakpointContext {
        method: HttpMethod::Get,
        host: "example.com".to_string(),
        path: "/normal".to_string(),
    };
    assert!(rule_matches(&rule, &hit));
    assert!(engine.should_break(&hit));
    assert!(!engine.should_break(&miss));

    // disabled rules never match
    engine.reset_for_tests();
    engine.add_breakpoint_rule(BreakpointRuleInput {
        enabled: false,
        method: None,
        host_contains: None,
        path_contains: None,
    });
    assert!(!engine.should_break(&hit));
}

#[test]
fn breakpoint_rule_substrings_fold_case() {
    let mut engine = BreakpointEngine::new();
    engine.add_breakpoint_rule(BreakpointRuleInput {
        enabled: true,
        method: None,
        host_contains: Some("EXAMPLE".to_string()),
        path_contains: None,
    });
    let ctx = BreakpointContext {
        method: HttpMethod::Post,
        host: "api.example.com".to_string(),
        path: "/".to_string(),
    };
    assert!(engine.should_break(&ctx));
}

#[test]
fn breakpoint_rules_can_be_removed() {
    let mut engine = BreakpointEngine::new();
    let rule = engine.add_breakpoint_rule(BreakpointRuleInput::default());
    assert_eq!(engine.list_breakpoint_rules().len(), 1);
    assert!(engine.remove_breakpoint_rule(&rule.id));
    assert!(!engine.remove_breakpoint_rule(&rule.id));
    assert!(engine.list_breakpoint_rules().is_empty());
}

#[test]
fn pending_registrations_resolve_once() {
    let mut engine = BreakpointEngine::new();
    engine.register_pending("tx-1".to_string());
    assert!(engine.resume_breakpoint("tx-1"));
    assert!(!engine.resume_breakpoint("tx-1"));
    engine.register_pending("tx-2".to_string());
    assert!(engine.abort_breakpoint("tx-2"));
    assert!(!engine.abort_breakpoint("tx-2"));
}

#[test]
fn pool_entries_expire_after_ttl() {
    let mut reg = UpstreamRegistry::new();
    reg.pool_insert("example.com", 443, 7, 1_000_000);
    assert_eq!(reg.pool_lookup("example.com", 443, 1_000_000 + 30_000), Some(7));
    assert_eq!(reg.pool_lookup("example.com", 443, 1_000_000 + 30_001), None);
}

#[test]
fn blocklist_expires_after_ttl() {
    let mut reg = UpstreamRegistry::new();
    reg.block("example.com", 443, 2_000_000);
    assert!(reg.is_blocked("example.com", 443, 2_000_000 + 299_999));
    assert!(!reg.is_blocked("example.com", 443, 2_000_000 + 300_000));
}

#[test]
fn h2_failure_forces_h1_fallback() {
    let mut reg = UpstreamRegistry::new();
    reg.pool_insert("example.com", 443, 42, 5_000_000);
    assert!(matches!(
        plan_upstream(RequestScheme::Https, "example.com", 443, &reg, 5_000_100),
        UpstreamPlan::ReusePool(42)
    ));
    reg.mark_h2_failure("example.com", 443, 5_000_200);
    match plan_upstream(RequestScheme::Https, "example.com", 443, &reg, 5_000_300) {
        UpstreamPlan::DialTls { h1_only } => assert!(h1_only),
        other => panic!("expected an HTTP/1.1-only dial, got {:?}", other),
    }
    assert!(reg.is_blocked("example.com", 443, 5_000_300));
    let alpn = alpn_protocols(true);
    assert_eq!(alpn, vec!["http/1.1".to_string()]);
    let alpn = alpn_protocols(false);
    assert_eq!(alpn, vec!["h2".to_string(), "http/1.1".to_string()]);
}

#[test]
fn plain_http_dials_tcp() {
    let reg = UpstreamRegistry::new();
    assert!(matches!(
        plan_upstream(RequestScheme::Http, "example.com", 80, &reg, 0),
        UpstreamPlan::DialTcp
    ));
}

#[test]
fn body_capture_respects_cap() {
    let mut cap = BodyCapture::new(4);
    cap.push(b"abc");
    cap.push(b"defg");
    assert_eq!(cap.len(), 4);
    assert_eq!(cap.into_option(), Some(b"abcd".to_vec()));
    let empty = BodyCapture::new(8);
    assert_eq!(empty.into_option(), None);
}

#[test]
fn transaction_states_follow_the_graph() {
    let mut tx = HttpTransaction::new(
        HttpMethod::Get,
        "http",
        "example.com",
        80,
        "/",
        Vec::new(),
    );
    assert_eq!(tx.state, TransactionState::Pending);
    assert!(tx.state.can_transition(TransactionState::Breakpointed));
    tx.set_state(TransactionState::Breakpointed);
    assert!(tx.state.can_transition(TransactionState::Pending));
    assert!(!tx.state.can_transition(TransactionState::Completed));
    tx.set_state(TransactionState::Pending);
    mark_completed(&mut tx, 200, "OK".to_string());
    assert_eq!(tx.state, TransactionState::Completed);
    assert!(!tx.state.can_transition(TransactionState::Pending));
    assert!(!tx.state.can_transition(TransactionState::Failed));
}

#[test]
fn breakpoint_abort_maps_to_conflict() {
    let (code, label, body) = failure_status(FailureKind::BreakpointAborted);
    assert_eq!(code, 409);
    assert_eq!(label, "Conflict");
    assert_eq!(body, "Request aborted at breakpoint");
    let mut tx = HttpTransaction::new(
        HttpMethod::Get,
        "http",
        "example.com",
        80,
        "/abort",
        Vec::new(),
    );
    mark_failed(&mut tx, code, label.to_string());
    assert_eq!(tx.state, TransactionState::Failed);
    assert_eq!(tx.status_code, Some(409));
}

#[test]
fn failure_mapping_matches_wire_contract() {
    assert_eq!(failure_status(FailureKind::UpstreamUnreachable).0, 502);
    assert_eq!(failure_status(FailureKind::TlsFailure).0, 502);
    assert_eq!(failure_status(FailureKind::ResponseReadFailed).0, 502);
    assert_eq!(failure_status(FailureKind::HeadParseFailed).0, 400);
    assert_eq!(failure_status(FailureKind::BodyTooLarge).0, 413);
}

#[test]
fn connect_without_ca_opens_plain_tunnel() {
    assert_eq!(connect_dispatch(false), ConnectPlan::PlainTunnel);
    assert_eq!(connect_dispatch(true), ConnectPlan::Intercept);
}

#[test]
fn connection_clock_is_monotone() {
    let mut clock = ConnectionClock::new();
    let a = clock.next_start(100);
    let b = clock.next_start(50);
    let c = clock.next_start(200);
    assert_eq!(a, 100);
    assert_eq!(b, 100);
    assert_eq!(c, 200);
}

#[test]
fn supervisor_start_stop_transitions_state() {
    let mut sup = Supervisor::new();
    assert!(!sup.status().is_running);
    sup.started(9095, "127.0.0.1".to_string());
    let st = sup.status();
    assert!(st.is_running);
    assert_eq!(st.port, 9095);
    sup.count_request();
    sup.stopped();
    let st = sup.status();
    assert!(!st.is_running);
    assert_eq!(st.total_requests, 1);
}

#[test]
fn stream_filter_defaults_to_allow_all() {
    let mut f = StreamFilter::new();
    let tx = HttpTransaction::new(HttpMethod::Get, "http", "example.com", 80, "/", Vec::new());
    assert!(f.stream_filter_allows(&tx));
    f.set_stream_filter(Some(cheddar_core::transaction::TransactionFilter {
        method: Some(HttpMethod::Post),
        host_contains: None,
        path_contains: None,
        status_min: None,
        status_max: None,
    }));
    assert!(!f.stream_filter_allows(&tx));
    f.set_stream_filter(None);
    assert!(f.stream_filter_allows(&tx));
}

#[test]
fn strip_bodies_clears_captures_only() {
    let mut tx = HttpTransaction::new(HttpMethod::Get, "http", "example.com", 80, "/", Vec::new());
    tx.request_body = Some(b"req".to_vec());
    tx.response_body = Some(b"res".to_vec());
    tx.response_size = Some(3);
    strip_bodies(&mut tx);
    assert!(tx.request_body.is_none());
    assert!(tx.response_body.is_none());
    assert_eq!(tx.response_size, Some(3));
}

#[test]
fn h2_request_sanitizer_drops_hop_headers() {
    let hs = headers(&[
        ("Host", "example.com"),
        ("Connection", "keep-alive"),
        ("Keep-Alive", "1"),
        ("Proxy-Connection", "1"),
        ("Upgrade", "h2c"),
        ("Transfer-Encoding", "chunked"),
        ("Expect", "100-continue"),
        ("TE", "trailers"),
        ("Accept", "*/*"),
    ]);
    let out = sanitize_h2_request_headers(&hs);
    let names: Vec<&str> = out.iter().map(|h| h.0.as_str()).collect();
    assert_eq!(names, vec!["TE", "Accept"]);

    let hs = headers(&[("TE", "gzip")]);
    assert!(sanitize_h2_request_headers(&hs).is_empty());
}

#[test]
fn h2_response_sanitizer_drops_forbidden_headers() {
    let hs = headers(&[
        ("Content-Type", "text/plain"),
        ("Transfer-Encoding", "chunked"),
        ("Connection", "close"),
        ("Keep-Alive", "1"),
        ("Proxy-Connection", "1"),
        ("Upgrade", "x"),
    ]);
    let out = sanitize_h2_response_headers(&hs);
    assert_eq!(out.len(), 1);
    assert_eq!(out[0].0, "Content-Type");
}

#[test]
fn authority_omits_default_ports() {
    assert_eq!(authority_for("example.com", 443, RequestScheme::Https), "example.com");
    assert_eq!(authority_for("example.com", 8443, RequestScheme::Https), "example.com:8443");
    assert_eq!(authority_for("example.com", 80, RequestScheme::Http), "example.com");
}

#[test]
fn status_line_uses_canonical_reason() {
    assert_eq!(reason_phrase(200), "OK");
    assert_eq!(reason_phrase(502), "Bad Gateway");
    assert_eq!(build_h1_status_line(404), "HTTP/1.1 404 Not Found\r\n");
}

#[test]
fn host_port_splitting_handles_defaults() {
    assert_eq!(split_host_and_port("example.com:8443", 443), ("example.com".to_string(), 8443));
    assert_eq!(split_host_and_port("example.com", 443), ("example.com".to_string(), 443));
    assert_eq!(
        split_host_and_port("example.com:notaport", 443),
        ("example.com:notaport".to_string(), 443)
    );
}

#[test]
fn san_kind_classifies_hosts() {
    assert_eq!(san_kind_for("127.0.0.1"), SanKind::IpAddress);
    assert_eq!(san_kind_for("::1"), SanKind::IpAddress);
    assert_eq!(san_kind_for("example.com"), SanKind::DnsName);
    assert_eq!(san_kind_for("256.1.1.1"), SanKind::DnsName);
}

#[test]
fn leaf_cache_keys_fold_case_and_evict() {
    let mut cache = LeafCache::new();
    cache.put("Example.COM", 5);
    assert_eq!(cache.get("example.com"), Some(5));
    assert_eq!(cache.get("other.example"), None);
    for i in 0..cheddar_core::ca::MAX_SERVER_CONFIG_CACHE {
        cache.put(&format!("host{}.example", i), i as u64);
    }
    // the original entry was least recently used and has been evicted
    assert_eq!(cache.get("example.com"), None);
}

#[test]
fn fresh_transactions_get_distinct_ids() {
    let a = HttpTransaction::new(HttpMethod::Get, "http", "example.com", 80, "/", Vec::new());
    let b = HttpTransaction::new(HttpMethod::Get, "http", "example.com", 80, "/", Vec::new());
    assert_eq!(a.id.chars().count(), 36);
    assert_eq!(b.id.chars().count(), 36);
    assert_ne!(a.id, b.id);
    assert!(a.timing.start_time >= 0);
}

#[test]
fn sink_strips_bodies_and_honors_the_filter() {
    let mut f = StreamFilter::new();
    let mut tx = HttpTransaction::new(HttpMethod::Get, "http", "example.com", 80, "/", Vec::new());
    tx.request_body = Some(b"secret".to_vec());
    let sent = send_transaction_to_sink(&f, &tx).expect("default filter allows");
    assert!(sent.request_body.is_none());
    assert_eq!(sent.host, "example.com");
    f.set_stream_filter(Some(cheddar_core::transaction::TransactionFilter {
        method: Some(HttpMethod::Post),
        host_contains: None,
        path_contains: None,
        status_min: None,
        status_max: None,
    }));
    assert!(send_transaction_to_sink(&f, &tx).is_none());
}

#[test]
fn finalized_response_records_wire_size() {
    let mut tx = HttpTransaction::new(HttpMethod::Get, "http", "example.com", 80, "/", Vec::new());
    let mut cap = BodyCapture::new(4);
    cap.push(b"toolong");
    finalize_response(
        &mut tx,
        200,
        "OK".to_string(),
        vec![("Content-Length".to_string(), "7".to_string())],
        cap,
        7,
    );
    assert_eq!(tx.state, TransactionState::Completed);
    // the capture is bounded, the wire size exact
    assert_eq!(tx.response_body, Some(b"tool".to_vec()));
    assert_eq!(tx.response_size, Some(7));
}

#[test]
fn method_tokens_parse_lossily() {
    assert_eq!(HttpMethod::from_str_lossy("get"), HttpMethod::Get);
    assert_eq!(HttpMethod::from_str_lossy("DELETE"), HttpMethod::Delete);
    assert_eq!(HttpMethod::from_str_lossy("bogus"), HttpMethod::Get);
    assert_eq!(HttpMethod::Connect.as_str(), "CONNECT");
}
