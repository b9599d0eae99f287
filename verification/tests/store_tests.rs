//! Tests for the transaction store and the WebSocket message store.

use cheddar_core::method::HttpMethod;
use cheddar_core::store::{TransactionStore, DEFAULT_RING_CAPACITY};
use cheddar_core::transaction::{HttpTransaction, TransactionFilter};
use cheddar_core::websocket::{MessageDirection, WebSocketMessage, WebSocketOpcode};
use cheddar_core::wsstore::{connection_info, WebSocketStore, MAX_MESSAGES_PER_CONNECTION};

fn make_tx(id: &str, host: &str, status: u16, started_at: i64) -> HttpTransaction {
    let mut tx = HttpTransaction::new(HttpMethod::Get, "https", host, 443, "/api", Vec::new());
    tx.id = id.to_string();
    tx.timing.start_time = started_at;
    tx.status_code = Some(status);
    tx
}

fn empty_filter() -> TransactionFilter {
    TransactionFilter {
        method: None,
        host_contains: None,
        path_contains: None,
        status_min: None,
        status_max: None,
    }
}

#[test]
fn add_transaction_persists_and_queries() {
    let mut store = TransactionStore::new(DEFAULT_RING_CAPACITY);
    for i in 0..5i64 {
        store.add_transaction(make_tx(
            &format!("tx{}", i),
            &format!("api{}.example.com", i),
            200,
            1_700_000_000_000 + i,
        ));
    }
    assert_eq!(store.count(), 5);
    let page = store.query(&empty_filter(), 0, 50);
    assert_eq!(page.total, 5);
    assert_eq!(page.items.len(), 5);
    // newest first
    assert_eq!(page.items[0].id, "tx4");
    assert_eq!(page.items[4].id, "tx0");
}

#[test]
fn query_respects_filters() {
    let mut store = TransactionStore::new(10);
    let mut a = make_tx("a", "match.example.com", 502, 1_700_000_000_100);
    a.status_code = Some(502);
    store.add_transaction(a);
    let b = make_tx("b", "other.example.com", 200, 1_700_000_000_200);
    store.add_transaction(b);

    let mut filter = empty_filter();
    filter.host_contains = Some("match".to_string());
    filter.status_min = Some(400);
    let page = store.query(&filter, 0, 50);
    assert_eq!(page.total, 1);
    assert_eq!(page.items[0].id, "a");

    let mut by_status = empty_filter();
    by_status.status_max = Some(400);
    let page = store.query(&by_status, 0, 50);
    assert_eq!(page.total, 1);
    assert_eq!(page.items[0].id, "b");
}

#[test]
fn ring_buffer_enforces_max_length() {
    let mut store = TransactionStore::new(3);
    for i in 0..5i64 {
        store.add_transaction(make_tx(
            &format!("ring{}", i),
            "ring.example.com",
            200,
            1_700_000_000_000 + i,
        ));
    }
    // the database retains all entries
    assert_eq!(store.count(), 5);
    // the ring keeps only the newest entries: ring0/ring1 now come from
    // the log, while ring4 is the most recent entry
    let found = store.get_by_id("ring0").expect("still in the log");
    assert_eq!(found.id, "ring0");
    let page = store.query(&empty_filter(), 0, 1);
    assert_eq!(page.items[0].id, "ring4");
}

#[test]
fn persist_then_fetch_round_trips() {
    let mut store = TransactionStore::new(10);
    let mut tx = make_tx("roundtrip", "example.com", 200, 1_700_000_000_000);
    tx.request_body = Some(b"ping".to_vec());
    tx.response_body = Some(b"pong".to_vec());
    tx.notes = Some("note".to_string());
    store.add_transaction(tx);
    let got = store.get_by_id("roundtrip").expect("fetched");
    assert_eq!(got.id, "roundtrip");
    assert_eq!(got.host, "example.com");
    assert_eq!(got.status_code, Some(200));
    assert_eq!(got.request_body, Some(b"ping".to_vec()));
    assert_eq!(got.response_body, Some(b"pong".to_vec()));
    assert_eq!(got.notes, Some("note".to_string()));
    assert!(store.get_by_id("missing").is_none());
}

#[test]
fn re_persisting_replaces_the_row() {
    let mut store = TransactionStore::new(10);
    let tx = make_tx("same-id", "example.com", 200, 1_700_000_000_000);
    store.add_transaction(tx);
    let mut tx2 = make_tx("same-id", "example.com", 404, 1_700_000_000_050);
    tx2.path = "/changed".to_string();
    store.add_transaction(tx2);
    assert_eq!(store.count(), 1);
    let page = store.query(&empty_filter(), 0, 10);
    assert_eq!(page.items[0].status_code, Some(404));
}

#[test]
fn pagination_slices_pages() {
    let mut store = TransactionStore::new(10);
    for i in 0..5i64 {
        store.add_transaction(make_tx(&format!("p{}", i), "example.com", 200, 1000 + i));
    }
    let page0 = store.query(&empty_filter(), 0, 2);
    assert_eq!(page0.total, 5);
    assert_eq!(page0.items.len(), 2);
    assert_eq!(page0.items[0].id, "p4");
    let page2 = store.query(&empty_filter(), 2, 2);
    assert_eq!(page2.items.len(), 1);
    assert_eq!(page2.items[0].id, "p0");
    let beyond = store.query(&empty_filter(), 9, 2);
    assert!(beyond.items.is_empty());
}

#[test]
fn prune_drops_old_rows() {
    let mut store = TransactionStore::new(10);
    store.add_transaction(make_tx("old", "example.com", 200, 1_000));
    store.add_transaction(make_tx("new", "example.com", 200, 2_000));
    let removed = store.prune_older_than(1_500);
    assert_eq!(removed, 1);
    assert_eq!(store.count(), 1);
    assert!(store.get_by_id("new").is_some());
}

#[test]
fn clear_all_empties_both_layers() {
    let mut store = TransactionStore::new(10);
    store.add_transaction(make_tx("x", "example.com", 200, 1_000));
    assert_eq!(store.clear_all(), 1);
    assert_eq!(store.count(), 0);
    assert!(store.get_by_id("x").is_none());
}

#[test]
fn time_range_query_bounds_rows() {
    let mut store = TransactionStore::new(10);
    store.add_transaction(make_tx("t1", "example.com", 200, 1_000));
    store.add_transaction(make_tx("t2", "example.com", 200, 2_000));
    store.add_transaction(make_tx("t3", "example.com", 200, 3_000));
    let page = store.query_with_time_range(&empty_filter(), 1_500, 2_500, 0, 10);
    assert_eq!(page.total, 1);
    assert_eq!(page.items[0].id, "t2");
    let page = store.query_with_time_range(&empty_filter(), 1_000, 3_000, 0, 10);
    assert_eq!(page.total, 3);
}

#[test]
fn list_recent_and_list_page_take_prefixes() {
    let mut store = TransactionStore::new(10);
    for i in 0..4i64 {
        store.add_transaction(make_tx(&format!("r{}", i), "example.com", 200, 1000 + i));
    }
    let recent = store.list_recent(2);
    assert_eq!(recent.len(), 2);
    assert_eq!(recent[0].id, "r3");
    assert_eq!(recent[1].id, "r2");
    let older = store.list_page(Some(1002), 10);
    assert_eq!(older.len(), 2);
    assert_eq!(older[0].id, "r1");
    let all = store.list_page(None, 3);
    assert_eq!(all.len(), 3);
    assert_eq!(all[0].id, "r3");
}

#[test]
fn slowest_by_duration_orders_and_filters() {
    let mut store = TransactionStore::new(10);
    let mut a = make_tx("slow", "example.com", 200, 1_000);
    a.timing.total_ms = Some(900);
    store.add_transaction(a);
    let mut b = make_tx("fast", "example.com", 200, 2_000);
    b.timing.total_ms = Some(10);
    store.add_transaction(b);
    let mut c = make_tx("mid", "example.com", 200, 3_000);
    c.timing.total_ms = Some(300);
    store.add_transaction(c);
    let d = make_tx("untimed", "example.com", 200, 4_000);
    store.add_transaction(d);

    let slow = store.slowest_by_duration(&empty_filter(), None, 10);
    let ids: Vec<&str> = slow.iter().map(|t| t.id.as_str()).collect();
    assert_eq!(ids, vec!["slow", "mid", "fast"]);

    let over_100 = store.slowest_by_duration(&empty_filter(), Some(100), 10);
    let ids: Vec<&str> = over_100.iter().map(|t| t.id.as_str()).collect();
    assert_eq!(ids, vec!["slow", "mid"]);

    let top1 = store.slowest_by_duration(&empty_filter(), None, 1);
    assert_eq!(top1.len(), 1);
    assert_eq!(top1[0].id, "slow");
}

#[test]
fn unique_hosts_count_and_order() {
    let mut store = TransactionStore::new(10);
    store.add_transaction(make_tx("h1", "a.example.com", 200, 1_000));
    store.add_transaction(make_tx("h2", "b.example.com", 200, 2_000));
    store.add_transaction(make_tx("h3", "a.example.com", 200, 3_000));
    store.add_transaction(make_tx("h4", "a.example.com", 200, 4_000));
    let hosts = store.list_unique_hosts(10);
    assert_eq!(hosts.len(), 2);
    assert_eq!(hosts[0], ("a.example.com".to_string(), 3));
    assert_eq!(hosts[1], ("b.example.com".to_string(), 1));
    let top1 = store.list_unique_hosts(1);
    assert_eq!(top1.len(), 1);
    assert_eq!(top1[0].0, "a.example.com");
}

fn ws_msg(conn: &str, text: &[u8]) -> WebSocketMessage {
    WebSocketMessage::new(
        conn.to_string(),
        MessageDirection::ClientToServer,
        WebSocketOpcode::Text,
        text.to_vec(),
        text.len() as u64,
        true,
    )
}

#[test]
fn ws_store_keeps_messages_per_connection() {
    let mut store = WebSocketStore::new();
    store.add_websocket_message(ws_msg("c1", b"one"));
    store.add_websocket_message(ws_msg("c2", b"other"));
    store.add_websocket_message(ws_msg("c1", b"two"));
    assert_eq!(store.get_websocket_message_count("c1"), 2);
    assert_eq!(store.get_websocket_message_count("c2"), 1);
    let msgs = store.get_websocket_messages("c1");
    assert_eq!(msgs.len(), 2);
    assert_eq!(msgs[0].payload, b"one".to_vec());
    assert_eq!(msgs[1].payload, b"two".to_vec());
    assert!(store.get_websocket_messages("unknown").is_empty());
}

#[test]
fn ws_store_bounds_queue_length() {
    let mut store = WebSocketStore::new();
    for i in 0..(MAX_MESSAGES_PER_CONNECTION + 5) {
        store.add_websocket_message(ws_msg("busy", format!("m{}", i).as_bytes()));
    }
    assert_eq!(store.get_websocket_message_count("busy"), MAX_MESSAGES_PER_CONNECTION);
    let msgs = store.get_websocket_messages("busy");
    assert_eq!(msgs[0].payload, b"m5".to_vec());
}

#[test]
fn ws_store_clears_connections() {
    let mut store = WebSocketStore::new();
    store.add_websocket_message(ws_msg("c1", b"x"));
    store.add_websocket_message(ws_msg("c2", b"y"));
    store.clear_websocket_messages("c1");
    assert_eq!(store.get_websocket_message_count("c1"), 0);
    assert_eq!(store.get_websocket_message_count("c2"), 1);
    store.clear_all_websocket_messages();
    assert_eq!(store.get_websocket_message_count("c2"), 0);
}

#[test]
fn ws_connection_pages_and_info() {
    let mut store = WebSocketStore::new();
    store.add_websocket_message(ws_msg("host-a/path/x", b"1"));
    store.add_websocket_message(ws_msg("host-b", b"2"));
    let ids = store.get_websocket_connections(0, 10);
    assert_eq!(ids, vec!["host-a/path/x".to_string(), "host-b".to_string()]);
    let info = connection_info("host-a/path/x");
    assert_eq!(info.host, "host-a");
    assert_eq!(info.path, "/path/x");
    let info = connection_info("plain");
    assert_eq!(info.host, "plain");
    assert_eq!(info.path, "");
}
