//! In-memory store of captured WebSocket messages, keyed by the owning
//! connection, with bounded queues and a bounded connection count.

use vstd::prelude::*;

verus! {

use vstd::string::StrSliceExecFns;
use vstd::string::StringExecFns;
use crate::store::clone_bytes;
use crate::sys::now_millis;
use crate::target::spec_find_char;
use crate::text::str_eq_chars;
use crate::websocket::WebSocketMessage;

/// Most messages kept per connection.
pub const MAX_MESSAGES_PER_CONNECTION: usize = 1000;

/// Most connections tracked at once.
pub const MAX_WS_CONNECTIONS: usize = 100;

/// Two captured messages carry the same record.
pub open spec fn ws_equiv(a: WebSocketMessage, b: WebSocketMessage) -> bool {
    &&& a.id == b.id
    &&& a.connection_id == b.connection_id
    &&& a.direction == b.direction
    &&& a.opcode == b.opcode
    &&& a.payload@ == b.payload@
    &&& a.payload_length == b.payload_length
    &&& a.timestamp == b.timestamp
    &&& a.is_fragmented == b.is_fragmented
    &&& a.is_final == b.is_final
}

/// Pairwise-equivalent message sequences.
pub open spec fn ws_seq_equiv(a: Seq<WebSocketMessage>, b: Seq<WebSocketMessage>) -> bool {
    a.len() == b.len() && forall|i: int| 0 <= i < a.len() ==> ws_equiv(#[trigger] a[i], b[i])
}

/// The first connection slot bearing this id.
pub open spec fn spec_conn_index(
    conns: Seq<(String, Vec<WebSocketMessage>)>,
    id: Seq<char>,
) -> Option<int>
    decreases conns.len(),
{
    if conns.len() == 0 {
        None
    } else if conns[0].0@ == id {
        Some(0)
    } else {
        match spec_conn_index(conns.drop_first(), id) {
            Some(i) => Some(i + 1),
            None => None,
        }
    }
}

/// The message store: one bounded queue per connection, in insertion
/// order of connections.
pub struct WebSocketStore {
    conns: Vec<(String, Vec<WebSocketMessage>)>,
}

impl WebSocketStore {
    /// The connections and their queues, oldest connection first.
    pub closed spec fn spec_conns(self) -> Seq<(String, Vec<WebSocketMessage>)> {
        self.conns@
    }

    /// An empty store.
    pub fn new() -> (r: WebSocketStore)
        ensures
            r.spec_conns().len() == 0,
    {
        WebSocketStore { conns: Vec::new() }
    }

    fn find_conn(&self, id: &str) -> (r: Option<usize>)
        ensures
            match r {
                Some(i) => spec_conn_index(self.spec_conns(), id@) == Some(i as int) && i
                    < self.spec_conns().len(),
                None => spec_conn_index(self.spec_conns(), id@) is None,
            },
    {
        let mut i: usize = 0;
        while i < self.conns.len()
            invariant
                i <= self.conns@.len(),
                forall|j: int| 0 <= j < i ==> #[trigger] self.conns@[j].0@ != id@,
            decreases self.conns@.len() - i,
        {
            if str_eq_chars(self.conns[i].0.as_str(), id) {
                proof {
                    lemma_conn_index_at(self.conns@, id@, i as int);
                }
                return Some(i);
            }
            i += 1;
        }
        proof {
            lemma_conn_index_none(self.conns@, id@);
        }
        None
    }

    /// Record a message under its connection: a new connection evicts
    /// the oldest one when the store is full, and a full queue drops its
    /// oldest message.
    pub fn add_websocket_message(&mut self, msg: WebSocketMessage)
        ensures
            match spec_conn_index(old(self).spec_conns(), msg.connection_id@) {
                Some(i) => {
                    let oldq = old(self).spec_conns()[i].1;
                    let newq = if oldq@.len() < MAX_MESSAGES_PER_CONNECTION {
                        oldq@.push(msg)
                    } else {
                        oldq@.drop_first().push(msg)
                    };
                    &&& final(self).spec_conns().len() == old(self).spec_conns().len()
                    &&& forall|j: int|
                        0 <= j < old(self).spec_conns().len() && j != i
                            ==> final(self).spec_conns()[j] == old(self).spec_conns()[j]
                    &&& final(self).spec_conns()[i].0 == old(self).spec_conns()[i].0
                    &&& final(self).spec_conns()[i].1@ == newq
                },
                None => {
                    let base = if old(self).spec_conns().len() >= MAX_WS_CONNECTIONS {
                        old(self).spec_conns().drop_first()
                    } else {
                        old(self).spec_conns()
                    };
                    &&& final(self).spec_conns().len() == base.len() + 1
                    &&& final(self).spec_conns().take(base.len() as int) == base
                    &&& final(self).spec_conns().last().0 == msg.connection_id
                    &&& final(self).spec_conns().last().1@ == seq![msg]
                },
            },
    {
        let found = self.find_conn(msg.connection_id.as_str());
        match found {
            Some(i) => {
                if self.conns[i].1.len() >= MAX_MESSAGES_PER_CONNECTION {
                    let ghost pre = self.conns@[i as int].1@;
                    self.conns[i].1.remove(0);
                    proof {
                        assert(self.conns@[i as int].1@ =~= pre.drop_first());
                    }
                }
                self.conns[i].1.push(msg);
            },
            None => {
                if self.conns.len() >= MAX_WS_CONNECTIONS {
                    self.conns.remove(0);
                    proof {
                        assert(self.conns@ =~= old(self).conns@.drop_first());
                    }
                }
                let id = msg.connection_id.clone();
                let mut q: Vec<WebSocketMessage> = Vec::new();
                q.push(msg);
                let ghost base = self.conns@;
                self.conns.push((id, q));
                proof {
                    assert(self.conns@.take(base.len() as int) =~= base);
                }
            },
        }
    }

    /// Copies of the messages of a connection, oldest first.
    pub fn get_websocket_messages(&self, connection_id: &str) -> (r: Vec<WebSocketMessage>)
        ensures
            match spec_conn_index(self.spec_conns(), connection_id@) {
                Some(i) => ws_seq_equiv(r@, self.spec_conns()[i].1@),
                None => r@.len() == 0,
            },
    {
        match self.find_conn(connection_id) {
            Some(i) => {
                let q = &self.conns[i].1;
                let mut out: Vec<WebSocketMessage> = Vec::new();
                let mut k: usize = 0;
                while k < q.len()
                    invariant
                        k <= q@.len(),
                        ws_seq_equiv(out@, q@.subrange(0, k as int)),
                    decreases q@.len() - k,
                {
                    let ghost pre = out@;
                    out.push(clone_ws(&q[k]));
                    proof {
                        assert forall|j: int| 0 <= j < out@.len() implies ws_equiv(
                            #[trigger] out@[j],
                            q@.subrange(0, k + 1)[j],
                        ) by {
                            if j < pre.len() {
                                assert(out@[j] == pre[j]);
                                assert(q@.subrange(0, k + 1)[j] == q@.subrange(0, k as int)[j]);
                            } else {
                                assert(q@.subrange(0, k + 1)[j] == q@[k as int]);
                            }
                        }
                    }
                    k += 1;
                }
                proof {
                    assert(q@.subrange(0, q@.len() as int) =~= q@);
                }
                out
            },
            None => Vec::new(),
        }
    }

    /// Number of stored messages of a connection.
    pub fn get_websocket_message_count(&self, connection_id: &str) -> (r: usize)
        ensures
            r as int == (match spec_conn_index(self.spec_conns(), connection_id@) {
                Some(i) => self.spec_conns()[i].1@.len(),
                None => 0,
            }),
    {
        match self.find_conn(connection_id) {
            Some(i) => self.conns[i].1.len(),
            None => 0,
        }
    }

    /// Drop the queue of one connection.
    pub fn clear_websocket_messages(&mut self, connection_id: &str)
        ensures
            final(self).spec_conns() == old(self).spec_conns().filter(
                |c: (String, Vec<WebSocketMessage>)| c.0@ != connection_id@,
            ),
    {
        broadcast use vstd::seq_lib::group_filter_ensures;

        let ghost pred = |c: (String, Vec<WebSocketMessage>)| c.0@ != connection_id@;
        let ghost old_conns = self.conns@;
        let mut kept: Vec<(String, Vec<WebSocketMessage>)> = Vec::new();
        let ghost mut processed: Seq<(String, Vec<WebSocketMessage>)> = Seq::empty();
        proof {
            assert(old_conns =~= processed + self.conns@);
            assert(kept@ =~= processed.filter(pred));
        }
        while self.conns.len() > 0
            invariant
                old_conns == processed + self.conns@,
                kept@ == processed.filter(pred),
                pred == (|c: (String, Vec<WebSocketMessage>)| c.0@ != connection_id@),
            decreases self.conns@.len(),
        {
            let ghost pre = self.conns@;
            let slot = self.conns.remove(0);
            proof {
                assert(self.conns@ =~= pre.drop_first());
            }
            if !str_eq_chars(slot.0.as_str(), connection_id) {
                kept.push(slot);
            }
            proof {
                processed.lemma_filter_push(pre[0], pred);
                processed = processed.push(pre[0]);
                assert(old_conns =~= processed + self.conns@);
                assert(kept@ =~= processed.filter(pred));
            }
        }
        proof {
            assert(old_conns =~= processed);
        }
        self.conns = kept;
    }

    /// Drop everything.
    pub fn clear_all_websocket_messages(&mut self)
        ensures
            final(self).spec_conns().len() == 0,
    {
        self.conns = Vec::new();
    }

    /// A page of the tracked connection ids, in insertion order.
    pub fn get_websocket_connections(&self, page: u32, page_size: u32) -> (r: Vec<String>)
        ensures
            ({
                let lo = if (page as int) * (page_size as int) <= self.spec_conns().len() as int {
                    (page as int) * (page_size as int)
                } else {
                    self.spec_conns().len() as int
                };
                let hi = if lo + page_size as int <= self.spec_conns().len() as int {
                    lo + page_size as int
                } else {
                    self.spec_conns().len() as int
                };
                r@.len() == hi - lo && forall|j: int|
                    0 <= j < hi - lo ==> #[trigger] r@[j] == self.spec_conns()[lo + j].0
            }),
    {
        let n = self.conns.len();
        let pe: u128 = page as u128;
        let se: u128 = page_size as u128;
        proof {
            assert(pe * se <= 18446744073709551615u128) by (nonlinear_arith)
                requires
                    pe <= 4294967295u128,
                    se <= 4294967295u128,
            ;
        }
        let lo: usize = if pe * se <= (n as u128) {
            (pe * se) as usize
        } else {
            n
        };
        let hi: usize = if n - lo >= (page_size as usize) {
            lo + (page_size as usize)
        } else {
            n
        };
        let mut out: Vec<String> = Vec::new();
        let mut i: usize = lo;
        while i < hi
            invariant
                lo <= i <= hi <= self.conns@.len(),
                out@.len() == i - lo,
                forall|j: int|
                    0 <= j < i - lo ==> #[trigger] out@[j] == self.conns@[lo + j].0,
            decreases hi - i,
        {
            out.push(self.conns[i].0.clone());
            i += 1;
        }
        out
    }
}

proof fn lemma_conn_index_at(conns: Seq<(String, Vec<WebSocketMessage>)>, id: Seq<char>, i: int)
    requires
        0 <= i < conns.len(),
        conns[i].0@ == id,
        forall|j: int| 0 <= j < i ==> #[trigger] conns[j].0@ != id,
    ensures
        spec_conn_index(conns, id) == Some(i),
    decreases i,
{
    if i > 0 {
        let rest = conns.drop_first();
        assert forall|j: int| 0 <= j < i - 1 implies #[trigger] rest[j].0@ != id by {
            assert(rest[j] == conns[j + 1]);
        }
        assert(rest[i - 1] == conns[i]);
        lemma_conn_index_at(rest, id, i - 1);
    }
}

proof fn lemma_conn_index_none(conns: Seq<(String, Vec<WebSocketMessage>)>, id: Seq<char>)
    requires
        forall|j: int| 0 <= j < conns.len() ==> #[trigger] conns[j].0@ != id,
    ensures
        spec_conn_index(conns, id) is None,
    decreases conns.len(),
{
    if conns.len() > 0 {
        let rest = conns.drop_first();
        assert forall|j: int| 0 <= j < rest.len() implies #[trigger] rest[j].0@ != id by {
            assert(rest[j] == conns[j + 1]);
        }
        lemma_conn_index_none(rest, id);
    }
}

/// A record-preserving copy of a captured message.
pub fn clone_ws(m: &WebSocketMessage) -> (r: WebSocketMessage)
    ensures
        ws_equiv(r, *m),
{
    WebSocketMessage {
        id: m.id.clone(),
        connection_id: m.connection_id.clone(),
        direction: m.direction,
        opcode: m.opcode,
        payload: clone_bytes(&m.payload),
        payload_length: m.payload_length,
        timestamp: m.timestamp,
        is_fragmented: m.is_fragmented,
        is_final: m.is_final,
    }
}

/// Summary of one tracked WebSocket connection.
#[derive(Debug, Clone)]
pub struct WebSocketConnectionInfo {
    /// The connection id.
    pub id: String,
    /// The text of the id before its first `/`.
    pub host: String,
    /// The text of the id from its first `/`, or empty.
    pub path: String,
    /// When the summary was taken, milliseconds since the epoch.
    pub timestamp_ms: i64,
}

/// Build the summary of one connection id: the id split at its first
/// slash into a host part and a path part.
pub fn connection_info(id: &str) -> (r: WebSocketConnectionInfo)
    ensures
        r.id@ == id@,
        ({
            match spec_find_char(id@, '/', 0) {
                Some(i) => r.host@ == id@.subrange(0, i) && r.path@ == id@.subrange(
                    i,
                    id@.len() as int,
                ),
                None => r.host@ == id@ && r.path@.len() == 0,
            }
        }),
{
    let n = id.unicode_len();
    let mut i: usize = 0;
    while i < n
        invariant
            i <= n,
            n == id@.len(),
            spec_find_char(id@, '/', 0) == spec_find_char(id@, '/', i as int),
        decreases n - i,
    {
        if id.get_char(i) == '/' {
            let host = id.substring_char(0, i).to_owned();
            let path = id.substring_char(i, n).to_owned();
            return WebSocketConnectionInfo {
                id: id.to_owned(),
                host,
                path,
                timestamp_ms: now_millis(),
            };
        }
        i += 1;
    }
    WebSocketConnectionInfo {
        id: id.to_owned(),
        host: id.to_owned(),
        path: String::new(),
        timestamp_ms: now_millis(),
    }
}

} // verus!
