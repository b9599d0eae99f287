//! The transaction store: a bounded in-memory ring of the most recent
//! transactions, and an indexed log ordered by start time.
//!
//! The log keeps one row per transaction id (a re-persisted transaction
//! replaces its row), ordered by start time descending; rows with equal
//! start times keep insertion order. Every persisted row has a
//! non-negative start time.

use vstd::prelude::*;

verus! {

use vstd::multiset::Multiset;
use crate::request::clone_headers;
use crate::transaction::{
    spec_filter_matches,
    HttpTransaction,
    PaginatedTransactions,
    TransactionFilter,
};

/// Default ring capacity: the 10,000 most recent transactions.
pub const DEFAULT_RING_CAPACITY: usize = 10000;

/// Largest page a query serves.
pub const MAX_QUERY_PAGE_SIZE: usize = 10000;

/// Two transactions carry the same record: every field agrees, the
/// vector-backed ones by contents.
pub open spec fn tx_equiv(a: HttpTransaction, b: HttpTransaction) -> bool {
    &&& a.id == b.id
    &&& a.method == b.method
    &&& a.scheme == b.scheme
    &&& a.host == b.host
    &&& a.port == b.port
    &&& a.path == b.path
    &&& a.http_version == b.http_version
    &&& a.state == b.state
    &&& a.request_headers@ == b.request_headers@
    &&& opt_bytes_equiv(a.request_body, b.request_body)
    &&& a.request_content_type == b.request_content_type
    &&& a.status_code == b.status_code
    &&& a.status_message == b.status_message
    &&& opt_headers_equiv(a.response_headers, b.response_headers)
    &&& opt_bytes_equiv(a.response_body, b.response_body)
    &&& a.response_content_type == b.response_content_type
    &&& a.timing == b.timing
    &&& a.response_size == b.response_size
    &&& a.has_breakpoint == b.has_breakpoint
    &&& a.notes == b.notes
    &&& a.server_ip == b.server_ip
    &&& a.tls_version == b.tls_version
    &&& a.tls_cipher == b.tls_cipher
    &&& a.connection_reused == b.connection_reused
    &&& a.stream_id == b.stream_id
    &&& a.is_websocket == b.is_websocket
}

/// Optional byte vectors with the same contents.
pub open spec fn opt_bytes_equiv(a: Option<Vec<u8>>, b: Option<Vec<u8>>) -> bool {
    match (a, b) {
        (Some(x), Some(y)) => x@ == y@,
        (None, None) => true,
        _ => false,
    }
}

/// Optional header lists with the same contents.
pub open spec fn opt_headers_equiv(
    a: Option<Vec<(String, String)>>,
    b: Option<Vec<(String, String)>>,
) -> bool {
    match (a, b) {
        (Some(x), Some(y)) => x@ == y@,
        (None, None) => true,
        _ => false,
    }
}

/// Pairwise-equivalent transaction sequences.
pub open spec fn txs_equiv(a: Seq<HttpTransaction>, b: Seq<HttpTransaction>) -> bool {
    a.len() == b.len() && forall|i: int| 0 <= i < a.len() ==> tx_equiv(#[trigger] a[i], b[i])
}

/// Rows are ordered by start time, newest first.
pub open spec fn sorted_by_start_desc(rows: Seq<HttpTransaction>) -> bool {
    forall|i: int, j: int|
        0 <= i < j < rows.len() ==> #[trigger] rows[i].timing.start_time
            >= #[trigger] rows[j].timing.start_time
}

/// No two rows share an id.
pub open spec fn unique_ids(rows: Seq<HttpTransaction>) -> bool {
    forall|i: int, j: int|
        0 <= i < j < rows.len() ==> #[trigger] rows[i].id@ != #[trigger] rows[j].id@
}

/// Every row's start time is non-negative.
pub open spec fn starts_nonneg(rows: Seq<HttpTransaction>) -> bool {
    forall|i: int| 0 <= i < rows.len() ==> #[trigger] rows[i].timing.start_time >= 0
}

/// Where a row with this start time goes in a descending log: after
/// every row at least as new, before the first strictly older row.
pub open spec fn spec_insert_pos(rows: Seq<HttpTransaction>, start: i64) -> int
    decreases rows.len(),
{
    if rows.len() == 0 {
        0
    } else if rows[0].timing.start_time < start {
        0
    } else {
        1 + spec_insert_pos(rows.drop_first(), start)
    }
}

/// The first row bearing this id, scanning front to back.
pub open spec fn spec_find_by_id(rows: Seq<HttpTransaction>, id: Seq<char>) -> Option<
    HttpTransaction,
>
    decreases rows.len(),
{
    if rows.len() == 0 {
        None
    } else if rows[0].id@ == id {
        Some(rows[0])
    } else {
        spec_find_by_id(rows.drop_first(), id)
    }
}

/// The first row bearing this id, scanning back to front: the most
/// recently added copy in an append-only list.
pub open spec fn spec_rfind_by_id(rows: Seq<HttpTransaction>, id: Seq<char>) -> Option<
    HttpTransaction,
>
    decreases rows.len(),
{
    if rows.len() == 0 {
        None
    } else if rows.last().id@ == id {
        Some(rows.last())
    } else {
        spec_rfind_by_id(rows.drop_last(), id)
    }
}

/// The two-layer store.
pub struct TransactionStore {
    ring: Vec<HttpTransaction>,
    ring_cap: usize,
    log: Vec<HttpTransaction>,
}

impl TransactionStore {
    /// The ring contents, oldest first.
    pub closed spec fn spec_ring(self) -> Seq<HttpTransaction> {
        self.ring@
    }

    /// The ring capacity.
    pub closed spec fn spec_ring_cap(self) -> usize {
        self.ring_cap
    }

    /// The log rows, newest start time first.
    pub closed spec fn spec_log(self) -> Seq<HttpTransaction> {
        self.log@
    }

    /// The store's invariants: the ring is bounded, the log is ordered
    /// newest-first, ids are unique, and start times are non-negative.
    pub closed spec fn wf(self) -> bool {
        &&& self.ring@.len() <= self.ring_cap
        &&& self.ring_cap >= 1
        &&& sorted_by_start_desc(self.log@)
        &&& unique_ids(self.log@)
        &&& starts_nonneg(self.log@)
    }

    /// An empty store with the given ring capacity.
    pub fn new(ring_cap: usize) -> (r: TransactionStore)
        requires
            ring_cap >= 1,
        ensures
            r.wf(),
            r.spec_ring().len() == 0,
            r.spec_log().len() == 0,
            r.spec_ring_cap() == ring_cap,
    {
        TransactionStore { ring: Vec::new(), ring_cap, log: Vec::new() }
    }

    /// Number of rows in the log.
    pub fn count(&self) -> (r: usize)
        ensures
            r == self.spec_log().len(),
    {
        self.log.len()
    }

    /// Persist a transaction: the ring appends a copy of it (dropping
    /// its oldest entry when full), and the log replaces any row with
    /// the same id, keeping its order by start time.
    #[verifier::rlimit(100)]
    pub fn add_transaction(&mut self, tx: HttpTransaction)
        requires
            old(self).wf(),
            tx.timing.start_time >= 0,
        ensures
            final(self).wf(),
            final(self).spec_ring_cap() == old(self).spec_ring_cap(),
            ({
                let base = if old(self).spec_ring().len() < old(self).spec_ring_cap() {
                    old(self).spec_ring()
                } else {
                    old(self).spec_ring().drop_first()
                };
                &&& final(self).spec_ring().len() == base.len() + 1
                &&& final(self).spec_ring().take(base.len() as int) == base
                &&& tx_equiv(final(self).spec_ring().last(), tx)
            }),
            ({
                let kept = old(self).spec_log().filter(
                    |r: HttpTransaction| r.id@ != tx.id@,
                );
                final(self).spec_log() == kept.insert(
                    spec_insert_pos(kept, tx.timing.start_time),
                    tx,
                )
            }),
    {
        broadcast use vstd::seq_lib::group_filter_ensures;

        let txc = clone_tx(&tx);
        if self.ring.len() >= self.ring_cap {
            self.ring.remove(0);
            proof {
                assert(self.ring@ =~= old(self).ring@.drop_first());
            }
        }
        self.ring.push(txc);
        proof {
            let base = if old(self).ring@.len() < old(self).ring_cap {
                old(self).ring@
            } else {
                old(self).ring@.drop_first()
            };
            assert(self.ring@.take(base.len() as int) =~= base);
        }

        let ghost old_log = self.log@;
        let ghost pred = |r: HttpTransaction| r.id@ != tx.id@;
        let mut kept: Vec<HttpTransaction> = Vec::new();
        let ghost mut processed: Seq<HttpTransaction> = Seq::empty();
        proof {
            assert(old_log =~= processed + self.log@);
            assert(kept@ =~= processed.filter(pred));
        }
        let ghost ring_after = self.ring@;
        while self.log.len() > 0
            invariant
                old_log == processed + self.log@,
                kept@ == processed.filter(pred),
                pred == (|r: HttpTransaction| r.id@ != tx.id@),
                self.ring@ == ring_after,
                self.ring_cap == old(self).ring_cap,
            decreases self.log@.len(),
        {
            let ghost pre_log = self.log@;
            let row = self.log.remove(0);
            proof {
                assert(self.log@ =~= pre_log.drop_first());
            }
            let keep = !crate::text::str_eq_chars(row.id.as_str(), tx.id.as_str());
            if keep {
                kept.push(row);
            }
            proof {
                processed.lemma_filter_push(pre_log[0], pred);
                processed = processed.push(pre_log[0]);
                assert(old_log =~= processed + self.log@);
                assert(kept@ =~= processed.filter(pred));
            }
        }
        proof {
            assert(old_log =~= processed);
            assert(kept@ == old_log.filter(pred));
        }
        let ghost keptv = kept@;

        let mut pos: usize = 0;
        proof {
            assert(keptv.skip(0) =~= keptv);
        }
        while pos < kept.len() && kept[pos].timing.start_time >= tx.timing.start_time
            invariant
                pos <= kept@.len(),
                kept@ == keptv,
                spec_insert_pos(keptv, tx.timing.start_time) == pos as int + spec_insert_pos(
                    keptv.skip(pos as int),
                    tx.timing.start_time,
                ),
                forall|j: int|
                    0 <= j < pos ==> #[trigger] keptv[j].timing.start_time
                        >= tx.timing.start_time,
            decreases kept@.len() - pos,
        {
            proof {
                assert(keptv.skip(pos as int)[0] == keptv[pos as int]);
                assert(keptv.skip(pos as int).drop_first() =~= keptv.skip(pos + 1));
            }
            pos += 1;
        }
        proof {
            if pos < kept@.len() {
                assert(keptv.skip(pos as int)[0] == keptv[pos as int]);
            }
            assert(spec_insert_pos(keptv, tx.timing.start_time) == pos as int);
        }
        kept.insert(pos, tx);
        self.log = kept;

        proof {
            lemma_filter_sorted(old_log, pred);
            lemma_filter_members(old_log, pred);
            lemma_filter_unique(old_log, pred);
            lemma_filter_starts(old_log, pred);
            assert forall|i2: int, j2: int|
                0 <= i2 < j2 < self.log@.len() implies #[trigger] self.log@[i2].timing.start_time
                >= #[trigger] self.log@[j2].timing.start_time by {
                lemma_insert_indexing(keptv, tx, pos as int, i2);
                lemma_insert_indexing(keptv, tx, pos as int, j2);
            }
            assert forall|i2: int, j2: int|
                0 <= i2 < j2 < self.log@.len() implies #[trigger] self.log@[i2].id@
                != #[trigger] self.log@[j2].id@ by {
                lemma_insert_indexing(keptv, tx, pos as int, i2);
                lemma_insert_indexing(keptv, tx, pos as int, j2);
                if i2 != pos && j2 != pos {
                } else {
                    let k = if i2 == pos {
                        j2 - 1
                    } else {
                        i2
                    };
                    if i2 == pos {
                        assert(keptv[j2 - 1].id@ != tx.id@) by {
                            old_log.lemma_filter_pred(pred, j2 - 1);
                        }
                    } else {
                        assert(keptv[i2].id@ != tx.id@) by {
                            old_log.lemma_filter_pred(pred, i2);
                        }
                    }
                }
            }
            assert forall|i2: int| 0 <= i2 < self.log@.len() implies
                #[trigger] self.log@[i2].timing.start_time >= 0 by {
                lemma_insert_indexing(keptv, tx, pos as int, i2);
            }
        }
    }

    /// Fetch by id: the most recent ring copy when present, else the log
    /// row. The result is a copy of the stored record.
    pub fn get_by_id(&self, id: &str) -> (r: Option<HttpTransaction>)
        ensures
            match spec_rfind_by_id(self.spec_ring(), id@) {
                Some(t) => r is Some && tx_equiv(r->0, t),
                None => (match spec_find_by_id(self.spec_log(), id@) {
                    Some(t) => r is Some && tx_equiv(r->0, t),
                    None => r is None,
                }),
            },
    {
        let mut i: usize = self.ring.len();
        proof {
            assert(self.ring@.take(self.ring@.len() as int) =~= self.ring@);
        }
        while i > 0
            invariant
                i <= self.ring@.len(),
                spec_rfind_by_id(self.ring@, id@) == spec_rfind_by_id(
                    self.ring@.take(i as int),
                    id@,
                ),
            decreases i,
        {
            proof {
                assert(self.ring@.take(i as int).last() == self.ring@[i - 1]);
                assert(self.ring@.take(i as int).drop_last() =~= self.ring@.take(i - 1));
            }
            if crate::text::str_eq_chars(self.ring[i - 1].id.as_str(), id) {
                return Some(clone_tx(&self.ring[i - 1]));
            }
            i -= 1;
        }
        let mut j: usize = 0;
        proof {
            assert(self.log@.skip(0) =~= self.log@);
        }
        while j < self.log.len()
            invariant
                j <= self.log@.len(),
                spec_rfind_by_id(self.ring@, id@) is None,
                spec_find_by_id(self.log@, id@) == spec_find_by_id(
                    self.log@.skip(j as int),
                    id@,
                ),
            decreases self.log@.len() - j,
        {
            proof {
                assert(self.log@.skip(j as int)[0] == self.log@[j as int]);
                assert(self.log@.skip(j as int).drop_first() =~= self.log@.skip(j + 1));
            }
            if crate::text::str_eq_chars(self.log[j].id.as_str(), id) {
                return Some(clone_tx(&self.log[j]));
            }
            j += 1;
        }
        None
    }

    /// The log rows that pass the filter, in log order (newest first),
    /// as copies.
    pub fn list(&self, filter: &TransactionFilter) -> (r: Vec<HttpTransaction>)
        ensures
            txs_equiv(
                r@,
                self.spec_log().filter(|t: HttpTransaction| spec_filter_matches(*filter, t)),
            ),
    {
        broadcast use vstd::seq_lib::group_filter_ensures;

        let ghost pred = |t: HttpTransaction| spec_filter_matches(*filter, t);
        let mut out: Vec<HttpTransaction> = Vec::new();
        let mut i: usize = 0;
        while i < self.log.len()
            invariant
                i <= self.log@.len(),
                pred == (|t: HttpTransaction| spec_filter_matches(*filter, t)),
                txs_equiv(out@, self.log@.subrange(0, i as int).filter(pred)),
            decreases self.log@.len() - i,
        {
            let ghost prefix = self.log@.subrange(0, i as int);
            let ghost pre_out = out@;
            if filter.matches(&self.log[i]) {
                out.push(clone_tx(&self.log[i]));
            }
            proof {
                assert(self.log@.subrange(0, i + 1) =~= prefix.push(self.log@[i as int]));
                prefix.lemma_filter_push(self.log@[i as int], pred);
                let f2 = self.log@.subrange(0, i + 1).filter(pred);
                if pred(self.log@[i as int]) {
                    assert(f2 =~= prefix.filter(pred).push(self.log@[i as int]));
                    assert forall|k: int| 0 <= k < out@.len() implies tx_equiv(
                        #[trigger] out@[k],
                        f2[k],
                    ) by {
                        if k < pre_out.len() {
                            assert(out@[k] == pre_out[k]);
                            assert(f2[k] == prefix.filter(pred)[k]);
                        }
                    }
                } else {
                    assert(f2 =~= prefix.filter(pred));
                }
            }
            i += 1;
        }
        proof {
            assert(self.log@.subrange(0, self.log@.len() as int) =~= self.log@);
        }
        out
    }

    /// One page of the filtered log: the total match count and the slice
    /// `[page * page_size, ..)` of at most `page_size` items (capped).
    pub fn query(&self, filter: &TransactionFilter, page: u32, page_size: u32) -> (r:
        PaginatedTransactions)
        ensures
            ({
                let matched = self.spec_log().filter(
                    |t: HttpTransaction| spec_filter_matches(*filter, t),
                );
                let eff = if page_size as int <= MAX_QUERY_PAGE_SIZE as int {
                    page_size as int
                } else {
                    MAX_QUERY_PAGE_SIZE as int
                };
                let lo = if page as int * eff <= matched.len() as int {
                    page as int * eff
                } else {
                    matched.len() as int
                };
                let hi = if lo + eff <= matched.len() as int {
                    lo + eff
                } else {
                    matched.len() as int
                };
                &&& r.total as int == matched.len()
                &&& r.page == page
                &&& r.page_size == page_size
                &&& txs_equiv(r.items@, matched.subrange(lo, hi))
            }),
    {
        let mut matched = self.list(filter);
        let total = matched.len();
        let eff: usize = if (page_size as usize) <= MAX_QUERY_PAGE_SIZE {
            page_size as usize
        } else {
            MAX_QUERY_PAGE_SIZE
        };
        let pe: u128 = page as u128;
        let ee: u128 = eff as u128;
        proof {
            assert(pe * ee <= 42949672950000u128) by (nonlinear_arith)
                requires
                    pe <= 4294967295u128,
                    ee <= 10000u128,
            ;
        }
        let lo: usize = if pe * ee <= (total as u128) {
            (pe * ee) as usize
        } else {
            total
        };
        let hi: usize = if total - lo >= eff {
            lo + eff
        } else {
            total
        };
        let ghost matchedv = matched@;
        let ghost target = self.spec_log().filter(
            |t: HttpTransaction| spec_filter_matches(*filter, t),
        );
        let mut items: Vec<HttpTransaction> = matched.split_off(lo);
        items.truncate(hi - lo);
        proof {
            assert(items@ =~= matchedv.subrange(lo as int, hi as int));
            assert forall|k: int| 0 <= k < items@.len() implies tx_equiv(
                #[trigger] items@[k],
                target.subrange(lo as int, hi as int)[k],
            ) by {
                assert(items@[k] == matchedv[lo + k]);
                assert(tx_equiv(matchedv[lo + k], target[lo + k]));
            }
        }
        PaginatedTransactions { total: total as u64, page, page_size, items }
    }


    /// One page of the filtered log restricted to a start-time range
    /// (inclusive both ends).
    pub fn query_with_time_range(
        &self,
        filter: &TransactionFilter,
        start_ms: i64,
        end_ms: i64,
        page: u32,
        page_size: u32,
    ) -> (r: PaginatedTransactions)
        ensures
            ({
                let matched = self.spec_log().filter(
                    |t: HttpTransaction|
                        spec_filter_matches(*filter, t) && start_ms <= t.timing.start_time
                            <= end_ms,
                );
                let eff = if page_size as int <= MAX_QUERY_PAGE_SIZE as int {
                    page_size as int
                } else {
                    MAX_QUERY_PAGE_SIZE as int
                };
                let lo = if page as int * eff <= matched.len() as int {
                    page as int * eff
                } else {
                    matched.len() as int
                };
                let hi = if lo + eff <= matched.len() as int {
                    lo + eff
                } else {
                    matched.len() as int
                };
                &&& r.total as int == matched.len()
                &&& r.page == page
                &&& r.page_size == page_size
                &&& txs_equiv(r.items@, matched.subrange(lo, hi))
            }),
    {
        broadcast use vstd::seq_lib::group_filter_ensures;

        let ghost pred = |t: HttpTransaction|
            spec_filter_matches(*filter, t) && start_ms <= t.timing.start_time <= end_ms;
        let mut matched: Vec<HttpTransaction> = Vec::new();
        let mut i: usize = 0;
        while i < self.log.len()
            invariant
                i <= self.log@.len(),
                pred == (|t: HttpTransaction|
                    spec_filter_matches(*filter, t) && start_ms <= t.timing.start_time
                        <= end_ms),
                txs_equiv(matched@, self.log@.subrange(0, i as int).filter(pred)),
            decreases self.log@.len() - i,
        {
            let ghost prefix = self.log@.subrange(0, i as int);
            let ghost pre_out = matched@;
            let row = &self.log[i];
            if filter.matches(row) && start_ms <= row.timing.start_time
                && row.timing.start_time <= end_ms {
                matched.push(clone_tx(row));
            }
            proof {
                assert(self.log@.subrange(0, i + 1) =~= prefix.push(self.log@[i as int]));
                prefix.lemma_filter_push(self.log@[i as int], pred);
                let f2 = self.log@.subrange(0, i + 1).filter(pred);
                if pred(self.log@[i as int]) {
                    assert(f2 =~= prefix.filter(pred).push(self.log@[i as int]));
                    assert forall|k: int| 0 <= k < matched@.len() implies tx_equiv(
                        #[trigger] matched@[k],
                        f2[k],
                    ) by {
                        if k < pre_out.len() {
                            assert(matched@[k] == pre_out[k]);
                            assert(f2[k] == prefix.filter(pred)[k]);
                        }
                    }
                } else {
                    assert(f2 =~= prefix.filter(pred));
                }
            }
            i += 1;
        }
        proof {
            assert(self.log@.subrange(0, self.log@.len() as int) =~= self.log@);
        }
        let total = matched.len();
        let eff: usize = if (page_size as usize) <= MAX_QUERY_PAGE_SIZE {
            page_size as usize
        } else {
            MAX_QUERY_PAGE_SIZE
        };
        let pe: u128 = page as u128;
        let ee: u128 = eff as u128;
        proof {
            assert(pe * ee <= 42949672950000u128) by (nonlinear_arith)
                requires
                    pe <= 4294967295u128,
                    ee <= 10000u128,
            ;
        }
        let lo: usize = if pe * ee <= (total as u128) {
            (pe * ee) as usize
        } else {
            total
        };
        let hi: usize = if total - lo >= eff {
            lo + eff
        } else {
            total
        };
        let ghost matchedv = matched@;
        let ghost target = self.spec_log().filter(pred);
        let mut items: Vec<HttpTransaction> = matched.split_off(lo);
        items.truncate(hi - lo);
        proof {
            assert(items@ =~= matchedv.subrange(lo as int, hi as int));
            assert forall|k: int| 0 <= k < items@.len() implies tx_equiv(
                #[trigger] items@[k],
                target.subrange(lo as int, hi as int)[k],
            ) by {
                assert(items@[k] == matchedv[lo + k]);
                assert(tx_equiv(matchedv[lo + k], target[lo + k]));
            }
        }
        PaginatedTransactions { total: total as u64, page, page_size, items }
    }

    /// The most recent rows, up to `limit`, newest first.
    pub fn list_recent(&self, limit: u32) -> (r: Vec<HttpTransaction>)
        ensures
            ({
                let n = if limit as int <= self.spec_log().len() as int {
                    limit as int
                } else {
                    self.spec_log().len() as int
                };
                txs_equiv(r@, self.spec_log().take(n))
            }),
    {
        let n: usize = if (limit as usize) <= self.log.len() {
            limit as usize
        } else {
            self.log.len()
        };
        let mut out: Vec<HttpTransaction> = Vec::new();
        let mut i: usize = 0;
        while i < n
            invariant
                i <= n <= self.log@.len(),
                txs_equiv(out@, self.log@.take(i as int)),
            decreases n - i,
        {
            let ghost pre = out@;
            out.push(clone_tx(&self.log[i]));
            proof {
                assert forall|k: int| 0 <= k < out@.len() implies tx_equiv(
                    #[trigger] out@[k],
                    self.log@.take(i + 1)[k],
                ) by {
                    if k < pre.len() {
                        assert(out@[k] == pre[k]);
                        assert(self.log@.take(i + 1)[k] == self.log@.take(i as int)[k]);
                    }
                }
            }
            i += 1;
        }
        out
    }

    /// The rows strictly older than the threshold (all rows when it is
    /// absent), up to `limit`, newest first.
    pub fn list_page(&self, before_started_at_ms: Option<i64>, limit: u32) -> (r: Vec<
        HttpTransaction,
    >)
        ensures
            ({
                let older = self.spec_log().filter(
                    |t: HttpTransaction|
                        match before_started_at_ms {
                            Some(b) => t.timing.start_time < b,
                            None => true,
                        },
                );
                let n = if limit as int <= older.len() as int {
                    limit as int
                } else {
                    older.len() as int
                };
                txs_equiv(r@, older.take(n))
            }),
    {
        broadcast use vstd::seq_lib::group_filter_ensures;

        let ghost pred = |t: HttpTransaction|
            match before_started_at_ms {
                Some(b) => t.timing.start_time < b,
                None => true,
            };
        let mut older: Vec<HttpTransaction> = Vec::new();
        let mut i: usize = 0;
        while i < self.log.len()
            invariant
                i <= self.log@.len(),
                pred == (|t: HttpTransaction|
                    match before_started_at_ms {
                        Some(b) => t.timing.start_time < b,
                        None => true,
                    }),
                txs_equiv(older@, self.log@.subrange(0, i as int).filter(pred)),
            decreases self.log@.len() - i,
        {
            let ghost prefix = self.log@.subrange(0, i as int);
            let ghost pre_out = older@;
            let keep = match before_started_at_ms {
                Some(b) => self.log[i].timing.start_time < b,
                None => true,
            };
            if keep {
                older.push(clone_tx(&self.log[i]));
            }
            proof {
                assert(self.log@.subrange(0, i + 1) =~= prefix.push(self.log@[i as int]));
                prefix.lemma_filter_push(self.log@[i as int], pred);
                let f2 = self.log@.subrange(0, i + 1).filter(pred);
                if pred(self.log@[i as int]) {
                    assert(f2 =~= prefix.filter(pred).push(self.log@[i as int]));
                    assert forall|k: int| 0 <= k < older@.len() implies tx_equiv(
                        #[trigger] older@[k],
                        f2[k],
                    ) by {
                        if k < pre_out.len() {
                            assert(older@[k] == pre_out[k]);
                            assert(f2[k] == prefix.filter(pred)[k]);
                        }
                    }
                } else {
                    assert(f2 =~= prefix.filter(pred));
                }
            }
            i += 1;
        }
        proof {
            assert(self.log@.subrange(0, self.log@.len() as int) =~= self.log@);
        }
        let ghost olderv = older@;
        let ghost target = self.spec_log().filter(pred);
        let n: usize = if (limit as usize) <= older.len() {
            limit as usize
        } else {
            older.len()
        };
        older.truncate(n);
        proof {
            assert(older@ =~= olderv.take(n as int));
            assert forall|k: int| 0 <= k < older@.len() implies tx_equiv(
                #[trigger] older@[k],
                target.take(n as int)[k],
            ) by {
                assert(older@[k] == olderv[k]);
                assert(tx_equiv(olderv[k], target[k]));
            }
        }
        older
    }

    /// Drop every row and ring entry; the count removed is returned.
    pub fn clear_all(&mut self) -> (r: usize)
        requires
            old(self).wf(),
        ensures
            final(self).spec_ring().len() == 0,
            final(self).spec_log().len() == 0,
            final(self).spec_ring_cap() == old(self).spec_ring_cap(),
            final(self).wf(),
            r == old(self).spec_log().len(),
    {
        let n = self.log.len();
        self.ring = Vec::new();
        self.log = Vec::new();
        n
    }

    /// Delete the rows strictly older than the cutoff; the count deleted
    /// is returned.
    pub fn prune_older_than(&mut self, cutoff_ms: i64) -> (r: usize)
        requires
            old(self).wf(),
        ensures
            final(self).wf(),
            final(self).spec_ring() == old(self).spec_ring(),
            final(self).spec_ring_cap() == old(self).spec_ring_cap(),
            final(self).spec_log() == old(self).spec_log().filter(
                |t: HttpTransaction| t.timing.start_time >= cutoff_ms,
            ),
            r as int == old(self).spec_log().len() - final(self).spec_log().len(),
    {
        broadcast use vstd::seq_lib::group_filter_ensures;

        let ghost pred = |t: HttpTransaction| t.timing.start_time >= cutoff_ms;
        let before = self.log.len();
        let ghost old_log = self.log@;
        let mut kept: Vec<HttpTransaction> = Vec::new();
        let ghost mut processed: Seq<HttpTransaction> = Seq::empty();
        proof {
            assert(old_log =~= processed + self.log@);
            assert(kept@ =~= processed.filter(pred));
        }
        while self.log.len() > 0
            invariant
                old_log == processed + self.log@,
                kept@ == processed.filter(pred),
                pred == (|t: HttpTransaction| t.timing.start_time >= cutoff_ms),
                self.ring@ == old(self).ring@,
                self.ring_cap == old(self).ring_cap,
            decreases self.log@.len(),
        {
            let ghost pre_log = self.log@;
            let row = self.log.remove(0);
            proof {
                assert(self.log@ =~= pre_log.drop_first());
            }
            if row.timing.start_time >= cutoff_ms {
                kept.push(row);
            }
            proof {
                processed.lemma_filter_push(pre_log[0], pred);
                processed = processed.push(pre_log[0]);
                assert(old_log =~= processed + self.log@);
                assert(kept@ =~= processed.filter(pred));
            }
        }
        proof {
            assert(old_log =~= processed);
            lemma_filter_sorted(old_log, pred);
            lemma_filter_members(old_log, pred);
            lemma_filter_unique(old_log, pred);
            lemma_filter_starts(old_log, pred);
        }
        self.log = kept;
        before - self.log.len()
    }
}

/// Create the two-layer store; the ring holds the given number of most
/// recent transactions.
pub fn init_transaction_store(ring_cap: usize) -> (r: TransactionStore)
    requires
        ring_cap >= 1,
    ensures
        r.wf(),
        r.spec_ring().len() == 0,
        r.spec_log().len() == 0,
        r.spec_ring_cap() == ring_cap,
{
    TransactionStore::new(ring_cap)
}

/// Empty the store so a test can start fresh.
pub fn reset_store_for_tests(store: &mut TransactionStore)
    requires
        old(store).wf(),
    ensures
        final(store).wf(),
        final(store).spec_ring().len() == 0,
        final(store).spec_log().len() == 0,
{
    store.clear_all();
}


/// The duration a slowness query orders by: the recorded total, or zero.
pub open spec fn spec_duration(t: HttpTransaction) -> int {
    match t.timing.total_ms {
        Some(d) => d as int,
        None => 0,
    }
}

/// A row qualifies for the slowness query: it passes the filter, has a
/// positive recorded duration, and meets the threshold when one is set.
pub open spec fn spec_slow_pred(
    f: TransactionFilter,
    threshold_ms: Option<u64>,
    t: HttpTransaction,
) -> bool {
    &&& spec_filter_matches(f, t)
    &&& t.timing.total_ms is Some
    &&& spec_duration(t) > 0
    &&& match threshold_ms {
        Some(th) => spec_duration(t) >= th as int,
        None => true,
    }
}

/// Rows ordered by recorded duration, slowest first.
pub open spec fn sorted_by_duration_desc(rows: Seq<HttpTransaction>) -> bool {
    forall|i: int, j: int|
        0 <= i < j < rows.len() ==> spec_duration(#[trigger] rows[i]) >= spec_duration(
            #[trigger] rows[j],
        )
}

impl TransactionStore {
    /// The slowest matching rows: every row passing the filter with a
    /// positive duration (at least the threshold, when given), ordered
    /// slowest first and cut to `limit`. The result is a prefix of a
    /// duration-ordered permutation of copies of those rows.
    pub fn slowest_by_duration(
        &self,
        filter: &TransactionFilter,
        threshold_ms: Option<u64>,
        limit: u32,
    ) -> (r: Vec<HttpTransaction>)
        ensures
            exists|c: Seq<HttpTransaction>, full: Seq<HttpTransaction>|
                #![trigger c.to_multiset(), full.to_multiset()]
                {
                    &&& txs_equiv(
                        c,
                        self.spec_log().filter(
                            |t: HttpTransaction| spec_slow_pred(*filter, threshold_ms, t),
                        ),
                    )
                    &&& full.to_multiset() == c.to_multiset()
                    &&& sorted_by_duration_desc(full)
                    &&& r@ == full.take(
                        if limit as int <= full.len() as int {
                            limit as int
                        } else {
                            full.len() as int
                        },
                    )
                },
    {
        broadcast use vstd::seq_lib::group_filter_ensures;
        broadcast use vstd::seq_lib::group_to_multiset_ensures;
        broadcast use vstd::multiset::group_multiset_axioms;

        let ghost pred = |t: HttpTransaction| spec_slow_pred(*filter, threshold_ms, t);
        let mut collected: Vec<HttpTransaction> = Vec::new();
        let mut i: usize = 0;
        while i < self.log.len()
            invariant
                i <= self.log@.len(),
                pred == (|t: HttpTransaction| spec_slow_pred(*filter, threshold_ms, t)),
                txs_equiv(collected@, self.log@.subrange(0, i as int).filter(pred)),
            decreases self.log@.len() - i,
        {
            let ghost prefix = self.log@.subrange(0, i as int);
            let ghost pre_out = collected@;
            let row = &self.log[i];
            let dur_ok = match row.timing.total_ms {
                Some(d) => d > 0,
                None => false,
            };
            let th_ok = match (threshold_ms, row.timing.total_ms) {
                (Some(th), Some(d)) => (d as u64) >= th,
                (None, _) => true,
                _ => false,
            };
            if filter.matches(row) && dur_ok && th_ok {
                collected.push(clone_tx(row));
            }
            proof {
                assert(self.log@.subrange(0, i + 1) =~= prefix.push(self.log@[i as int]));
                prefix.lemma_filter_push(self.log@[i as int], pred);
                let f2 = self.log@.subrange(0, i + 1).filter(pred);
                if pred(self.log@[i as int]) {
                    assert(f2 =~= prefix.filter(pred).push(self.log@[i as int]));
                    assert forall|k: int| 0 <= k < collected@.len() implies tx_equiv(
                        #[trigger] collected@[k],
                        f2[k],
                    ) by {
                        if k < pre_out.len() {
                            assert(collected@[k] == pre_out[k]);
                            assert(f2[k] == prefix.filter(pred)[k]);
                        }
                    }
                } else {
                    assert(f2 =~= prefix.filter(pred));
                }
            }
            i += 1;
        }
        proof {
            assert(self.log@.subrange(0, self.log@.len() as int) =~= self.log@);
        }
        let ghost cv = collected@;

        // extract the slowest remaining row until none are left
        let mut src = collected;
        let mut out: Vec<HttpTransaction> = Vec::new();
        proof {
            lemma_to_multiset_empty();
            assert(out@ =~= Seq::<HttpTransaction>::empty());
            assert(out@.to_multiset().add(src@.to_multiset()) =~= cv.to_multiset());
        }
        while src.len() > 0
            invariant
                out@.to_multiset().add(src@.to_multiset()) == cv.to_multiset(),
                sorted_by_duration_desc(out@),
                forall|a: int, b: int|
                    0 <= a < out@.len() && 0 <= b < src@.len() ==> spec_duration(
                        #[trigger] out@[a],
                    ) >= spec_duration(#[trigger] src@[b]),
            decreases src@.len(),
        {
            let mut jmax: usize = 0;
            let mut k: usize = 1;
            while k < src.len()
                invariant
                    jmax < k <= src@.len(),
                    src@.len() > 0,
                    forall|m: int|
                        0 <= m < k ==> spec_duration(src@[jmax as int]) >= spec_duration(
                            #[trigger] src@[m],
                        ),
                decreases src@.len() - k,
            {
                let cur = match src[k].timing.total_ms {
                    Some(d) => d,
                    None => 0,
                };
                let best = match src[jmax].timing.total_ms {
                    Some(d) => d,
                    None => 0,
                };
                if cur > best {
                    jmax = k;
                }
                k += 1;
            }
            let ghost pre_src = src@;
            let ghost pre_out = out@;
            let row = src.remove(jmax);
            out.push(row);
            proof {
                vstd::seq_lib::to_multiset_remove::<HttpTransaction>(pre_src, jmax as int);
                vstd::seq_lib::to_multiset_build::<HttpTransaction>(
                    pre_out,
                    pre_src[jmax as int],
                );
                assert(src@.to_multiset() =~= pre_src.to_multiset().remove(
                    pre_src[jmax as int],
                ));
                assert(out@.to_multiset() =~= pre_out.to_multiset().insert(
                    pre_src[jmax as int],
                ));
                assert(pre_src.contains(pre_src[jmax as int]));
                vstd::seq_lib::to_multiset_contains::<HttpTransaction>(
                    pre_src,
                    pre_src[jmax as int],
                );
                assert(out@.to_multiset().add(src@.to_multiset()) =~= cv.to_multiset());
                assert forall|a: int, b: int|
                    0 <= a < out@.len() && 0 <= b < src@.len() implies spec_duration(
                    #[trigger] out@[a],
                ) >= spec_duration(#[trigger] src@[b]) by {
                    if b < jmax {
                        assert(src@[b] == pre_src[b]);
                    } else {
                        assert(src@[b] == pre_src[b + 1]);
                    }
                    if a < pre_out.len() {
                        assert(out@[a] == pre_out[a]);
                    } else {
                        assert(out@[a] == pre_src[jmax as int]);
                    }
                }
                assert forall|a: int, b: int| 0 <= a < b < out@.len() implies spec_duration(
                    #[trigger] out@[a],
                ) >= spec_duration(#[trigger] out@[b]) by {
                    if b < pre_out.len() {
                        assert(out@[a] == pre_out[a] && out@[b] == pre_out[b]);
                    } else {
                        assert(out@[b] == pre_src[jmax as int]);
                        assert(out@[a] == pre_out[a]);
                    }
                }
            }
        }
        let ghost full = out@;
        proof {
            lemma_to_multiset_empty();
            assert(src@ =~= Seq::<HttpTransaction>::empty());
            assert(full.to_multiset() =~= cv.to_multiset());
        }
        let n: usize = if (limit as usize) <= out.len() {
            limit as usize
        } else {
            out.len()
        };
        out.truncate(n);
        proof {
            assert(out@ =~= full.take(n as int));
            assert(txs_equiv(
                cv,
                self.spec_log().filter(
                    |t: HttpTransaction| spec_slow_pred(*filter, threshold_ms, t),
                ),
            ));
        }
        out
    }
}


/// Number of log rows with this host.
pub open spec fn spec_host_count(rows: Seq<HttpTransaction>, h: Seq<char>) -> int
    decreases rows.len(),
{
    if rows.len() == 0 {
        0
    } else {
        spec_host_count(rows.drop_last(), h) + (if rows.last().host@ == h {
            1int
        } else {
            0int
        })
    }
}

/// A host tally is between zero and the number of rows.
pub proof fn lemma_host_count_bounds(rows: Seq<HttpTransaction>, h: Seq<char>)
    ensures
        0 <= spec_host_count(rows, h) <= rows.len(),
    decreases rows.len(),
{
    if rows.len() > 0 {
        lemma_host_count_bounds(rows.drop_last(), h);
    }
}

/// Some pair in the list bears this host.
pub open spec fn spec_has_host(es: Seq<(String, u64)>, h: Seq<char>) -> bool {
    exists|k: int| 0 <= k < es.len() && #[trigger] es[k].0@ == h
}

impl TransactionStore {
    /// The distinct hosts of the log with their row counts, ordered by
    /// count descending and cut to `limit`. The result is a prefix of a
    /// count-ordered list that carries every distinct host exactly once,
    /// each with its exact row count.
    pub fn list_unique_hosts(&self, limit: u32) -> (r: Vec<(String, u64)>)
        ensures
            exists|full: Seq<(String, u64)>|
                #![trigger full.to_multiset()]
                {
                    &&& (forall|k: int|
                        0 <= k < full.len() ==> (#[trigger] full[k]).1 as int == spec_host_count(
                            self.spec_log(),
                            full[k].0@,
                        ))
                    &&& (forall|k1: int, k2: int|
                        0 <= k1 < k2 < full.len() ==> (#[trigger] full[k1]).0@
                            != (#[trigger] full[k2]).0@)
                    &&& (forall|i: int|
                        0 <= i < self.spec_log().len() ==> spec_has_host(
                            full,
                            (#[trigger] self.spec_log()[i]).host@,
                        ))
                    &&& (forall|k1: int, k2: int|
                        0 <= k1 < k2 < full.len() ==> (#[trigger] full[k1]).1
                            >= (#[trigger] full[k2]).1)
                    &&& r@ == full.take(
                        if limit as int <= full.len() as int {
                            limit as int
                        } else {
                            full.len() as int
                        },
                    )
                },
    {
        broadcast use vstd::seq_lib::group_filter_ensures;

        let mut acc: Vec<(String, u64)> = Vec::new();
        let mut i: usize = 0;
        while i < self.log.len()
            invariant
                i <= self.log@.len(),
                forall|k1: int, k2: int|
                    0 <= k1 < k2 < acc@.len() ==> (#[trigger] acc@[k1]).0@
                        != (#[trigger] acc@[k2]).0@,
                forall|k: int|
                    0 <= k < acc@.len() ==> (#[trigger] acc@[k]).1 as int == spec_host_count(
                        self.log@.subrange(0, i as int),
                        acc@[k].0@,
                    ),
                forall|j: int|
                    0 <= j < i ==> spec_has_host(acc@, (#[trigger] self.log@[j]).host@),
            decreases self.log@.len() - i,
        {
            let ghost prefix = self.log@.subrange(0, i as int);
            let ghost pre_acc = acc@;
            let mut found: Option<usize> = None;
            let mut k: usize = 0;
            while found.is_none() && k < acc.len()
                invariant
                    i < self.log@.len(),
                    k <= acc@.len(),
                    acc@ == pre_acc,
                    match found {
                        Some(f) => f < acc@.len() && acc@[f as int].0@ == self.log@[
                            i as int
                        ].host@,
                        None => forall|m: int|
                            0 <= m < k ==> (#[trigger] acc@[m]).0@ != self.log@[i as int].host@,
                    },
                decreases acc@.len() - k + (if found is None {
                    1int
                } else {
                    0int
                }),
            {
                if crate::text::str_eq_chars(acc[k].0.as_str(), self.log[i].host.as_str()) {
                    found = Some(k);
                } else {
                    k += 1;
                }
            }
            let ghost h = self.log@[i as int].host@;
            proof {
                assert(self.log@.subrange(0, i + 1) =~= prefix.push(self.log@[i as int]));
                assert forall|k2: int| 0 <= k2 < acc@.len() implies spec_host_count(
                    self.log@.subrange(0, i + 1),
                    (#[trigger] acc@[k2]).0@,
                ) == spec_host_count(prefix, acc@[k2].0@) + (if acc@[k2].0@ == h {
                    1int
                } else {
                    0int
                }) by {
                    assert(self.log@.subrange(0, i + 1).drop_last() =~= prefix);
                }
                assert(spec_host_count(self.log@.subrange(0, i + 1), h) == spec_host_count(
                    prefix,
                    h,
                ) + 1) by {
                    assert(self.log@.subrange(0, i + 1).drop_last() =~= prefix);
                }
            }
            match found {
                Some(f) => {
                    let c = acc[f].1;
                    proof {
                        assert(c as int == spec_host_count(prefix, h));
                        lemma_host_count_bounds(prefix, h);
                        assert(c as int <= prefix.len());
                    }
                    acc[f] = (self.log[i].host.clone(), c + 1);
                    proof {
                        assert forall|j: int| 0 <= j < i + 1 implies spec_has_host(
                            acc@,
                            (#[trigger] self.log@[j]).host@,
                        ) by {
                            if j < i {
                                let w = choose|w: int|
                                    0 <= w < pre_acc.len() && #[trigger] pre_acc[w].0@
                                        == self.log@[j].host@;
                                assert(acc@[w].0@ == pre_acc[w].0@);
                            } else {
                                assert(acc@[f as int].0@ == h);
                            }
                        }
                    }
                },
                None => {
                    acc.push((self.log[i].host.clone(), 1));
                    proof {
                        assert(acc@.drop_last() =~= pre_acc);
                        assert forall|j: int| 0 <= j < i + 1 implies spec_has_host(
                            acc@,
                            (#[trigger] self.log@[j]).host@,
                        ) by {
                            if j < i {
                                let w = choose|w: int|
                                    0 <= w < pre_acc.len() && #[trigger] pre_acc[w].0@
                                        == self.log@[j].host@;
                                assert(acc@[w].0@ == pre_acc[w].0@);
                            } else {
                                assert(acc@[acc@.len() - 1].0@ == h);
                            }
                        }
                        assert forall|k2: int|
                            0 <= k2 < acc@.len() implies (#[trigger] acc@[k2]).1 as int
                            == spec_host_count(self.log@.subrange(0, i + 1), acc@[k2].0@) by {
                            if k2 < pre_acc.len() {
                                assert(acc@[k2] == pre_acc[k2]);
                            } else {
                                assert(acc@[k2].0@ == h && acc@[k2].1 == 1);
                                assert(spec_host_count(prefix, h) == 0) by {
                                    lemma_no_host_zero_count(prefix, pre_acc, h);
                                }
                            }
                        }
                    }
                },
            }
            i += 1;
        }
        proof {
            assert(self.log@.subrange(0, self.log@.len() as int) =~= self.log@);
        }
        let ghost cv = acc@;

        // extract the largest remaining count until none are left
        let mut src = acc;
        let mut out: Vec<(String, u64)> = Vec::new();
        proof {
            lemma_to_multiset_empty_pairs();
            assert(out@ =~= Seq::<(String, u64)>::empty());
            assert(out@.to_multiset().add(src@.to_multiset()) =~= cv.to_multiset());
        }
        while src.len() > 0
            invariant
                out@.to_multiset().add(src@.to_multiset()) == cv.to_multiset(),
                forall|a: int, b: int|
                    0 <= a < b < out@.len() ==> (#[trigger] out@[a]).1 >= (#[trigger] out@[b]).1,
                forall|a: int, b: int|
                    0 <= a < out@.len() && 0 <= b < src@.len() ==> (#[trigger] out@[a]).1
                        >= (#[trigger] src@[b]).1,
            decreases src@.len(),
        {
            let mut jmax: usize = 0;
            let mut k: usize = 1;
            while k < src.len()
                invariant
                    jmax < k <= src@.len(),
                    src@.len() > 0,
                    forall|m: int|
                        0 <= m < k ==> src@[jmax as int].1 >= (#[trigger] src@[m]).1,
                decreases src@.len() - k,
            {
                if src[k].1 > src[jmax].1 {
                    jmax = k;
                }
                k += 1;
            }
            let ghost pre_src = src@;
            let ghost pre_out = out@;
            let row = src.remove(jmax);
            out.push(row);
            proof {
                vstd::seq_lib::to_multiset_remove::<(String, u64)>(pre_src, jmax as int);
                vstd::seq_lib::to_multiset_build::<(String, u64)>(
                    pre_out,
                    pre_src[jmax as int],
                );
                assert(pre_src.contains(pre_src[jmax as int]));
                vstd::seq_lib::to_multiset_contains::<(String, u64)>(
                    pre_src,
                    pre_src[jmax as int],
                );
                broadcast use vstd::multiset::group_multiset_axioms;

                assert(out@.to_multiset().add(src@.to_multiset()) =~= cv.to_multiset());
                assert forall|a: int, b: int|
                    0 <= a < out@.len() && 0 <= b < src@.len() implies (#[trigger] out@[a]).1
                    >= (#[trigger] src@[b]).1 by {
                    if b < jmax {
                        assert(src@[b] == pre_src[b]);
                    } else {
                        assert(src@[b] == pre_src[b + 1]);
                    }
                    if a < pre_out.len() {
                        assert(out@[a] == pre_out[a]);
                    } else {
                        assert(out@[a] == pre_src[jmax as int]);
                    }
                }
                assert forall|a: int, b: int| 0 <= a < b < out@.len() implies (
                #[trigger] out@[a]).1 >= (#[trigger] out@[b]).1 by {
                    if b < pre_out.len() {
                        assert(out@[a] == pre_out[a] && out@[b] == pre_out[b]);
                    } else {
                        assert(out@[b] == pre_src[jmax as int]);
                        assert(out@[a] == pre_out[a]);
                    }
                }
            }
        }
        let ghost full = out@;
        proof {
            lemma_to_multiset_empty_pairs();
            assert(src@ =~= Seq::<(String, u64)>::empty());
            assert(full.to_multiset() =~= cv.to_multiset());
            lemma_pairs_properties_carry(cv, full, self.log@);
        }
        let n: usize = if (limit as usize) <= out.len() {
            limit as usize
        } else {
            out.len()
        };
        out.truncate(n);
        proof {
            assert(out@ =~= full.take(n as int));
        }
        out
    }
}

/// A host not present in the tally has count zero in the rows tallied.
proof fn lemma_no_host_zero_count(
    rows: Seq<HttpTransaction>,
    acc: Seq<(String, u64)>,
    h: Seq<char>,
)
    requires
        forall|j: int| 0 <= j < rows.len() ==> spec_has_host(acc, (#[trigger] rows[j]).host@),
        !spec_has_host(acc, h),
    ensures
        spec_host_count(rows, h) == 0,
    decreases rows.len(),
{
    if rows.len() > 0 {
        let rest = rows.drop_last();
        assert forall|j: int| 0 <= j < rest.len() implies spec_has_host(
            acc,
            (#[trigger] rest[j]).host@,
        ) by {
            assert(rest[j] == rows[j]);
        }
        lemma_no_host_zero_count(rest, acc, h);
        assert(rows.last() == rows[rows.len() - 1]);
        assert(rows.last().host@ != h);
    }
}

/// The empty pair sequence holds the empty multiset.
proof fn lemma_to_multiset_empty_pairs()
    ensures
        Seq::<(String, u64)>::empty().to_multiset() =~= Multiset::<(String, u64)>::empty(),
{
    broadcast use vstd::seq_lib::group_to_multiset_ensures;

    let s = Seq::<(String, u64)>::empty();
    assert forall|a: (String, u64)| s.to_multiset().count(a) == 0 by {
        assert(!s.contains(a));
    }
}

/// A permutation of the tally keeps its counts, distinctness and
/// coverage.
proof fn lemma_pairs_properties_carry(
    cv: Seq<(String, u64)>,
    full: Seq<(String, u64)>,
    rows: Seq<HttpTransaction>,
)
    requires
        full.to_multiset() == cv.to_multiset(),
        forall|k1: int, k2: int|
            0 <= k1 < k2 < cv.len() ==> (#[trigger] cv[k1]).0@ != (#[trigger] cv[k2]).0@,
        forall|k: int|
            0 <= k < cv.len() ==> (#[trigger] cv[k]).1 as int == spec_host_count(
                rows,
                cv[k].0@,
            ),
        forall|j: int| 0 <= j < rows.len() ==> spec_has_host(cv, (#[trigger] rows[j]).host@),
    ensures
        forall|k: int|
            0 <= k < full.len() ==> (#[trigger] full[k]).1 as int == spec_host_count(
                rows,
                full[k].0@,
            ),
        forall|k1: int, k2: int|
            0 <= k1 < k2 < full.len() ==> (#[trigger] full[k1]).0@ != (#[trigger] full[k2]).0@,
        forall|j: int| 0 <= j < rows.len() ==> spec_has_host(full, (#[trigger] rows[j]).host@),
{
    broadcast use vstd::seq_lib::group_to_multiset_ensures;
    broadcast use vstd::multiset::group_multiset_axioms;

    assert forall|k: int| 0 <= k < full.len() implies (#[trigger] full[k]).1 as int
        == spec_host_count(rows, full[k].0@) by {
        assert(full.contains(full[k]));
        assert(full.to_multiset().count(full[k]) > 0);
        assert(cv.to_multiset().count(full[k]) > 0);
        assert(cv.contains(full[k]));
        let w = choose|w: int| 0 <= w < cv.len() && cv[w] == full[k];
        assert(cv[w].1 as int == spec_host_count(rows, cv[w].0@));
    }
    assert forall|k1: int, k2: int|
        0 <= k1 < k2 < full.len() implies (#[trigger] full[k1]).0@ != (
    #[trigger] full[k2]).0@ by {
        assert(full.contains(full[k1]));
        assert(full.to_multiset().count(full[k1]) > 0);
        assert(cv.to_multiset().count(full[k1]) > 0);
        assert(cv.contains(full[k1]));
        assert(full.contains(full[k2]));
        assert(full.to_multiset().count(full[k2]) > 0);
        assert(cv.to_multiset().count(full[k2]) > 0);
        assert(cv.contains(full[k2]));
        let w1 = choose|w: int| 0 <= w < cv.len() && cv[w] == full[k1];
        let w2 = choose|w: int| 0 <= w < cv.len() && cv[w] == full[k2];
        if full[k1] == full[k2] {
            // the same pair twice would need multiplicity two in the tally
            lemma_dup_needs_multiplicity(full, k1, k2);
            assert(cv.to_multiset().count(full[k1]) >= 2);
            lemma_distinct_multiplicity_one(cv, full[k1]);
        } else {
            if w1 == w2 {
            } else {
                if cv[w1].0@ == cv[w2].0@ {
                    if w1 < w2 {
                    } else {
                    }
                }
            }
        }
    }
    assert forall|j: int| 0 <= j < rows.len() implies spec_has_host(
        full,
        (#[trigger] rows[j]).host@,
    ) by {
        let w = choose|w: int| 0 <= w < cv.len() && #[trigger] cv[w].0@ == rows[j].host@;
        assert(cv.contains(cv[w]));
        assert(cv.to_multiset().count(cv[w]) > 0);
        assert(full.to_multiset().count(cv[w]) > 0);
        assert(full.contains(cv[w]));
        let v = choose|v: int| 0 <= v < full.len() && full[v] == cv[w];
        assert(full[v].0@ == rows[j].host@);
    }
}

/// A value at two positions has multiplicity at least two.
proof fn lemma_dup_needs_multiplicity(s: Seq<(String, u64)>, k1: int, k2: int)
    requires
        0 <= k1 < k2 < s.len(),
        s[k1] == s[k2],
    ensures
        s.to_multiset().count(s[k1]) >= 2,
{
    broadcast use vstd::seq_lib::group_to_multiset_ensures;
    broadcast use vstd::multiset::group_multiset_axioms;

    let removed = s.remove(k2);
    vstd::seq_lib::to_multiset_remove::<(String, u64)>(s, k2);
    assert(removed[k1] == s[k1]);
    assert(removed.contains(s[k1]));
    vstd::seq_lib::to_multiset_contains::<(String, u64)>(removed, s[k1]);
    assert(removed.to_multiset().count(s[k1]) > 0);
}

/// In a host-distinct tally every pair value appears at most once.
proof fn lemma_distinct_multiplicity_one(s: Seq<(String, u64)>, v: (String, u64))
    requires
        forall|k1: int, k2: int|
            0 <= k1 < k2 < s.len() ==> (#[trigger] s[k1]).0@ != (#[trigger] s[k2]).0@,
    ensures
        s.to_multiset().count(v) <= 1,
{
    broadcast use vstd::seq_lib::group_to_multiset_ensures;
    broadcast use vstd::multiset::group_multiset_axioms;

    if s.to_multiset().count(v) >= 2 {
        vstd::seq_lib::to_multiset_contains::<(String, u64)>(s, v);
        assert(s.contains(v));
        let k1 = choose|k: int| 0 <= k < s.len() && s[k] == v;
        let removed = s.remove(k1);
        vstd::seq_lib::to_multiset_remove::<(String, u64)>(s, k1);
        assert(removed.to_multiset().count(v) >= 1);
        vstd::seq_lib::to_multiset_contains::<(String, u64)>(removed, v);
        assert(removed.contains(v));
        let k2 = choose|k: int| 0 <= k < removed.len() && removed[k] == v;
        if k2 < k1 {
            assert(s[k2] == removed[k2]);
            assert(s[k2].0@ == s[k1].0@);
        } else {
            assert(s[k2 + 1] == removed[k2]);
            assert(s[k2 + 1].0@ == s[k1].0@);
        }
    }
}

/// The empty sequence holds the empty multiset.
proof fn lemma_to_multiset_empty()
    ensures
        Seq::<HttpTransaction>::empty().to_multiset() =~= Multiset::<HttpTransaction>::empty(),
{
    broadcast use vstd::seq_lib::group_to_multiset_ensures;

    let s = Seq::<HttpTransaction>::empty();
    assert forall|a: HttpTransaction| s.to_multiset().count(a) == 0 by {
        assert(!s.contains(a));
    }
}

/// Every element of a filtered sequence is an element of the original.
proof fn lemma_filter_members<A>(s: Seq<A>, pred: spec_fn(A) -> bool)
    ensures
        forall|i: int|
            0 <= i < s.filter(pred).len() ==> s.contains(#[trigger] s.filter(pred)[i]),
    decreases s.len(),
{
    broadcast use vstd::seq_lib::group_filter_ensures;

    if s.len() > 0 {
        let s0 = s.drop_last();
        lemma_filter_members(s0, pred);
        assert(s =~= s0.push(s.last()));
        s0.lemma_filter_push(s.last(), pred);
        assert forall|i: int| 0 <= i < s.filter(pred).len() implies s.contains(
            #[trigger] s.filter(pred)[i],
        ) by {
            if i < s0.filter(pred).len() {
                assert(s.filter(pred)[i] == s0.filter(pred)[i]);
                let w = choose|w: int| 0 <= w < s0.len() && s0[w] == s0.filter(pred)[i];
                assert(s[w] == s0[w]);
            } else {
                assert(s.filter(pred)[i] == s.last());
                assert(s[s.len() - 1] == s.last());
            }
        }
    }
}

/// Filtering keeps a descending order.
proof fn lemma_filter_sorted(s: Seq<HttpTransaction>, pred: spec_fn(HttpTransaction) -> bool)
    requires
        sorted_by_start_desc(s),
    ensures
        sorted_by_start_desc(s.filter(pred)),
    decreases s.len(),
{
    broadcast use vstd::seq_lib::group_filter_ensures;

    if s.len() > 0 {
        let s0 = s.drop_last();
        assert(sorted_by_start_desc(s0)) by {
            assert(forall|i: int, j: int|
                0 <= i < j < s0.len() ==> s0[i] == s[i] && s0[j] == s[j]);
        }
        lemma_filter_sorted(s0, pred);
        assert(s =~= s0.push(s.last()));
        s0.lemma_filter_push(s.last(), pred);
        lemma_filter_members(s0, pred);
        let f = s.filter(pred);
        let f0 = s0.filter(pred);
        assert forall|i: int, j: int|
            0 <= i < j < f.len() implies #[trigger] f[i].timing.start_time
            >= #[trigger] f[j].timing.start_time by {
            if j < f0.len() {
                assert(f[i] == f0[i] && f[j] == f0[j]);
            } else {
                assert(f[j] == s.last());
                assert(f[i] == f0[i]);
                let w = choose|w: int| 0 <= w < s0.len() && s0[w] == f0[i];
                assert(s[w] == s0[w]);
                assert(s[w].timing.start_time >= s[s.len() - 1].timing.start_time);
            }
        }
    }
}

/// Filtering keeps ids unique.
proof fn lemma_filter_unique(s: Seq<HttpTransaction>, pred: spec_fn(HttpTransaction) -> bool)
    requires
        unique_ids(s),
    ensures
        unique_ids(s.filter(pred)),
    decreases s.len(),
{
    broadcast use vstd::seq_lib::group_filter_ensures;

    if s.len() > 0 {
        let s0 = s.drop_last();
        assert(unique_ids(s0)) by {
            assert(forall|i: int, j: int|
                0 <= i < j < s0.len() ==> s0[i] == s[i] && s0[j] == s[j]);
        }
        lemma_filter_unique(s0, pred);
        assert(s =~= s0.push(s.last()));
        s0.lemma_filter_push(s.last(), pred);
        lemma_filter_members(s0, pred);
        let f = s.filter(pred);
        let f0 = s0.filter(pred);
        assert forall|i: int, j: int|
            0 <= i < j < f.len() implies #[trigger] f[i].id@ != #[trigger] f[j].id@ by {
            if j < f0.len() {
                assert(f[i] == f0[i] && f[j] == f0[j]);
            } else {
                assert(f[j] == s.last());
                assert(f[i] == f0[i]);
                let w = choose|w: int| 0 <= w < s0.len() && s0[w] == f0[i];
                assert(s[w] == s0[w]);
                assert(s[w].id@ != s[s.len() - 1].id@);
            }
        }
    }
}

/// Filtering keeps start times non-negative.
proof fn lemma_filter_starts(s: Seq<HttpTransaction>, pred: spec_fn(HttpTransaction) -> bool)
    requires
        starts_nonneg(s),
    ensures
        starts_nonneg(s.filter(pred)),
{
    lemma_filter_members(s, pred);
    assert forall|i: int|
        0 <= i < s.filter(pred).len() implies #[trigger] s.filter(
        pred,
    )[i].timing.start_time >= 0 by {
        let w = choose|w: int| 0 <= w < s.len() && s[w] == s.filter(pred)[i];
    }
}

/// How `insert` places elements.
proof fn lemma_insert_indexing(s: Seq<HttpTransaction>, v: HttpTransaction, pos: int, i: int)
    requires
        0 <= pos <= s.len(),
        0 <= i < s.len() + 1,
    ensures
        i < pos ==> s.insert(pos, v)[i] == s[i],
        i == pos ==> s.insert(pos, v)[i] == v,
        i > pos ==> s.insert(pos, v)[i] == s[i - 1],
{
}

/// Persisting then fetching by id yields the same transaction: at the
/// model level, inserting a row whose id no other row bears makes it the
/// row any id scan finds.
pub proof fn lemma_persist_then_fetch(rows: Seq<HttpTransaction>, tx: HttpTransaction, pos: int)
    requires
        0 <= pos <= rows.len(),
        forall|i: int| 0 <= i < rows.len() ==> #[trigger] rows[i].id@ != tx.id@,
    ensures
        spec_find_by_id(rows.insert(pos, tx), tx.id@) == Some(tx),
    decreases pos,
{
    let s2 = rows.insert(pos, tx);
    if pos == 0 {
        assert(s2[0] == tx);
    } else {
        assert(s2[0] == rows[0]);
        assert(rows[0].id@ != tx.id@);
        let rest = rows.drop_first();
        assert forall|i: int| 0 <= i < rest.len() implies #[trigger] rest[i].id@ != tx.id@ by {
            assert(rest[i] == rows[i + 1]);
        }
        lemma_persist_then_fetch(rest, tx, pos - 1);
        assert(s2.drop_first() =~= rest.insert(pos - 1, tx));
    }
}

/// An exact copy of an optional string.
fn clone_opt_string(s: &Option<String>) -> (r: Option<String>)
    ensures
        r == *s,
{
    match s {
        Some(v) => Some(v.clone()),
        None => None,
    }
}

/// An exact copy of a byte vector.
pub fn clone_bytes(v: &Vec<u8>) -> (r: Vec<u8>)
    ensures
        r@ == v@,
{
    let mut out: Vec<u8> = Vec::new();
    let mut i: usize = 0;
    while i < v.len()
        invariant
            i <= v@.len(),
            out@ == v@.subrange(0, i as int),
        decreases v@.len() - i,
    {
        out.push(v[i]);
        proof {
            assert(v@.subrange(0, i + 1) =~= v@.subrange(0, i as int).push(v@[i as int]));
        }
        i += 1;
    }
    proof {
        assert(v@.subrange(0, v@.len() as int) =~= v@);
    }
    out
}

/// A contents-preserving copy of an optional byte vector.
fn clone_opt_bytes(v: &Option<Vec<u8>>) -> (r: Option<Vec<u8>>)
    ensures
        opt_bytes_equiv(r, *v),
{
    match v {
        Some(b) => Some(clone_bytes(b)),
        None => None,
    }
}

/// A contents-preserving copy of an optional header list.
fn clone_opt_headers(v: &Option<Vec<(String, String)>>) -> (r: Option<Vec<(String, String)>>)
    ensures
        opt_headers_equiv(r, *v),
{
    match v {
        Some(h) => Some(clone_headers(h)),
        None => None,
    }
}

/// A record-preserving copy of a transaction. The derived clone says
/// nothing to the verifier, so the copy is spelled out.
pub fn clone_tx(t: &HttpTransaction) -> (r: HttpTransaction)
    ensures
        tx_equiv(r, *t),
{
    HttpTransaction {
        id: t.id.clone(),
        method: t.method,
        scheme: t.scheme.clone(),
        host: t.host.clone(),
        port: t.port,
        path: t.path.clone(),
        http_version: t.http_version.clone(),
        state: t.state,
        request_headers: clone_headers(&t.request_headers),
        request_body: clone_opt_bytes(&t.request_body),
        request_content_type: clone_opt_string(&t.request_content_type),
        status_code: t.status_code,
        status_message: clone_opt_string(&t.status_message),
        response_headers: clone_opt_headers(&t.response_headers),
        response_body: clone_opt_bytes(&t.response_body),
        response_content_type: clone_opt_string(&t.response_content_type),
        timing: t.timing,
        response_size: t.response_size,
        has_breakpoint: t.has_breakpoint,
        notes: clone_opt_string(&t.notes),
        server_ip: clone_opt_string(&t.server_ip),
        tls_version: clone_opt_string(&t.tls_version),
        tls_cipher: clone_opt_string(&t.tls_cipher),
        connection_reused: t.connection_reused,
        stream_id: t.stream_id,
        is_websocket: t.is_websocket,
    }
}

} // verus!
