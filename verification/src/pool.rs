//! The upstream HTTP/2 pool and its blocklist, and the connector's plan.
//!
//! Pool entries carry an opaque handle standing for a multiplexed
//! sender owned outside; an entry counts only while its last use is
//! within the pool TTL. A blocklisted origin is forced onto HTTP/1.1
//! until its entry expires.

use vstd::prelude::*;

verus! {

use crate::target::RequestScheme;
use crate::text::str_eq_chars;

/// Pool entries older than this are treated as absent: 30 s.
pub const H2_POOL_TTL_MS: u64 = 30000;

/// Blocklist entries expire after this: 300 s.
pub const H2_BLOCKLIST_TTL_MS: u64 = 300000;

/// One pooled HTTP/2 sender, by origin.
#[derive(Debug, Clone)]
pub struct H2PoolEntry {
    /// Origin host.
    pub host: String,
    /// Origin port.
    pub port: u16,
    /// Opaque handle to the sender held outside.
    pub handle: u64,
    /// When the sender was last used, milliseconds since the epoch.
    pub last_used_ms: u64,
}

/// One blocklisted origin.
#[derive(Debug, Clone)]
pub struct BlockEntry {
    /// Origin host.
    pub host: String,
    /// Origin port.
    pub port: u16,
    /// When the failure was recorded, milliseconds since the epoch.
    pub at_ms: u64,
}

/// The shared upstream state: pooled senders and blocklisted origins.
pub struct UpstreamRegistry {
    pool: Vec<H2PoolEntry>,
    blocked: Vec<BlockEntry>,
}

/// The handle the pool yields for an origin at `now_ms`: the first entry
/// for the origin, and only while its last use is within the TTL.
pub open spec fn spec_pool_handle(es: Seq<H2PoolEntry>, host: Seq<char>, port: u16, now_ms: u64)
    -> Option<u64>
    decreases es.len(),
{
    if es.len() == 0 {
        None
    } else if es[0].host@ == host && es[0].port == port {
        if es[0].last_used_ms <= now_ms && now_ms - es[0].last_used_ms <= H2_POOL_TTL_MS {
            Some(es[0].handle)
        } else {
            None
        }
    } else {
        spec_pool_handle(es.drop_first(), host, port, now_ms)
    }
}

/// Whether an origin is blocklisted at `now_ms`: some entry for it is
/// younger than the blocklist TTL.
pub open spec fn spec_blocked(es: Seq<BlockEntry>, host: Seq<char>, port: u16, now_ms: u64)
    -> bool {
    exists|i: int|
        0 <= i < es.len() && #[trigger] es[i].host@ == host && es[i].port == port && es[i].at_ms
            <= now_ms && now_ms - es[i].at_ms < H2_BLOCKLIST_TTL_MS
}

impl UpstreamRegistry {
    /// The pool entries.
    pub closed spec fn spec_pool(self) -> Seq<H2PoolEntry> {
        self.pool@
    }

    /// The blocklist entries.
    pub closed spec fn spec_blocklist(self) -> Seq<BlockEntry> {
        self.blocked@
    }

    /// An empty registry.
    pub fn new() -> (r: UpstreamRegistry)
        ensures
            r.spec_pool().len() == 0,
            r.spec_blocklist().len() == 0,
    {
        UpstreamRegistry { pool: Vec::new(), blocked: Vec::new() }
    }

    /// The pooled handle for an origin, treating entries past the TTL as
    /// absent.
    pub fn pool_lookup(&self, host: &str, port: u16, now_ms: u64) -> (r: Option<u64>)
        ensures
            r == spec_pool_handle(self.spec_pool(), host@, port, now_ms),
    {
        let mut i: usize = 0;
        proof {
            assert(self.spec_pool().skip(0) =~= self.spec_pool());
        }
        while i < self.pool.len()
            invariant
                i <= self.pool@.len(),
                spec_pool_handle(self.spec_pool(), host@, port, now_ms) == spec_pool_handle(
                    self.spec_pool().skip(i as int),
                    host@,
                    port,
                    now_ms,
                ),
            decreases self.pool@.len() - i,
        {
            proof {
                assert(self.spec_pool().skip(i as int)[0] == self.spec_pool()[i as int]);
                assert(self.spec_pool().skip(i as int).drop_first() =~= self.spec_pool().skip(
                    i + 1,
                ));
            }
            let e = &self.pool[i];
            if str_eq_chars(e.host.as_str(), host) && e.port == port {
                if e.last_used_ms <= now_ms && now_ms - e.last_used_ms <= H2_POOL_TTL_MS {
                    return Some(e.handle);
                } else {
                    return None;
                }
            }
            i += 1;
        }
        None
    }

    /// Record a pooled sender for an origin, replacing any entry it had.
    pub fn pool_insert(&mut self, host: &str, port: u16, handle: u64, now_ms: u64)
        ensures
            final(self).spec_blocklist() == old(self).spec_blocklist(),
            ({
                let kept = old(self).spec_pool().filter(
                    |e: H2PoolEntry| !(e.host@ == host@ && e.port == port),
                );
                &&& final(self).spec_pool().len() == kept.len() + 1
                &&& final(self).spec_pool().take(kept.len() as int) == kept
                &&& final(self).spec_pool().last().host@ == host@
                &&& final(self).spec_pool().last().port == port
                &&& final(self).spec_pool().last().handle == handle
                &&& final(self).spec_pool().last().last_used_ms == now_ms
            }),
    {
        broadcast use vstd::seq_lib::group_filter_ensures;

        let mut out: Vec<H2PoolEntry> = Vec::new();
        let mut i: usize = 0;
        while i < self.pool.len()
            invariant
                i <= self.pool@.len(),
                out@ == self.pool@.subrange(0, i as int).filter(
                    |e: H2PoolEntry| !(e.host@ == host@ && e.port == port),
                ),
            decreases self.pool@.len() - i,
        {
            let ghost prefix = self.pool@.subrange(0, i as int);
            let e = &self.pool[i];
            if !(str_eq_chars(e.host.as_str(), host) && e.port == port) {
                out.push(
                    H2PoolEntry {
                        host: e.host.clone(),
                        port: e.port,
                        handle: e.handle,
                        last_used_ms: e.last_used_ms,
                    },
                );
                proof {
                    assert(out@.last() == self.pool@[i as int]);
                }
            }
            proof {
                assert(self.pool@.subrange(0, i + 1) =~= prefix.push(self.pool@[i as int]));
                prefix.lemma_filter_push(
                    self.pool@[i as int],
                    |e: H2PoolEntry| !(e.host@ == host@ && e.port == port),
                );
                assert(out@ =~= self.pool@.subrange(0, i + 1).filter(
                    |e: H2PoolEntry| !(e.host@ == host@ && e.port == port),
                ));
            }
            i += 1;
        }
        proof {
            assert(self.pool@.subrange(0, self.pool@.len() as int) =~= self.pool@);
        }
        let ghost kept = out@;
        out.push(H2PoolEntry { host: host.to_owned(), port, handle, last_used_ms: now_ms });
        self.pool = out;
        proof {
            assert(self.pool@.take(kept.len() as int) =~= kept);
        }
    }

    /// Drop the pool entries of an origin.
    pub fn pool_remove(&mut self, host: &str, port: u16)
        ensures
            final(self).spec_blocklist() == old(self).spec_blocklist(),
            final(self).spec_pool() == old(self).spec_pool().filter(
                |e: H2PoolEntry| !(e.host@ == host@ && e.port == port),
            ),
    {
        broadcast use vstd::seq_lib::group_filter_ensures;

        let mut out: Vec<H2PoolEntry> = Vec::new();
        let mut i: usize = 0;
        while i < self.pool.len()
            invariant
                i <= self.pool@.len(),
                out@ == self.pool@.subrange(0, i as int).filter(
                    |e: H2PoolEntry| !(e.host@ == host@ && e.port == port),
                ),
            decreases self.pool@.len() - i,
        {
            let ghost prefix = self.pool@.subrange(0, i as int);
            let e = &self.pool[i];
            if !(str_eq_chars(e.host.as_str(), host) && e.port == port) {
                out.push(
                    H2PoolEntry {
                        host: e.host.clone(),
                        port: e.port,
                        handle: e.handle,
                        last_used_ms: e.last_used_ms,
                    },
                );
                proof {
                    assert(out@.last() == self.pool@[i as int]);
                }
            }
            proof {
                assert(self.pool@.subrange(0, i + 1) =~= prefix.push(self.pool@[i as int]));
                prefix.lemma_filter_push(
                    self.pool@[i as int],
                    |e: H2PoolEntry| !(e.host@ == host@ && e.port == port),
                );
                assert(out@ =~= self.pool@.subrange(0, i + 1).filter(
                    |e: H2PoolEntry| !(e.host@ == host@ && e.port == port),
                ));
            }
            i += 1;
        }
        proof {
            assert(self.pool@.subrange(0, self.pool@.len() as int) =~= self.pool@);
        }
        self.pool = out;
    }

    /// Whether an origin is blocklisted at `now_ms`.
    pub fn is_blocked(&self, host: &str, port: u16, now_ms: u64) -> (r: bool)
        ensures
            r == spec_blocked(self.spec_blocklist(), host@, port, now_ms),
    {
        let mut i: usize = 0;
        while i < self.blocked.len()
            invariant
                i <= self.blocked@.len(),
                forall|j: int|
                    0 <= j < i ==> !(#[trigger] self.blocked@[j].host@ == host@
                        && self.blocked@[j].port == port && self.blocked@[j].at_ms <= now_ms
                        && now_ms - self.blocked@[j].at_ms < H2_BLOCKLIST_TTL_MS),
            decreases self.blocked@.len() - i,
        {
            let e = &self.blocked[i];
            if str_eq_chars(e.host.as_str(), host) && e.port == port && e.at_ms <= now_ms
                && now_ms - e.at_ms < H2_BLOCKLIST_TTL_MS {
                return true;
            }
            i += 1;
        }
        false
    }

    /// Blocklist an origin as of `now_ms`.
    pub fn block(&mut self, host: &str, port: u16, now_ms: u64)
        ensures
            final(self).spec_pool() == old(self).spec_pool(),
            final(self).spec_blocklist().len() == old(self).spec_blocklist().len() + 1,
            final(self).spec_blocklist().take(old(self).spec_blocklist().len() as int) == old(
                self,
            ).spec_blocklist(),
            final(self).spec_blocklist().last().host@ == host@,
            final(self).spec_blocklist().last().port == port,
            final(self).spec_blocklist().last().at_ms == now_ms,
            spec_blocked(final(self).spec_blocklist(), host@, port, now_ms),
    {
        self.blocked.push(BlockEntry { host: host.to_owned(), port, at_ms: now_ms });
        proof {
            assert(self.blocked@.take(old(self).blocked@.len() as int) =~= old(self).blocked@);
            let n = old(self).blocked@.len() as int;
            assert(self.blocked@[n].host@ == host@ && self.blocked@[n].port == port);
        }
    }

    /// Record an HTTP/2 failure for an origin: its pool entries are
    /// evicted and the origin is blocklisted as of `now_ms`.
    pub fn mark_h2_failure(&mut self, host: &str, port: u16, now_ms: u64)
        ensures
            final(self).spec_pool() == old(self).spec_pool().filter(
                |e: H2PoolEntry| !(e.host@ == host@ && e.port == port),
            ),
            spec_blocked(final(self).spec_blocklist(), host@, port, now_ms),
            spec_pool_handle(final(self).spec_pool(), host@, port, now_ms) is None,
    {
        self.pool_remove(host, port);
        proof {
            broadcast use vstd::seq_lib::group_filter_ensures;

            lemma_filtered_pool_has_no_key(self.pool@, host@, port, now_ms);
        }
        self.block(host, port, now_ms);
    }
}

/// A pool list holding no entry for a key yields nothing for it.
proof fn lemma_filtered_pool_has_no_key(
    es: Seq<H2PoolEntry>,
    host: Seq<char>,
    port: u16,
    now_ms: u64,
)
    requires
        forall|i: int|
            0 <= i < es.len() ==> !(#[trigger] es[i].host@ == host && es[i].port == port),
    ensures
        spec_pool_handle(es, host, port, now_ms) is None,
    decreases es.len(),
{
    if es.len() > 0 {
        assert forall|i: int| 0 <= i < es.drop_first().len() implies !(
        #[trigger] es.drop_first()[i].host@ == host && es.drop_first()[i].port == port) by {
            assert(es.drop_first()[i] == es[i + 1]);
        }
        lemma_filtered_pool_has_no_key(es.drop_first(), host, port, now_ms);
    }
}

/// How the connector reaches an upstream.
#[derive(Debug, Clone, Copy, PartialEq, Eq, Structural)]
pub enum UpstreamPlan {
    /// Reuse the pooled HTTP/2 sender behind this handle, through a
    /// bridge.
    ReusePool(u64),
    /// Dial TCP and negotiate TLS; when `h1_only` the client offers only
    /// `http/1.1`, else `h2` and `http/1.1`.
    DialTls {
        /// Restrict ALPN to HTTP/1.1.
        h1_only: bool,
    },
    /// Dial plain TCP.
    DialTcp,
}

/// Decide how to reach an upstream: HTTP dials TCP; HTTPS reuses a fresh
/// pooled sender unless the origin is blocklisted, and a blocklisted
/// origin is dialed with ALPN restricted to HTTP/1.1.
pub fn plan_upstream(
    scheme: RequestScheme,
    host: &str,
    port: u16,
    registry: &UpstreamRegistry,
    now_ms: u64,
) -> (r: UpstreamPlan)
    ensures
        scheme == RequestScheme::Http ==> r == UpstreamPlan::DialTcp,
        scheme == RequestScheme::Https ==> {
            let blocked = spec_blocked(registry.spec_blocklist(), host@, port, now_ms);
            let pooled = spec_pool_handle(registry.spec_pool(), host@, port, now_ms);
            if blocked {
                r == (UpstreamPlan::DialTls { h1_only: true })
            } else {
                match pooled {
                    Some(h) => r == UpstreamPlan::ReusePool(h),
                    None => r == (UpstreamPlan::DialTls { h1_only: false }),
                }
            }
        },
{
    match scheme {
        RequestScheme::Http => UpstreamPlan::DialTcp,
        RequestScheme::Https => {
            if registry.is_blocked(host, port, now_ms) {
                UpstreamPlan::DialTls { h1_only: true }
            } else {
                match registry.pool_lookup(host, port, now_ms) {
                    Some(h) => UpstreamPlan::ReusePool(h),
                    None => UpstreamPlan::DialTls { h1_only: false },
                }
            }
        },
    }
}

/// The ALPN protocol list a TLS dial advertises: only `http/1.1` for a
/// blocklisted origin, else `h2` then `http/1.1`.
pub fn alpn_protocols(h1_only: bool) -> (r: Vec<String>)
    ensures
        h1_only ==> r@.len() == 1 && r@[0]@ == "http/1.1"@,
        !h1_only ==> r@.len() == 2 && r@[0]@ == "h2"@ && r@[1]@ == "http/1.1"@,
{
    let mut out: Vec<String> = Vec::new();
    if !h1_only {
        out.push("h2".to_owned());
    }
    out.push("http/1.1".to_owned());
    out
}

} // verus!
