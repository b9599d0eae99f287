//! The certificate authority's decisions: what kind of subject
//! alternative name a host gets, the validity windows, the names under
//! which the root CA is stored, and the LRU cache of per-host server
//! configurations (held outside as opaque values behind handles).

use vstd::prelude::*;

verus! {

use vstd::string::StrSliceExecFns;
use vstd::string::StringExecFns;
use crate::text::{ascii_lower, lower_bytes, str_bytes};

/// Capacity of the per-host server-config cache.
pub const MAX_SERVER_CONFIG_CACHE: usize = 256;

/// One hour in milliseconds: the backdate on every certificate.
pub const BACKDATE_MS: i64 = 3600000;

/// Leaf validity: three years (of 365 days) in milliseconds.
pub const LEAF_VALIDITY_MS: i64 = 94608000000;

/// Root CA validity: ten years (of 365 days) in milliseconds.
pub const CA_VALIDITY_MS: i64 = 315360000000;

/// File name of the root CA certificate under the storage path.
pub fn ca_pem_filename() -> (r: &'static str)
    ensures
        r@ == "cheddar_proxy_ca.pem"@,
{
    "cheddar_proxy_ca.pem"
}

/// File name of the root CA private key under the storage path.
pub fn ca_key_filename() -> (r: &'static str)
    ensures
        r@ == "cheddar_proxy_ca.key"@,
{
    "cheddar_proxy_ca.key"
}

/// File name of the traffic log under the storage path.
pub fn traffic_db_filename() -> (r: &'static str)
    ensures
        r@ == "cheddarproxy_traffic.sqlite"@,
{
    "cheddarproxy_traffic.sqlite"
}

/// The kind of subject alternative name a host gets.
#[derive(Debug, Clone, Copy, PartialEq, Eq, Structural)]
pub enum SanKind {
    /// The host is an IP address.
    IpAddress,
    /// The host is a DNS name.
    DnsName,
}

/// A textual IPv4 address: four dot-separated decimal fields, each with
/// one to three digits and value at most 255. The dots are located
/// deterministically: each is the first dot after the previous field.
pub open spec fn spec_is_ipv4(s: Seq<char>) -> bool {
    match crate::target::spec_find_char(s, '.', 0) {
        None => false,
        Some(a) => match crate::target::spec_find_char(s, '.', a + 1) {
            None => false,
            Some(b) => match crate::target::spec_find_char(s, '.', b + 1) {
                None => false,
                Some(c) => {
                    &&& crate::target::spec_find_char(s, '.', c + 1) is None
                    &&& ipv4_field(s.subrange(0, a))
                    &&& ipv4_field(s.subrange(a + 1, b))
                    &&& ipv4_field(s.subrange(b + 1, c))
                    &&& ipv4_field(s.subrange(c + 1, s.len() as int))
                },
            },
        },
    }
}

/// One IPv4 field: one to three digits, value at most 255.
pub open spec fn ipv4_field(s: Seq<char>) -> bool {
    1 <= s.len() <= 3 && crate::target::all_digit_chars(s) && crate::target::spec_dec_chars_value(
        s,
    ) <= 255
}

/// Whether the host contains a colon (the textual form of IPv6).
pub open spec fn spec_has_colon(s: Seq<char>) -> bool {
    exists|i: int| 0 <= i < s.len() && s[i] == ':'
}

/// Classify a host for its certificate: an IPv4 or IPv6 literal gets an
/// IP-address name, everything else a DNS name.
pub fn san_kind_for(host: &str) -> (r: SanKind)
    ensures
        r == SanKind::IpAddress <==> (spec_is_ipv4(host@) || spec_has_colon(host@)),
{
    if has_colon(host) {
        return SanKind::IpAddress;
    }
    if is_ipv4(host) {
        SanKind::IpAddress
    } else {
        SanKind::DnsName
    }
}

fn has_colon(s: &str) -> (r: bool)
    ensures
        r == spec_has_colon(s@),
{
    let n = s.unicode_len();
    let mut i: usize = 0;
    while i < n
        invariant
            i <= n,
            n == s@.len(),
            forall|j: int| 0 <= j < i ==> s@[j] != ':',
        decreases n - i,
    {
        if s.get_char(i) == ':' {
            return true;
        }
        i += 1;
    }
    false
}

fn find_char_from(s: &str, c: char, from: usize) -> (r: Option<usize>)
    ensures
        match r {
            Some(i) => crate::target::spec_find_char(s@, c, from as int) == Some(i as int)
                && from <= i < s@.len(),
            None => crate::target::spec_find_char(s@, c, from as int) is None,
        },
{
    let n = s.unicode_len();
    if from >= n {
        return None;
    }
    let mut i: usize = from;
    while i < n
        invariant
            from <= i <= n,
            n == s@.len(),
            crate::target::spec_find_char(s@, c, from as int) == crate::target::spec_find_char(
                s@,
                c,
                i as int,
            ),
        decreases n - i,
    {
        if s.get_char(i) == c {
            return Some(i);
        }
        i += 1;
    }
    None
}

fn is_ipv4_field(s: &str, from: usize, to: usize) -> (r: bool)
    requires
        from <= to <= s@.len(),
    ensures
        r == ipv4_field(s@.subrange(from as int, to as int)),
{
    let ghost piece = s@.subrange(from as int, to as int);
    if to - from < 1 || to - from > 3 {
        return false;
    }
    match crate::target::parse_port_chars(s, from, to) {
        Some(v) => v <= 255,
        None => {
            proof {
                if piece.len() > 0 && crate::target::all_digit_chars(piece) {
                    lemma_small_digit_value(piece);
                }
            }
            false
        },
    }
}

/// A digit string of at most three digits has value below 1000.
proof fn lemma_small_digit_value(s: Seq<char>)
    requires
        1 <= s.len() <= 3,
        crate::target::all_digit_chars(s),
    ensures
        0 <= crate::target::spec_dec_chars_value(s),
        s.len() == 1 ==> crate::target::spec_dec_chars_value(s) <= 9,
        s.len() == 2 ==> crate::target::spec_dec_chars_value(s) <= 99,
        s.len() == 3 ==> crate::target::spec_dec_chars_value(s) <= 999,
    decreases s.len(),
{
    assert(crate::target::is_digit_char(s.last()));
    assert(48 <= s.last() as int <= 57);
    if s.len() == 1 {
        assert(s.drop_last().len() == 0);
        assert(crate::target::spec_dec_chars_value(s.drop_last()) == 0);
    } else {
        assert(crate::target::all_digit_chars(s.drop_last())) by {
            assert(forall|i: int|
                0 <= i < s.len() - 1 ==> #[trigger] s.drop_last()[i] == s[i]);
        }
        lemma_small_digit_value(s.drop_last());
    }
}

fn is_ipv4(s: &str) -> (r: bool)
    ensures
        r == spec_is_ipv4(s@),
{
    let n = s.unicode_len();
    let a = match find_char_from(s, '.', 0) {
        Some(i) => i,
        None => {
            return false;
        },
    };
    let b = match find_char_from(s, '.', a + 1) {
        Some(i) => i,
        None => {
            return false;
        },
    };
    let c = match find_char_from(s, '.', b + 1) {
        Some(i) => i,
        None => {
            return false;
        },
    };
    if find_char_from(s, '.', c + 1).is_some() {
        return false;
    }
    is_ipv4_field(s, 0, a) && is_ipv4_field(s, a + 1, b) && is_ipv4_field(s, b + 1, c)
        && is_ipv4_field(s, c + 1, n)
}

/// A certificate validity window, milliseconds since the epoch.
#[derive(Debug, Clone, Copy, PartialEq, Eq, Structural)]
pub struct ValidityWindow {
    /// Not valid before.
    pub not_before_ms: i64,
    /// Not valid after.
    pub not_after_ms: i64,
}

/// The validity window of a leaf certificate issued at `now_ms`:
/// backdated one hour against clock skew, and expiring three years out,
/// so its life never exceeds three years plus the backdate.
pub fn leaf_validity(now_ms: i64) -> (r: ValidityWindow)
    requires
        0 <= now_ms <= 4000000000000,
    ensures
        r.not_before_ms == now_ms - BACKDATE_MS,
        r.not_after_ms == now_ms + LEAF_VALIDITY_MS,
        r.not_after_ms - r.not_before_ms == LEAF_VALIDITY_MS + BACKDATE_MS,
{
    ValidityWindow {
        not_before_ms: now_ms - BACKDATE_MS,
        not_after_ms: now_ms + LEAF_VALIDITY_MS,
    }
}

/// The validity window of the root CA generated at `now_ms`: backdated
/// one hour, expiring ten years out.
pub fn ca_validity(now_ms: i64) -> (r: ValidityWindow)
    requires
        0 <= now_ms <= 4000000000000,
    ensures
        r.not_before_ms == now_ms - BACKDATE_MS,
        r.not_after_ms == now_ms + CA_VALIDITY_MS,
{
    ValidityWindow {
        not_before_ms: now_ms - BACKDATE_MS,
        not_after_ms: now_ms + CA_VALIDITY_MS,
    }
}

/// The common name of a generated root CA: the hostname and date, under
/// the fixed organization prefix.
pub fn ca_common_name(hostname: &str, date: &str) -> (r: String)
    ensures
        r@ == "Cheddar Proxy CA ("@ + hostname@ + ", "@ + date@ + ")"@,
{
    let mut s: String = "Cheddar Proxy CA (".to_owned();
    s.append(hostname);
    s.append(", ");
    s.append(date);
    s.append(")");
    s
}

/// The LRU cache of per-host server configurations. Keys are the
/// lower-cased host bytes; values are opaque handles owned outside.
/// The most recently used entry sits at the back.
pub struct LeafCache {
    entries: Vec<(Vec<u8>, u64)>,
}

/// The first entry with this key.
pub open spec fn spec_cache_find(es: Seq<(Vec<u8>, u64)>, key: Seq<u8>) -> Option<u64>
    decreases es.len(),
{
    if es.len() == 0 {
        None
    } else if es[0].0@ == key {
        Some(es[0].1)
    } else {
        spec_cache_find(es.drop_first(), key)
    }
}

impl LeafCache {
    /// The entries, least recently used first.
    pub closed spec fn spec_entries(self) -> Seq<(Vec<u8>, u64)> {
        self.entries@
    }

    /// An empty cache.
    pub fn new() -> (r: LeafCache)
        ensures
            r.spec_entries().len() == 0,
    {
        LeafCache { entries: Vec::new() }
    }

    /// Look up a host, promoting its entry to most recently used.
    pub fn get(&mut self, host: &str) -> (r: Option<u64>)
        ensures
            r == spec_cache_find(old(self).spec_entries(), lower_bytes(str_bytes(host))),
            match r {
                Some(h) => {
                    let kept = old(self).spec_entries().filter(
                        |e: (Vec<u8>, u64)| e.0@ != lower_bytes(str_bytes(host)),
                    );
                    &&& final(self).spec_entries().len() == kept.len() + 1
                    &&& final(self).spec_entries().take(kept.len() as int) == kept
                    &&& final(self).spec_entries().last().0@ == lower_bytes(str_bytes(host))
                    &&& final(self).spec_entries().last().1 == h
                },
                None => final(self).spec_entries() == old(self).spec_entries(),
            },
    {
        broadcast use vstd::seq_lib::group_filter_ensures;

        let key = ascii_lower(host.as_bytes());
        let ghost keyv = key@;
        let found = self.lookup(key.as_slice());
        match found {
            Some(h) => {
                let ghost pred = |e: (Vec<u8>, u64)| e.0@ != keyv;
                let ghost old_entries = self.entries@;
                let mut kept: Vec<(Vec<u8>, u64)> = Vec::new();
                let ghost mut processed: Seq<(Vec<u8>, u64)> = Seq::empty();
                proof {
                    assert(old_entries =~= processed + self.entries@);
                    assert(kept@ =~= processed.filter(pred));
                }
                while self.entries.len() > 0
                    invariant
                        old_entries == processed + self.entries@,
                        kept@ == processed.filter(pred),
                        pred == (|e: (Vec<u8>, u64)| e.0@ != keyv),
                        key@ == keyv,
                    decreases self.entries@.len(),
                {
                    let ghost pre = self.entries@;
                    let e = self.entries.remove(0);
                    proof {
                        assert(self.entries@ =~= pre.drop_first());
                    }
                    if !crate::text::bytes_eq(e.0.as_slice(), key.as_slice()) {
                        kept.push(e);
                    }
                    proof {
                        processed.lemma_filter_push(pre[0], pred);
                        processed = processed.push(pre[0]);
                        assert(old_entries =~= processed + self.entries@);
                        assert(kept@ =~= processed.filter(pred));
                    }
                }
                proof {
                    assert(old_entries =~= processed);
                }
                let ghost keptv = kept@;
                kept.push((key, h));
                self.entries = kept;
                proof {
                    assert(self.entries@.take(keptv.len() as int) =~= keptv);
                }
                Some(h)
            },
            None => None,
        }
    }

    fn lookup(&self, key: &[u8]) -> (r: Option<u64>)
        ensures
            r == spec_cache_find(self.spec_entries(), key@),
    {
        let mut i: usize = 0;
        proof {
            assert(self.entries@.skip(0) =~= self.entries@);
        }
        while i < self.entries.len()
            invariant
                i <= self.entries@.len(),
                spec_cache_find(self.spec_entries(), key@) == spec_cache_find(
                    self.spec_entries().skip(i as int),
                    key@,
                ),
            decreases self.entries@.len() - i,
        {
            proof {
                assert(self.entries@.skip(i as int)[0] == self.entries@[i as int]);
                assert(self.entries@.skip(i as int).drop_first() =~= self.entries@.skip(i + 1));
            }
            if crate::text::bytes_eq(self.entries[i].0.as_slice(), key) {
                return Some(self.entries[i].1);
            }
            i += 1;
        }
        None
    }

    /// Insert or refresh a host's handle as most recently used; the
    /// least recently used entry is dropped when the cache is full.
    pub fn put(&mut self, host: &str, handle: u64)
        ensures
            ({
                let kept = old(self).spec_entries().filter(
                    |e: (Vec<u8>, u64)| e.0@ != lower_bytes(str_bytes(host)),
                );
                let based = if kept.len() + 1 > MAX_SERVER_CONFIG_CACHE {
                    kept.drop_first()
                } else {
                    kept
                };
                &&& final(self).spec_entries().len() == based.len() + 1
                &&& final(self).spec_entries().take(based.len() as int) == based
                &&& final(self).spec_entries().last().0@ == lower_bytes(str_bytes(host))
                &&& final(self).spec_entries().last().1 == handle
                &&& final(self).spec_entries().len() <= MAX_SERVER_CONFIG_CACHE
                    || old(self).spec_entries().len() > MAX_SERVER_CONFIG_CACHE
            }),
    {
        broadcast use vstd::seq_lib::group_filter_ensures;

        let key = ascii_lower(host.as_bytes());
        let ghost keyv = key@;
        let ghost pred = |e: (Vec<u8>, u64)| e.0@ != keyv;
        let ghost old_entries = self.entries@;
        let mut kept: Vec<(Vec<u8>, u64)> = Vec::new();
        let ghost mut processed: Seq<(Vec<u8>, u64)> = Seq::empty();
        proof {
            assert(old_entries =~= processed + self.entries@);
            assert(kept@ =~= processed.filter(pred));
        }
        while self.entries.len() > 0
            invariant
                old_entries == processed + self.entries@,
                kept@ == processed.filter(pred),
                pred == (|e: (Vec<u8>, u64)| e.0@ != keyv),
                key@ == keyv,
            decreases self.entries@.len(),
        {
            let ghost pre = self.entries@;
            let e = self.entries.remove(0);
            proof {
                assert(self.entries@ =~= pre.drop_first());
            }
            if !crate::text::bytes_eq(e.0.as_slice(), key.as_slice()) {
                kept.push(e);
            }
            proof {
                processed.lemma_filter_push(pre[0], pred);
                processed = processed.push(pre[0]);
                assert(old_entries =~= processed + self.entries@);
                assert(kept@ =~= processed.filter(pred));
            }
        }
        proof {
            assert(old_entries =~= processed);
            old_entries.lemma_filter_len(pred);
        }
        if kept.len() >= MAX_SERVER_CONFIG_CACHE {
            kept.remove(0);
            proof {
                assert(kept@ =~= old_entries.filter(pred).drop_first());
            }
        }
        let ghost based = kept@;
        kept.push((key, handle));
        self.entries = kept;
        proof {
            assert(self.entries@.take(based.len() as int) =~= based);
        }
    }
}

} // verus!
