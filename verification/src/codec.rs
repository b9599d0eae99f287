//! HTTP/1.1 frame codec: head scanning and parsing, body framing, and
//! the chunked transfer decoder.
//!
//! The grammar is stated as spec-level parsers over `Seq<u8>`; the
//! executable parsers are proved to return exactly what those say.

use vstd::prelude::*;

verus! {

use vstd::utf8::{encode_utf8, valid_utf8};
use crate::numfmt::{all_digits, spec_dec_value};
use crate::text::{contains_ci, eq_ci, str_bytes};

/// Hard cap on a message head: 128 KiB.
pub const MAX_HEAD_BYTES: usize = 131072;

/// Hard cap on the number of headers in one head.
pub const MAX_HEADER_COUNT: usize = 256;

/// A complete head ends with an empty line: `\r\n\r\n` starts at `i`.
pub open spec fn is_head_end_at(b: Seq<u8>, i: int) -> bool {
    b[i] == 13 && b[i + 1] == 10 && b[i + 2] == 13 && b[i + 3] == 10
}

/// Position just past the first `\r\n\r\n`, if any.
pub fn find_header_end(buf: &[u8]) -> (r: Option<usize>)
    ensures
        match r {
            Some(p) => {
                &&& 4 <= p <= buf@.len()
                &&& is_head_end_at(buf@, p - 4)
                &&& forall|j: int| 0 <= j < p - 4 ==> !is_head_end_at(buf@, j)
            },
            None => forall|j: int| 0 <= j <= buf@.len() - 4 ==> !is_head_end_at(buf@, j),
        },
{
    if buf.len() < 4 {
        return None;
    }
    let n = buf.len();
    let mut i: usize = 0;
    while i <= n - 4
        invariant
            n == buf@.len(),
            4 <= n,
            i <= n - 3,
            forall|j: int| 0 <= j < i ==> !is_head_end_at(buf@, j),
        decreases n - i,
    {
        if buf[i] == 13 && buf[i + 1] == 10 && buf[i + 2] == 13 && buf[i + 3] == 10 {
            return Some(i + 4);
        }
        i += 1;
    }
    None
}

/// What a growing head buffer amounts to so far.
#[derive(Debug, Clone, Copy, PartialEq, Eq, Structural)]
pub enum HeadScan {
    /// The head is complete; the value is the position just past it.
    Complete(usize),
    /// No terminator yet, and the buffer is still within bounds.
    NeedMore,
    /// No terminator within the head cap: the head is too large.
    TooLarge,
}

/// Scan a head buffer: complete once `\r\n\r\n` appears, too large once
/// the buffer exceeds the head cap without it.
pub fn scan_head(buf: &[u8]) -> (r: HeadScan)
    ensures
        r is Complete <==> (exists|j: int| 0 <= j <= buf@.len() - 4 && is_head_end_at(buf@, j)),
        match r {
            HeadScan::Complete(p) => 4 <= p <= buf@.len() && is_head_end_at(buf@, p - 4)
                && forall|j: int| 0 <= j < p - 4 ==> !is_head_end_at(buf@, j),
            HeadScan::NeedMore => buf@.len() <= MAX_HEAD_BYTES,
            HeadScan::TooLarge => buf@.len() > MAX_HEAD_BYTES,
        },
{
    match find_header_end(buf) {
        Some(p) => {
            proof {
                assert(is_head_end_at(buf@, p - 4));
            }
            HeadScan::Complete(p)
        },
        None => {
            if buf.len() > MAX_HEAD_BYTES {
                HeadScan::TooLarge
            } else {
                HeadScan::NeedMore
            }
        },
    }
}

/// First occurrence of `b` at or after `from`.
pub open spec fn spec_find(s: Seq<u8>, b: u8, from: int) -> Option<int>
    decreases s.len() - from,
{
    if from < 0 || from >= s.len() {
        None
    } else if s[from] == b {
        Some(from)
    } else {
        spec_find(s, b, from + 1)
    }
}

/// First CRLF pair starting at or after `from`.
pub open spec fn spec_find_crlf(s: Seq<u8>, from: int) -> Option<int>
    decreases s.len() - from,
{
    if from < 0 || from + 2 > s.len() {
        None
    } else if s[from] == 13 && s[from + 1] == 10 {
        Some(from)
    } else {
        spec_find_crlf(s, from + 1)
    }
}

/// Find the first occurrence of `b` at or after `from`.
pub fn find_byte(s: &[u8], b: u8, from: usize) -> (r: Option<usize>)
    ensures
        match r {
            Some(i) => spec_find(s@, b, from as int) == Some(i as int),
            None => spec_find(s@, b, from as int) is None,
        },
{
    let mut i: usize = from;
    while i < s.len()
        invariant
            from <= i,
            i <= s@.len() || i == from,
            spec_find(s@, b, from as int) == spec_find(s@, b, i as int),
        decreases s@.len() - i,
    {
        if s[i] == b {
            return Some(i);
        }
        i += 1;
    }
    None
}

/// Find the first CRLF at or after `from`.
pub fn find_crlf(s: &[u8], from: usize) -> (r: Option<usize>)
    ensures
        match r {
            Some(i) => spec_find_crlf(s@, from as int) == Some(i as int),
            None => spec_find_crlf(s@, from as int) is None,
        },
{
    if s.len() < 2 || from > s.len() - 2 {
        return None;
    }
    let mut i: usize = from;
    while i <= s.len() - 2
        invariant
            from <= i,
            s@.len() >= 2,
            i <= s@.len(),
            spec_find_crlf(s@, from as int) == spec_find_crlf(s@, i as int),
        decreases s@.len() - i,
    {
        if s[i] == 13 && s[i + 1] == 10 {
            return Some(i);
        }
        i += 1;
    }
    None
}

/// A space or horizontal tab.
pub open spec fn is_ows(b: u8) -> bool {
    b == 32 || b == 9
}

/// The sequence with leading spaces and tabs removed.
pub open spec fn spec_trim_start(s: Seq<u8>) -> Seq<u8>
    decreases s.len(),
{
    if s.len() > 0 && is_ows(s[0]) {
        spec_trim_start(s.drop_first())
    } else {
        s
    }
}

/// The sequence with trailing spaces and tabs removed.
pub open spec fn spec_trim_end(s: Seq<u8>) -> Seq<u8>
    decreases s.len(),
{
    if s.len() > 0 && is_ows(s.last()) {
        spec_trim_end(s.drop_last())
    } else {
        s
    }
}

/// The sequence trimmed of spaces and tabs on both sides.
pub open spec fn spec_trim(s: Seq<u8>) -> Seq<u8> {
    spec_trim_end(spec_trim_start(s))
}

proof fn lemma_trim_start_skip(s: Seq<u8>, k: int)
    requires
        0 <= k <= s.len(),
        forall|j: int| 0 <= j < k ==> is_ows(s[j]),
        k < s.len() ==> !is_ows(s[k]),
    ensures
        spec_trim_start(s) == s.skip(k),
    decreases k,
{
    if k == 0 {
        assert(s.skip(0) =~= s);
    } else {
        let rest = s.drop_first();
        assert forall|j: int| 0 <= j < k - 1 implies is_ows(rest[j]) by {
            assert(rest[j] == s[j + 1]);
        }
        if k - 1 < rest.len() {
            assert(rest[k - 1] == s[k]);
        }
        lemma_trim_start_skip(rest, k - 1);
        assert(rest.skip(k - 1) =~= s.skip(k));
    }
}

proof fn lemma_trim_end_take(s: Seq<u8>, k: int)
    requires
        0 <= k <= s.len(),
        forall|j: int| k <= j < s.len() ==> is_ows(s[j]),
        k > 0 ==> !is_ows(s[k - 1]),
    ensures
        spec_trim_end(s) == s.take(k),
    decreases s.len() - k,
{
    if k == s.len() {
        assert(s.take(k) =~= s);
    } else {
        let rest = s.drop_last();
        assert forall|j: int| k <= j < rest.len() implies is_ows(rest[j]) by {
            assert(rest[j] == s[j]);
        }
        lemma_trim_end_take(rest, k);
        assert(rest.take(k) =~= s.take(k));
    }
}

/// Copy `s[from..to]` trimmed of surrounding spaces and tabs.
pub fn copy_trimmed(s: &[u8], from: usize, to: usize) -> (r: Vec<u8>)
    requires
        from <= to <= s@.len(),
    ensures
        r@ == spec_trim(s@.subrange(from as int, to as int)),
{
    let ghost sub = s@.subrange(from as int, to as int);
    let mut lo: usize = from;
    while lo < to && (s[lo] == 32 || s[lo] == 9)
        invariant
            from <= lo <= to <= s@.len(),
            sub == s@.subrange(from as int, to as int),
            forall|j: int| 0 <= j < lo - from ==> is_ows(sub[j]),
        decreases to - lo,
    {
        proof {
            assert(sub[lo - from] == s@[lo as int]);
        }
        lo += 1;
    }
    proof {
        if lo < to {
            assert(sub[lo - from] == s@[lo as int]);
        }
        lemma_trim_start_skip(sub, lo - from);
    }
    let ghost started = spec_trim_start(sub);
    let mut hi: usize = to;
    while hi > lo && (s[hi - 1] == 32 || s[hi - 1] == 9)
        invariant
            from <= lo <= hi <= to <= s@.len(),
            sub == s@.subrange(from as int, to as int),
            started == sub.skip(lo - from),
            forall|j: int| hi - lo <= j < started.len() ==> is_ows(started[j]),
        decreases hi - lo,
    {
        proof {
            assert(started[hi - 1 - lo] == s@[hi - 1]);
        }
        hi -= 1;
    }
    proof {
        if hi > lo {
            assert(started[hi - 1 - lo] == s@[hi - 1]);
        }
        lemma_trim_end_take(started, hi - lo);
    }
    let mut out: Vec<u8> = Vec::new();
    let mut i: usize = lo;
    while i < hi
        invariant
            lo <= i <= hi <= s@.len(),
            out@ == s@.subrange(lo as int, i as int),
        decreases hi - i,
    {
        out.push(s[i]);
        proof {
            assert(s@.subrange(lo as int, i + 1) =~= s@.subrange(lo as int, i as int).push(
                s@[i as int],
            ));
        }
        i += 1;
    }
    proof {
        assert(out@ =~= started.take(hi - lo)) by {
            assert(out@.len() == hi - lo);
            assert(forall|j: int|
                0 <= j < hi - lo ==> out@[j] == #[trigger] started.take(hi - lo)[j]);
        }
    }
    out
}

/// `Some(k)` points at a CRLF within bounds, after `from`.
pub proof fn lemma_find_crlf_bounds(s: Seq<u8>, from: int, k: int)
    requires
        spec_find_crlf(s, from) == Some(k),
    ensures
        from <= k,
        k + 2 <= s.len(),
        s[k] == 13 && s[k + 1] == 10,
    decreases s.len() - from,
{
    if !(from < 0 || from + 2 > s.len()) && !(s[from] == 13 && s[from + 1] == 10) {
        lemma_find_crlf_bounds(s, from + 1, k);
    }
}

/// `Some(c)` points at the byte, after `from` and in bounds.
pub proof fn lemma_find_bounds(s: Seq<u8>, b: u8, from: int, c: int)
    requires
        spec_find(s, b, from) == Some(c),
    ensures
        from <= c < s.len(),
        s[c] == b,
    decreases s.len() - from,
{
    if !(from < 0 || from >= s.len()) && s[from] != b {
        lemma_find_bounds(s, b, from + 1, c);
    }
}

/// The pieces of a parsed head, before text decoding: the three fields of
/// the first line, and the header name/value pairs.
pub struct SpecHead {
    /// First field of the start line.
    pub f0: Seq<u8>,
    /// Second field of the start line.
    pub f1: Seq<u8>,
    /// Rest of the start line after the second space.
    pub f2: Seq<u8>,
    /// Header pairs, values trimmed.
    pub headers: Seq<(Seq<u8>, Seq<u8>)>,
}

/// Parse the header lines of `b` from `from` to its end: each line is
/// `name: value` up to CRLF, the block ends with an empty line that must
/// close the buffer. Header names are nonempty and hold no space or tab;
/// values are trimmed.
pub open spec fn spec_parse_headers(b: Seq<u8>, from: int) -> Option<Seq<(Seq<u8>, Seq<u8>)>>
    decreases b.len() - from,
{
    match spec_find_crlf(b, from) {
        None => None,
        Some(k) => {
            if k < from || k + 2 > b.len() {
                None
            } else if k == from {
                if from + 2 == b.len() {
                    Some(Seq::empty())
                } else {
                    None
                }
            } else {
                match spec_find(b, 58, from) {
                    None => None,
                    Some(c) => {
                        if c >= k || c <= from {
                            None
                        } else {
                            let name = b.subrange(from, c);
                            let value = spec_trim(b.subrange(c + 1, k));
                            match spec_parse_headers(b, k + 2) {
                                None => None,
                                Some(t) => Some(seq![(name, value)] + t),
                            }
                        }
                    },
                }
            }
        },
    }
}

/// Parse a whole head: a start line split at its first two spaces, then
/// the header block, ending exactly at the end of the buffer. The three
/// start-line fields must be nonempty and the header count within the cap.
pub open spec fn spec_parse_head(b: Seq<u8>) -> Option<SpecHead> {
    match spec_find_crlf(b, 0) {
        None => None,
        Some(e0) => {
            let line = b.subrange(0, e0);
            match spec_find(line, 32, 0) {
                None => None,
                Some(sp1) => {
                    match spec_find(line, 32, sp1 + 1) {
                        None => None,
                        Some(sp2) => {
                            let f0 = line.subrange(0, sp1);
                            let f1 = line.subrange(sp1 + 1, sp2);
                            let f2 = line.subrange(sp2 + 1, line.len() as int);
                            if f0.len() == 0 || f1.len() == 0 || f2.len() == 0 {
                                None
                            } else {
                                match spec_parse_headers(b, e0 + 2) {
                                    None => None,
                                    Some(hs) => {
                                        if hs.len() > MAX_HEADER_COUNT {
                                            None
                                        } else {
                                            Some(SpecHead { f0, f1, f2, headers: hs })
                                        }
                                    },
                                }
                            }
                        },
                    }
                },
            }
        },
    }
}

/// All pieces of the head are valid UTF-8, so the head can be decoded.
pub open spec fn spec_head_decodable(h: SpecHead) -> bool {
    &&& valid_utf8(h.f0)
    &&& valid_utf8(h.f1)
    &&& valid_utf8(h.f2)
    &&& forall|i: int|
        0 <= i < h.headers.len() ==> valid_utf8(#[trigger] h.headers[i].0) && valid_utf8(
            h.headers[i].1,
        )
}

/// A decoded head: the start line fields and the headers as text.
pub struct Head {
    /// First field of the start line.
    pub f0: String,
    /// Second field of the start line.
    pub f1: String,
    /// Rest of the start line.
    pub f2: String,
    /// Header pairs in wire order, values trimmed.
    pub headers: Vec<(String, String)>,
}

/// The decoded head `h` spells out exactly the pieces of `sh`.
pub open spec fn head_decodes(h: Head, sh: SpecHead) -> bool {
    &&& encode_utf8(h.f0@) == sh.f0
    &&& encode_utf8(h.f1@) == sh.f1
    &&& encode_utf8(h.f2@) == sh.f2
    &&& h.headers@.len() == sh.headers.len()
    &&& forall|i: int|
        0 <= i < sh.headers.len() ==> encode_utf8(#[trigger] h.headers@[i].0@) == sh.headers[i].0
            && encode_utf8(h.headers@[i].1@) == sh.headers[i].1
}

/// Relies on String::from_utf8: `Some` exactly on valid UTF-8, and the
/// returned string's encoding is the input.
#[verifier::external_body]
fn bytes_to_string(v: Vec<u8>) -> (r: Option<String>)
    ensures
        match r {
            Some(s) => valid_utf8(v@) && encode_utf8(s@) == v@,
            None => !valid_utf8(v@),
        },
{
    String::from_utf8(v).ok()
}

/// Copy `s[from..to]`.
fn copy_range(s: &[u8], from: usize, to: usize) -> (r: Vec<u8>)
    requires
        from <= to <= s@.len(),
    ensures
        r@ == s@.subrange(from as int, to as int),
{
    let mut out: Vec<u8> = Vec::new();
    let mut i: usize = from;
    while i < to
        invariant
            from <= i <= to <= s@.len(),
            out@ == s@.subrange(from as int, i as int),
        decreases to - i,
    {
        out.push(s[i]);
        proof {
            assert(s@.subrange(from as int, i + 1) =~= s@.subrange(from as int, i as int).push(
                s@[i as int],
            ));
        }
        i += 1;
    }
    out
}

/// Glue an already-parsed prefix onto the outcome for the remainder.
pub open spec fn spec_glue(
    acc: Seq<(Seq<u8>, Seq<u8>)>,
    rest: Option<Seq<(Seq<u8>, Seq<u8>)>>,
) -> Option<Seq<(Seq<u8>, Seq<u8>)>> {
    match rest {
        None => None,
        Some(t) => Some(acc + t),
    }
}

/// Parse and decode a whole head buffer (which must end with its empty
/// line). `None` exactly when the grammar rejects it or a piece is not
/// valid UTF-8.
pub fn parse_head(raw: &[u8]) -> (r: Option<Head>)
    ensures
        match spec_parse_head(raw@) {
            None => r is None,
            Some(sh) => {
                match r {
                    None => !spec_head_decodable(sh),
                    Some(h) => spec_head_decodable(sh) && head_decodes(h, sh),
                }
            },
        },
{
    let e0 = match find_crlf(raw, 0) {
        Some(k) => k,
        None => {
            return None;
        },
    };
    proof {
        lemma_find_crlf_bounds(raw@, 0, e0 as int);
    }
    let ghost line = raw@.subrange(0, e0 as int);
    let sp1 = match find_byte_within(raw, 32, 0, e0) {
        Some(i) => i,
        None => {
            return None;
        },
    };
    let sp2 = match find_byte_within(raw, 32, sp1 + 1, e0) {
        Some(i) => i,
        None => {
            return None;
        },
    };
    if sp1 == 0 || sp2 == sp1 + 1 || sp2 + 1 == e0 {
        return None;
    }
    let f0b = copy_range(raw, 0, sp1);
    let f1b = copy_range(raw, sp1 + 1, sp2);
    let f2b = copy_range(raw, sp2 + 1, e0);
    proof {
        assert(line.subrange(0, sp1 as int) =~= raw@.subrange(0, sp1 as int));
        assert(line.subrange(sp1 + 1, sp2 as int) =~= raw@.subrange(sp1 + 1, sp2 as int));
        assert(line.subrange(sp2 + 1, line.len() as int) =~= raw@.subrange(sp2 + 1, e0 as int));
    }
    proof {
        assert(e0 + 2 <= raw@.len());
    }
    let rlen: usize = raw.len();
    let headers = match parse_header_block(raw, e0 + 2) {
        Some(hs) => hs,
        None => {
            proof {
                if spec_parse_head(raw@) is Some {
                    let sh = spec_parse_head(raw@)->0;
                    let t = spec_parse_headers(raw@, e0 + 2)->0;
                    assert(sh.headers == t);
                    lemma_head_not_decodable(sh);
                }
            }
            return None;
        },
    };
    if headers.len() > MAX_HEADER_COUNT {
        return None;
    }
    let ghost sh = spec_parse_head(raw@)->0;
    proof {
        assert(sh.f0 == raw@.subrange(0, sp1 as int));
        assert(sh.f1 == raw@.subrange(sp1 + 1, sp2 as int));
        assert(sh.f2 == raw@.subrange(sp2 + 1, e0 as int));
    }
    let f0 = match bytes_to_string(f0b) {
        Some(s) => s,
        None => {
            proof {
                assert(!valid_utf8(sh.f0));
            }
            return None;
        },
    };
    let f1 = match bytes_to_string(f1b) {
        Some(s) => s,
        None => {
            proof {
                assert(!valid_utf8(sh.f1));
            }
            return None;
        },
    };
    let f2 = match bytes_to_string(f2b) {
        Some(s) => s,
        None => {
            proof {
                assert(!valid_utf8(sh.f2));
            }
            return None;
        },
    };
    Some(Head { f0, f1, f2, headers })
}

/// Find `b` in `[from, to)` of `s`, matching `spec_find` on the subrange
/// `[0, to)` domain: the result is the first occurrence before `to`.
fn find_byte_within(s: &[u8], b: u8, from: usize, to: usize) -> (r: Option<usize>)
    requires
        from <= to <= s@.len(),
    ensures
        match r {
            Some(i) => spec_find(s@.subrange(0, to as int), b, from as int) == Some(i as int)
                && from <= i < to,
            None => spec_find(s@.subrange(0, to as int), b, from as int) is None,
        },
{
    let ghost sub = s@.subrange(0, to as int);
    let mut i: usize = from;
    while i < to
        invariant
            from <= i <= to <= s@.len(),
            sub == s@.subrange(0, to as int),
            spec_find(sub, b, from as int) == spec_find(sub, b, i as int),
        decreases to - i,
    {
        proof {
            assert(sub[i as int] == s@[i as int]);
        }
        if s[i] == b {
            return Some(i);
        }
        i += 1;
    }
    None
}

/// Parse and decode the header block of `raw` from `from` to its end.
/// `None` exactly when the block's grammar rejects it or a name or value
/// is not valid UTF-8 (the undecodable pieces are then pieces of the
/// spec-level parse).
fn parse_header_block(raw: &[u8], from: usize) -> (r: Option<Vec<(String, String)>>)
    requires
        from <= raw@.len(),
    ensures
        match spec_parse_headers(raw@, from as int) {
            None => r is None,
            Some(t) => {
                match r {
                    None => !spec_pairs_decodable(t),
                    Some(hs) => spec_pairs_decodable(t) && pairs_decode(hs@, t),
                }
            },
        },
{
    let rlen: usize = raw.len();
    let mut out: Vec<(String, String)> = Vec::new();
    let mut pos: usize = from;
    let ghost whole = spec_parse_headers(raw@, from as int);
    loop
        invariant
            from <= pos <= raw@.len(),
            rlen == raw@.len(),
            whole == spec_parse_headers(raw@, from as int),
            forall|t: Seq<(Seq<u8>, Seq<u8>)>|
                spec_parse_headers(raw@, pos as int) == Some(t) ==> {
                    &&& whole == Some(spec_pairs_of(out@) + t)
                    &&& spec_pairs_decodable(spec_pairs_of(out@))
                    &&& pairs_decode(out@, spec_pairs_of(out@))
                },
            spec_parse_headers(raw@, pos as int) is None ==> whole is None,
        decreases raw@.len() - pos,
    {
        let k = match find_crlf_from(raw, pos) {
            Some(k) => k,
            None => {
                return None;
            },
        };
        if k == pos {
            if pos + 2 == raw.len() {
                proof {
                    let t = spec_parse_headers(raw@, pos as int)->0;
                    assert(t =~= Seq::<(Seq<u8>, Seq<u8>)>::empty());
                    assert(spec_pairs_of(out@) + t =~= spec_pairs_of(out@));
                }
                return Some(out);
            } else {
                return None;
            }
        }
        let c = match find_byte_from(raw, 58, pos) {
            Some(c) => c,
            None => {
                return None;
            },
        };
        if c >= k || c <= pos {
            return None;
        }
        let ghost name_b = raw@.subrange(pos as int, c as int);
        let ghost value_b = spec_trim(raw@.subrange(c + 1, k as int));
        let name_v = copy_range(raw, pos, c);
        let value_v = copy_trimmed(raw, c + 1, k);
        let ghost t_rest = spec_parse_headers(raw@, k + 2);
        let name = match bytes_to_string(name_v) {
            Some(s) => s,
            None => {
                proof {
                    if t_rest is Some {
                        let t = spec_parse_headers(raw@, pos as int)->0;
                        assert(t == seq![(name_b, value_b)] + t_rest->0);
                        assert(t[0] == (name_b, value_b));
                        lemma_pair_undecodable(t, 0);
                        glue_not_decodable(spec_pairs_of(out@), t);
                    }
                }
                return None;
            },
        };
        let value = match bytes_to_string(value_v) {
            Some(s) => s,
            None => {
                proof {
                    if t_rest is Some {
                        let t = spec_parse_headers(raw@, pos as int)->0;
                        assert(t == seq![(name_b, value_b)] + t_rest->0);
                        assert(t[0] == (name_b, value_b));
                        lemma_pair_undecodable(t, 0);
                        glue_not_decodable(spec_pairs_of(out@), t);
                    }
                }
                return None;
            },
        };
        let ghost old_out = out@;
        out.push((name, value));
        proof {
            assert(spec_pairs_of(out@) =~= spec_pairs_of(old_out).push((name_b, value_b)));
            assert forall|t: Seq<(Seq<u8>, Seq<u8>)>|
                spec_parse_headers(raw@, k + 2) == Some(t) implies {
                &&& whole == Some(spec_pairs_of(out@) + t)
                &&& spec_pairs_decodable(spec_pairs_of(out@))
                &&& pairs_decode(out@, spec_pairs_of(out@))
            } by {
                let full = seq![(name_b, value_b)] + t;
                assert(spec_parse_headers(raw@, pos as int) == Some(full));
                assert(spec_pairs_of(old_out) + full =~= spec_pairs_of(out@) + t);
                assert(spec_pairs_decodable(spec_pairs_of(old_out)));
                assert forall|i: int| 0 <= i < spec_pairs_of(out@).len() implies valid_utf8(
                    #[trigger] spec_pairs_of(out@)[i].0,
                ) && valid_utf8(spec_pairs_of(out@)[i].1) by {
                    if i < old_out.len() {
                        assert(spec_pairs_of(out@)[i] == spec_pairs_of(old_out)[i]);
                    }
                }
                assert(pairs_decode(out@, spec_pairs_of(out@)));
            }
        }
        pos = k + 2;
    }
}

/// The byte-level pairs of a decoded header list.
pub open spec fn spec_pairs_of(hs: Seq<(String, String)>) -> Seq<(Seq<u8>, Seq<u8>)> {
    hs.map_values(|h: (String, String)| (encode_utf8(h.0@), encode_utf8(h.1@)))
}

/// Every pair is valid UTF-8 on both sides.
pub open spec fn spec_pairs_decodable(t: Seq<(Seq<u8>, Seq<u8>)>) -> bool {
    forall|i: int|
        0 <= i < t.len() ==> valid_utf8(#[trigger] t[i].0) && valid_utf8(t[i].1)
}

/// The decoded pairs spell out exactly the byte-level pairs.
pub open spec fn pairs_decode(hs: Seq<(String, String)>, t: Seq<(Seq<u8>, Seq<u8>)>) -> bool {
    &&& hs.len() == t.len()
    &&& forall|i: int|
        0 <= i < t.len() ==> encode_utf8(#[trigger] hs[i].0@) == t[i].0 && encode_utf8(hs[i].1@)
            == t[i].1
}

proof fn lemma_head_not_decodable(sh: SpecHead)
    requires
        !spec_pairs_decodable(sh.headers),
    ensures
        !spec_head_decodable(sh),
{
    if spec_head_decodable(sh) {
        assert forall|i: int| 0 <= i < sh.headers.len() implies valid_utf8(
            #[trigger] sh.headers[i].0,
        ) && valid_utf8(sh.headers[i].1) by {}
        assert(spec_pairs_decodable(sh.headers));
    }
}

proof fn lemma_pair_undecodable(t: Seq<(Seq<u8>, Seq<u8>)>, i: int)
    requires
        0 <= i < t.len(),
        !(valid_utf8(t[i].0) && valid_utf8(t[i].1)),
    ensures
        !spec_pairs_decodable(t),
{
}

proof fn glue_not_decodable(acc: Seq<(Seq<u8>, Seq<u8>)>, t: Seq<(Seq<u8>, Seq<u8>)>)
    requires
        !spec_pairs_decodable(t),
    ensures
        !spec_pairs_decodable(acc + t),
{
    let i = choose|i: int|
        0 <= i < t.len() && !(valid_utf8(#[trigger] t[i].0) && valid_utf8(t[i].1));
    assert((acc + t)[acc.len() + i] == t[i]);
}

/// Find the first CRLF at or after `from`, bounds included in the result.
fn find_crlf_from(s: &[u8], from: usize) -> (r: Option<usize>)
    ensures
        match r {
            Some(i) => spec_find_crlf(s@, from as int) == Some(i as int) && from <= i && i + 2
                <= s@.len(),
            None => spec_find_crlf(s@, from as int) is None,
        },
{
    let r = find_crlf(s, from);
    proof {
        if let Some(i) = r {
            lemma_find_crlf_bounds(s@, from as int, i as int);
        }
    }
    r
}

/// Find the first occurrence of `b` at or after `from`, bounds included.
fn find_byte_from(s: &[u8], b: u8, from: usize) -> (r: Option<usize>)
    ensures
        match r {
            Some(i) => spec_find(s@, b, from as int) == Some(i as int) && from <= i && i
                < s@.len(),
            None => spec_find(s@, b, from as int) is None,
        },
{
    let r = find_byte(s, b, from);
    proof {
        if let Some(i) = r {
            lemma_find_bounds(s@, b, from as int, i as int);
        }
    }
    r
}

/// Position just past the trailer section: lines up to and including the
/// blank line; `None` while more bytes are needed.
pub open spec fn spec_trailer_end(b: Seq<u8>, from: int) -> Option<int>
    decreases b.len() - from,
{
    match spec_find_crlf(b, from) {
        None => None,
        Some(k) => {
            if k < from || k + 2 > b.len() {
                None
            } else if k == from {
                Some(from + 2)
            } else {
                spec_trailer_end(b, k + 2)
            }
        },
    }
}

/// Outcome of decoding a chunked body, at spec level.
pub enum SpecChunked {
    /// The full decoded payload, and how many input bytes the chunked
    /// body occupies (size lines, data, trailers included).
    Done { payload: Seq<u8>, consumed: int },
    /// More input is needed.
    NeedMore,
    /// The encoding is malformed.
    Malformed,
    /// The decoded body exceeds the remaining budget.
    TooLarge,
}

/// The hexadecimal size field of a chunk line: up to the first `;`,
/// trimmed.
pub open spec fn spec_size_token(line: Seq<u8>) -> Seq<u8> {
    match spec_find(line, 59, 0) {
        Some(sc) => spec_trim(line.subrange(0, sc)),
        None => spec_trim(line),
    }
}

/// Decode a chunked body from `from`: a hex size line, that many bytes,
/// CRLF, repeated; a zero size ends the chunks, followed by trailers up
/// to a blank line. `budget` is how many decoded bytes may still come.
pub open spec fn spec_decode_chunked(b: Seq<u8>, from: int, budget: int) -> SpecChunked
    decreases b.len() - from,
{
    match spec_find_crlf(b, from) {
        None => SpecChunked::NeedMore,
        Some(k) => {
            if k < from || k + 2 > b.len() {
                SpecChunked::NeedMore
            } else {
                let tok = spec_size_token(b.subrange(from, k));
                if tok.len() == 0 || !crate::numfmt::all_hex(tok) {
                    SpecChunked::Malformed
                } else if crate::numfmt::spec_hex_value(tok) < 0 {
                    // a hex token's value is never negative; this arm keeps
                    // the recursion visibly decreasing
                    SpecChunked::Malformed
                } else if crate::numfmt::spec_hex_value(tok) > budget {
                    SpecChunked::TooLarge
                } else {
                    let size = crate::numfmt::spec_hex_value(tok);
                    if size == 0 {
                        match spec_trailer_end(b, k + 2) {
                            None => SpecChunked::NeedMore,
                            Some(end) => SpecChunked::Done { payload: Seq::empty(), consumed: end },
                        }
                    } else {
                        let dstart = k + 2;
                        if dstart + size + 2 > b.len() {
                            SpecChunked::NeedMore
                        } else if !(b[dstart + size] == 13 && b[dstart + size + 1] == 10) {
                            SpecChunked::Malformed
                        } else {
                            match spec_decode_chunked(b, dstart + size + 2, budget - size) {
                                SpecChunked::Done { payload, consumed } => SpecChunked::Done {
                                    payload: b.subrange(dstart, dstart + size) + payload,
                                    consumed,
                                },
                                SpecChunked::NeedMore => SpecChunked::NeedMore,
                                SpecChunked::Malformed => SpecChunked::Malformed,
                                SpecChunked::TooLarge => SpecChunked::TooLarge,
                            }
                        }
                    }
                }
            }
        },
    }
}

/// Outcome of decoding a chunked body.
#[derive(Debug, Clone)]
pub enum ChunkedOutcome {
    /// The decoded payload, and how many input bytes the body occupied.
    Done { payload: Vec<u8>, consumed: usize },
    /// The buffer does not yet hold the whole body.
    NeedMore,
    /// The encoding is malformed.
    Malformed,
    /// The decoded body exceeds the cap.
    TooLarge,
}

/// Prepend already-decoded bytes to a spec outcome.
pub open spec fn spec_chunk_glue(prefix: Seq<u8>, r: SpecChunked) -> SpecChunked {
    match r {
        SpecChunked::Done { payload, consumed } => SpecChunked::Done {
            payload: prefix + payload,
            consumed,
        },
        SpecChunked::NeedMore => SpecChunked::NeedMore,
        SpecChunked::Malformed => SpecChunked::Malformed,
        SpecChunked::TooLarge => SpecChunked::TooLarge,
    }
}

/// Decode a chunked body from the front of `data`, allowing at most
/// `cap` decoded bytes in total.
pub fn decode_chunked(data: &[u8], cap: usize) -> (r: ChunkedOutcome)
    ensures
        match spec_decode_chunked(data@, 0, cap as int) {
            SpecChunked::Done { payload, consumed } => (match r {
                ChunkedOutcome::Done { payload: p, consumed: c } => p@ == payload && c == consumed,
                _ => false,
            }),
            SpecChunked::NeedMore => r is NeedMore,
            SpecChunked::Malformed => r is Malformed,
            SpecChunked::TooLarge => r is TooLarge,
        },
{
    let rlen: usize = data.len();
    let ghost whole = spec_decode_chunked(data@, 0, cap as int);
    let mut payload: Vec<u8> = Vec::new();
    let mut pos: usize = 0;
    let mut budget: usize = cap;
    proof {
        match whole {
            SpecChunked::Done { payload: p, consumed: c } => {
                assert(Seq::<u8>::empty() + p =~= p);
            },
            _ => {},
        }
    }
    loop
        invariant
            pos <= rlen,
            rlen == data@.len(),
            budget <= cap,
            whole == spec_decode_chunked(data@, 0, cap as int),
            whole == spec_chunk_glue(
                payload@,
                spec_decode_chunked(data@, pos as int, budget as int),
            ),
        decreases rlen - pos,
    {
        let k = match find_crlf_from(data, pos) {
            Some(k) => k,
            None => {
                return ChunkedOutcome::NeedMore;
            },
        };
        let ghost line = data@.subrange(pos as int, k as int);
        let sc = find_byte_within(data, 59, pos, k);
        proof {
            lemma_find_prefix_gen(data@, 59, pos as int, k as int);
            lemma_find_shift_gen(data@, 59, pos as int, pos as int, k as int);
        }
        let tok: Vec<u8> = match sc {
            Some(sc) => {
                proof {
                    assert(spec_find(line, 59, 0) == Some(sc - pos));
                    assert(line.subrange(0, sc - pos) =~= data@.subrange(pos as int, sc as int));
                }
                copy_trimmed(data, pos, sc)
            },
            None => {
                proof {
                    assert(spec_find(line, 59, 0) is None);
                }
                copy_trimmed(data, pos, k)
            },
        };
        proof {
            assert(tok@ == spec_size_token(line));
        }
        let size = match crate::numfmt::parse_hex_bounded(tok.as_slice(), budget) {
            crate::numfmt::BoundedDec::Value(v) => {
                proof {
                    crate::numfmt::lemma_hex_value_nonneg(tok@);
                }
                v
            },
            crate::numfmt::BoundedDec::NotNumeric => {
                return ChunkedOutcome::Malformed;
            },
            crate::numfmt::BoundedDec::TooLarge => {
                return ChunkedOutcome::TooLarge;
            },
        };
        if size == 0 {
            let end = match scan_trailers(data, k + 2) {
                Some(e) => e,
                None => {
                    return ChunkedOutcome::NeedMore;
                },
            };
            proof {
                assert(payload@ + Seq::<u8>::empty() =~= payload@);
            }
            return ChunkedOutcome::Done { payload, consumed: end };
        }
        let dstart = k + 2;
        if size > rlen - dstart {
            proof {
                assert(dstart + size + 2 > data@.len());
            }
            return ChunkedOutcome::NeedMore;
        }
        if rlen - (dstart + size) < 2 {
            proof {
                assert(dstart + size + 2 > data@.len());
            }
            return ChunkedOutcome::NeedMore;
        }
        if !(data[dstart + size] == 13 && data[dstart + size + 1] == 10) {
            return ChunkedOutcome::Malformed;
        }
        let ghost old_payload = payload@;
        let mut i: usize = dstart;
        while i < dstart + size
            invariant
                dstart <= i <= dstart + size,
                dstart + size + 2 <= data@.len(),
                rlen == data@.len(),
                payload@ == old_payload + data@.subrange(dstart as int, i as int),
            decreases dstart + size - i,
        {
            payload.push(data[i]);
            proof {
                assert(data@.subrange(dstart as int, i + 1) =~= data@.subrange(
                    dstart as int,
                    i as int,
                ).push(data@[i as int]));
                assert(payload@ =~= old_payload + data@.subrange(dstart as int, i + 1));
            }
            i += 1;
        }
        proof {
            let inner = spec_decode_chunked(data@, dstart + size + 2, budget - size);
            assert(spec_decode_chunked(data@, pos as int, budget as int) == (match inner {
                SpecChunked::Done { payload: p, consumed: c } => SpecChunked::Done {
                    payload: data@.subrange(dstart as int, dstart + size) + p,
                    consumed: c,
                },
                SpecChunked::NeedMore => SpecChunked::NeedMore,
                SpecChunked::Malformed => SpecChunked::Malformed,
                SpecChunked::TooLarge => SpecChunked::TooLarge,
            }));
            match inner {
                SpecChunked::Done { payload: p2, consumed: c2 } => {
                    assert(old_payload + (data@.subrange(dstart as int, dstart + size) + p2)
                        =~= payload@ + p2);
                },
                _ => {},
            }
            assert(whole == spec_chunk_glue(payload@, inner));
        }
        pos = dstart + size + 2;
        budget = budget - size;
    }
}

/// Scan the trailer section: lines until a blank line; the result is the
/// position just past it, `None` while more bytes are needed.
fn scan_trailers(data: &[u8], from: usize) -> (r: Option<usize>)
    requires
        from <= data@.len(),
    ensures
        match r {
            Some(e) => spec_trailer_end(data@, from as int) == Some(e as int) && from <= e
                <= data@.len(),
            None => spec_trailer_end(data@, from as int) is None,
        },
{
    let rlen: usize = data.len();
    let mut pos: usize = from;
    loop
        invariant
            from <= pos <= rlen,
            rlen == data@.len(),
            spec_trailer_end(data@, from as int) == spec_trailer_end(data@, pos as int),
        decreases rlen - pos,
    {
        let k = match find_crlf_from(data, pos) {
            Some(k) => k,
            None => {
                return None;
            },
        };
        if k == pos {
            return Some(pos + 2);
        }
        pos = k + 2;
    }
}

/// The first occurrence of `x` in `[from, hi)` of `b`.
pub open spec fn spec_find_within(b: Seq<u8>, x: u8, from: int, hi: int) -> Option<int>
    decreases hi - from,
{
    if from < 0 || from >= hi || hi > b.len() {
        None
    } else if b[from] == x {
        Some(from)
    } else {
        spec_find_within(b, x, from + 1, hi)
    }
}

proof fn lemma_find_prefix_gen(b: Seq<u8>, x: u8, at: int, hi: int)
    requires
        0 <= at <= hi <= b.len(),
    ensures
        match spec_find(b.subrange(0, hi), x, at) {
            Some(i) => spec_find_within(b, x, at, hi) == Some(i),
            None => spec_find_within(b, x, at, hi) is None,
        },
    decreases hi - at,
{
    let sub = b.subrange(0, hi);
    if at < hi {
        assert(sub[at] == b[at]);
        if b[at] != x {
            lemma_find_prefix_gen(b, x, at + 1, hi);
        }
    }
}

proof fn lemma_find_shift_gen(b: Seq<u8>, x: u8, lo: int, at: int, hi: int)
    requires
        0 <= lo <= at <= hi <= b.len(),
    ensures
        match spec_find(b.subrange(lo, hi), x, at - lo) {
            Some(i) => spec_find_within(b, x, at, hi) == Some(i + lo),
            None => spec_find_within(b, x, at, hi) is None,
        },
    decreases hi - at,
{
    let sub = b.subrange(lo, hi);
    if at < hi {
        assert(sub[at - lo] == b[at]);
        if b[at] != x {
            lemma_find_shift_gen(b, x, lo, at + 1, hi);
        }
    }
}

/// How a request or response body is framed, as the headers declare it.
#[derive(Debug, Clone, Copy, PartialEq, Eq, Structural)]
pub enum BodyDirective {
    /// No body.
    NoBody,
    /// A fixed-length body of this many bytes.
    Fixed(usize),
    /// A chunked body.
    Chunked,
    /// A declared length over the body cap.
    TooLarge,
}

/// The framing the headers declare: a numeric `Content-Length` beyond
/// `cap` is rejected outright; otherwise `Transfer-Encoding: chunked`
/// wins; then a numeric `Content-Length`; else no body. A
/// `Content-Length` that is not a plain digit string counts as absent.
pub open spec fn spec_body_directive(hs: Seq<(String, String)>, cap: int) -> BodyDirective {
    let chunked = match crate::headers::spec_value_of(hs, str_bytes("transfer-encoding")) {
        Some(v) => contains_ci(encode_utf8(v@), str_bytes("chunked")),
        None => false,
    };
    match crate::headers::spec_value_of(hs, str_bytes("content-length")) {
        Some(v) => {
            let b = encode_utf8(v@);
            if b.len() == 0 || !all_digits(b) {
                if chunked {
                    BodyDirective::Chunked
                } else {
                    BodyDirective::NoBody
                }
            } else if spec_dec_value(b) > cap {
                BodyDirective::TooLarge
            } else if chunked {
                BodyDirective::Chunked
            } else {
                BodyDirective::Fixed(spec_dec_value(b) as usize)
            }
        },
        None => {
            if chunked {
                BodyDirective::Chunked
            } else {
                BodyDirective::NoBody
            }
        },
    }
}

/// Decide the body framing from the headers, against the body cap.
pub fn derive_body_directive(headers: &Vec<(String, String)>, cap: usize) -> (r: BodyDirective)
    ensures
        r == spec_body_directive(headers@, cap as int),
{
    let chunked = match crate::headers::header_value(headers, "transfer-encoding") {
        Some(v) => crate::text::str_contains_ci(v.as_str(), "chunked"),
        None => false,
    };
    match crate::headers::header_value(headers, "content-length") {
        Some(v) => {
            match crate::numfmt::parse_dec_bounded(v.as_str().as_bytes(), cap) {
                crate::numfmt::BoundedDec::NotNumeric => {
                    if chunked {
                        BodyDirective::Chunked
                    } else {
                        BodyDirective::NoBody
                    }
                },
                crate::numfmt::BoundedDec::TooLarge => BodyDirective::TooLarge,
                crate::numfmt::BoundedDec::Value(n) => {
                    if chunked {
                        BodyDirective::Chunked
                    } else {
                        BodyDirective::Fixed(n)
                    }
                },
            }
        },
        None => {
            if chunked {
                BodyDirective::Chunked
            } else {
                BodyDirective::NoBody
            }
        },
    }
}

/// A declared `Content-Length` over the cap is always rejected: whatever
/// else the headers say, the directive is `TooLarge`.
pub proof fn lemma_oversize_content_length_rejected(hs: Seq<(String, String)>, cap: int)
    requires
        match crate::headers::spec_value_of(hs, str_bytes("content-length")) {
            Some(v) => {
                let b = encode_utf8(v@);
                b.len() > 0 && all_digits(b) && spec_dec_value(b) > cap
            },
            None => false,
        },
    ensures
        spec_body_directive(hs, cap) == BodyDirective::TooLarge,
{
}

} // verus!
