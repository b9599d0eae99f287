//! Resolving the request target: scheme, host, port and path, from the
//! request line and the `Host` header.

use vstd::prelude::*;

verus! {

use vstd::string::StrSliceExecFns;
use vstd::string::StringExecFns;
use crate::headers::header_value;

/// The scheme of a proxied request.
#[derive(Debug, Clone, Copy, PartialEq, Eq, Structural)]
pub enum RequestScheme {
    /// Plain HTTP.
    Http,
    /// HTTP over TLS.
    Https,
}

impl RequestScheme {
    /// The scheme's name.
    pub open spec fn name_chars(self) -> Seq<char> {
        match self {
            RequestScheme::Http => "http"@,
            RequestScheme::Https => "https"@,
        }
    }

    /// The scheme's name, `http` or `https`.
    pub fn as_str(&self) -> (r: &'static str)
        ensures
            r@ == self.name_chars(),
    {
        match self {
            RequestScheme::Http => "http",
            RequestScheme::Https => "https",
        }
    }

    /// The spec-level default port of the scheme.
    pub open spec fn spec_default_port(self) -> u16 {
        match self {
            RequestScheme::Http => 80u16,
            RequestScheme::Https => 443u16,
        }
    }

    /// The default port: 80 for HTTP, 443 for HTTPS.
    pub fn default_port(&self) -> (r: u16)
        ensures
            r == self.spec_default_port(),
    {
        match self {
            RequestScheme::Http => 80,
            RequestScheme::Https => 443,
        }
    }
}

/// `s` starts with `p`, at character level.
pub open spec fn spec_has_prefix(s: Seq<char>, p: Seq<char>) -> bool {
    s.len() >= p.len() && s.subrange(0, p.len() as int) == p
}

/// Character-level prefix test.
pub fn str_has_prefix(s: &str, p: &str) -> (r: bool)
    ensures
        r == spec_has_prefix(s@, p@),
{
    let sn = s.unicode_len();
    let pn = p.unicode_len();
    if sn < pn {
        return false;
    }
    let mut i: usize = 0;
    while i < pn
        invariant
            i <= pn,
            pn == p@.len(),
            pn <= sn == s@.len(),
            forall|j: int| 0 <= j < i ==> s@[j] == p@[j],
        decreases pn - i,
    {
        if s.get_char(i) != p.get_char(i) {
            proof {
                assert(s@.subrange(0, p@.len() as int)[i as int] == s@[i as int]);
            }
            return false;
        }
        i += 1;
    }
    proof {
        assert(s@.subrange(0, p@.len() as int) =~= p@);
    }
    true
}

/// Position of the last `c` in `s`, scanning from the end.
pub open spec fn spec_rfind_char(s: Seq<char>, c: char) -> Option<int>
    decreases s.len(),
{
    if s.len() == 0 {
        None
    } else if s.last() == c {
        Some(s.len() - 1)
    } else {
        spec_rfind_char(s.drop_last(), c)
    }
}

/// Find the last occurrence of `c` in `s`.
fn rfind_char(s: &str, c: char) -> (r: Option<usize>)
    ensures
        match r {
            Some(i) => spec_rfind_char(s@, c) == Some(i as int) && i < s@.len(),
            None => spec_rfind_char(s@, c) is None,
        },
{
    let n = s.unicode_len();
    let mut i: usize = n;
    proof {
        assert(s@.take(n as int) =~= s@);
    }
    while i > 0
        invariant
            i <= n,
            n == s@.len(),
            spec_rfind_char(s@, c) == spec_rfind_char(s@.take(i as int), c),
        decreases i,
    {
        proof {
            assert(s@.take(i as int).last() == s@[i - 1]);
            assert(s@.take(i as int).drop_last() =~= s@.take(i - 1));
        }
        if s.get_char(i - 1) == c {
            return Some(i - 1);
        }
        i -= 1;
    }
    proof {
        assert(s@.take(0).len() == 0);
    }
    None
}

/// A decimal digit character.
pub open spec fn is_digit_char(c: char) -> bool {
    '0' <= c <= '9'
}

/// All characters are decimal digits.
pub open spec fn all_digit_chars(s: Seq<char>) -> bool {
    forall|i: int| 0 <= i < s.len() ==> is_digit_char(#[trigger] s[i])
}

/// The numeric value of a digit-character string.
pub open spec fn spec_dec_chars_value(s: Seq<char>) -> int
    decreases s.len(),
{
    if s.len() == 0 {
        0
    } else {
        spec_dec_chars_value(s.drop_last()) * 10 + (s.last() as int - 48)
    }
}

/// Parse a port written in decimal characters; `None` when empty, not
/// all digits, or over 65535.
pub fn parse_port_chars(s: &str, from: usize, to: usize) -> (r: Option<u16>)
    requires
        from <= to <= s@.len(),
    ensures
        ({
            let piece = s@.subrange(from as int, to as int);
            match r {
                Some(p) => piece.len() > 0 && all_digit_chars(piece) && spec_dec_chars_value(
                    piece,
                ) == p as int && p <= 65535,
                None => piece.len() == 0 || !all_digit_chars(piece) || spec_dec_chars_value(
                    piece,
                ) > 65535,
            }
        }),
{
    let ghost piece = s@.subrange(from as int, to as int);
    if from == to {
        return None;
    }
    let mut val: u32 = 0;
    let mut i: usize = from;
    while i < to
        invariant
            from <= i <= to <= s@.len(),
            piece == s@.subrange(from as int, to as int),
            all_digit_chars(piece.take(i - from)),
            val == spec_dec_chars_value(piece.take(i - from)),
            val <= 65535,
        decreases to - i,
    {
        let c = s.get_char(i);
        if c < '0' || c > '9' {
            proof {
                assert(piece[i - from] == s@[i as int]);
            }
            return None;
        }
        let d: u32 = (c as u32) - 48;
        proof {
            assert(piece.take(i - from + 1).drop_last() =~= piece.take(i - from));
            assert(piece.take(i - from + 1).last() == s@[i as int]);
            assert(piece[i - from] == s@[i as int]);
        }
        let next = val * 10 + d;
        if next > 65535 {
            proof {
                if all_digit_chars(piece) {
                    lemma_digit_chars_value_grows(piece, i - from + 1);
                }
            }
            return None;
        }
        val = next;
        i += 1;
    }
    proof {
        assert(piece.take(to - from) =~= piece);
    }
    Some(val as u16)
}

/// Once a digit prefix exceeds 65535, the whole string does.
proof fn lemma_digit_chars_value_grows(s: Seq<char>, k: int)
    requires
        0 <= k <= s.len(),
        all_digit_chars(s),
        spec_dec_chars_value(s.take(k)) > 65535,
    ensures
        spec_dec_chars_value(s) > 65535,
    decreases s.len() - k,
{
    if k < s.len() {
        assert(s.take(k + 1).drop_last() =~= s.take(k));
        assert(s.take(k + 1).last() == s[k]);
        assert(spec_dec_chars_value(s.take(k)) * 10 + (s[k] as int - 48) > 65535)
            by (nonlinear_arith)
            requires
                spec_dec_chars_value(s.take(k)) > 65535,
                s[k] as int >= 48,
        ;
        lemma_digit_chars_value_grows(s, k + 1);
    } else {
        assert(s.take(k) =~= s);
    }
}

/// What `host[:port]` splits to: when the last colon is followed by a
/// valid port, the text before it and that port; else the whole input
/// and the default.
pub open spec fn spec_split_host_port(s: Seq<char>, d: u16) -> (Seq<char>, int) {
    match spec_rfind_char(s, ':') {
        Some(i) => {
            let pp = s.subrange(i + 1, s.len() as int);
            if pp.len() > 0 && all_digit_chars(pp) && spec_dec_chars_value(pp) <= 65535 {
                (s.subrange(0, i), spec_dec_chars_value(pp))
            } else {
                (s, d as int)
            }
        },
        None => (s, d as int),
    }
}

/// Split `host[:port]`: when the text after the last colon is a valid
/// port it is taken, else the whole input is the host and the default
/// port applies.
pub fn split_host_and_port(input: &str, default_port: u16) -> (r: (String, u16))
    ensures
        r.0@ == spec_split_host_port(input@, default_port).0,
        r.1 as int == spec_split_host_port(input@, default_port).1,
{
    match rfind_char(input, ':') {
        Some(i) => {
            let n = input.unicode_len();
            match parse_port_chars(input, i + 1, n) {
                Some(p) => {
                    let host = input.substring_char(0, i).to_owned();
                    (host, p)
                },
                None => (input.to_owned(), default_port),
            }
        },
        None => (input.to_owned(), default_port),
    }
}

/// First occurrence of `c` at or after `from`.
pub open spec fn spec_find_char(s: Seq<char>, c: char, from: int) -> Option<int>
    decreases s.len() - from,
{
    if from < 0 || from >= s.len() {
        None
    } else if s[from] == c {
        Some(from)
    } else {
        spec_find_char(s, c, from + 1)
    }
}

/// Split an absolute-form target after its scheme prefix: the authority
/// up to the first slash, and the path from it (or `/` when absent).
pub fn split_absolute_target(target: &str, scheme: RequestScheme) -> (r: (String, String))
    requires
        scheme == RequestScheme::Http ==> target@.len() >= 7,
        scheme == RequestScheme::Https ==> target@.len() >= 8,
    ensures
        ({
            let skip: int = if scheme == RequestScheme::Http {
                7
            } else {
                8
            };
            match spec_find_char(target@, '/', skip) {
                Some(i) => r.0@ == target@.subrange(skip, i) && r.1@ == target@.subrange(
                    i,
                    target@.len() as int,
                ),
                None => r.0@ == target@.subrange(skip, target@.len() as int) && r.1@ == "/"@,
            }
        }),
{
    let skip: usize = match scheme {
        RequestScheme::Http => 7,
        RequestScheme::Https => 8,
    };
    let n = target.unicode_len();
    let mut i: usize = skip;
    while i < n
        invariant
            skip <= i <= n,
            n == target@.len(),
            skip as int == (if scheme == RequestScheme::Http {
                7int
            } else {
                8int
            }),
            spec_find_char(target@, '/', skip as int) == spec_find_char(target@, '/', i as int),
        decreases n - i,
    {
        if target.get_char(i) == '/' {
            proof {
                assert(spec_find_char(target@, '/', i as int) == Some(i as int));
            }
            let authority = target.substring_char(skip, i).to_owned();
            let path = target.substring_char(i, n).to_owned();
            return (authority, path);
        }
        i += 1;
    }
    let authority = target.substring_char(skip, n).to_owned();
    let path: String = "/".to_owned();
    (authority, path)
}

} // verus!
