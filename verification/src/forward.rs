//! Forwarding decisions and wire serialization for the request path:
//! hop-by-hop header rewrites, keep-alive, WebSocket upgrade detection,
//! and the exact bytes (as characters) written upstream or to the client.

use vstd::prelude::*;

verus! {

use vstd::string::StringExecFns;
use vstd::string::StringSliceAdditionalSpecFns;
use vstd::utf8::encode_utf8;
use crate::headers::header_value;
use crate::method::HttpMethod;
use crate::numfmt::spec_dec_chars;
use crate::text::{contains_ci, eq_ci, str_bytes, str_contains_ci, str_eq_ci};

/// A header as its pair of character sequences.
pub type HdrView = (Seq<char>, Seq<char>);

/// The views of a header list.
pub open spec fn hdr_views(hs: Seq<(String, String)>) -> Seq<HdrView> {
    hs.map_values(|h: (String, String)| (h.0@, h.1@))
}

/// The header name equals the literal, up to ASCII case, at view level.
pub open spec fn view_name_is(h: HdrView, name: &str) -> bool {
    eq_ci(encode_utf8(h.0), str_bytes(name))
}

/// What one inbound header contributes to the outbound head:
/// `Connection` keeps its name but its value becomes `close`,
/// `Proxy-Connection` and `Keep-Alive` are dropped, everything else
/// passes unchanged.
pub open spec fn spec_strip_one(h: HdrView) -> Seq<HdrView> {
    if view_name_is(h, "connection") {
        seq![(h.0, "close"@)]
    } else if view_name_is(h, "proxy-connection") || view_name_is(h, "keep-alive") {
        Seq::empty()
    } else {
        seq![h]
    }
}

/// The hop-by-hop rewrite applied across a header list, in order.
pub open spec fn spec_strip_hop(hs: Seq<HdrView>) -> Seq<HdrView>
    decreases hs.len(),
{
    if hs.len() == 0 {
        Seq::empty()
    } else {
        spec_strip_hop(hs.drop_last()) + spec_strip_one(hs.last())
    }
}

/// Some header of the list bears this name, at view level.
pub open spec fn spec_views_have(hs: Seq<HdrView>, name: &str) -> bool {
    exists|j: int| 0 <= j < hs.len() && view_name_is(#[trigger] hs[j], name)
}

/// The sanitized outbound header list: hop-by-hop rewrites applied, and a
/// `Connection: close` appended when the request had no `Connection`.
pub open spec fn spec_sanitized(hs: Seq<HdrView>) -> Seq<HdrView> {
    if spec_views_have(hs, "connection") {
        spec_strip_hop(hs)
    } else {
        spec_strip_hop(hs) + seq![("Connection"@, "close"@)]
    }
}

/// Rewrite a request's headers for forwarding. The result is exactly the
/// sanitized image of the input.
pub fn sanitize_request_headers(headers: &Vec<(String, String)>) -> (r: Vec<(String, String)>)
    ensures
        hdr_views(r@) == spec_sanitized(hdr_views(headers@)),
{
    let mut out: Vec<(String, String)> = Vec::new();
    let mut has_conn: bool = false;
    let mut i: usize = 0;
    while i < headers.len()
        invariant
            i <= headers@.len(),
            hdr_views(out@) == spec_strip_hop(hdr_views(headers@.take(i as int))),
            has_conn == spec_views_have(hdr_views(headers@.take(i as int)), "connection"),
        decreases headers@.len() - i,
    {
        let ghost pviews = hdr_views(headers@.take(i as int));
        let ghost hview = (headers@[i as int].0@, headers@[i as int].1@);
        let is_conn = str_eq_ci(headers[i].0.as_str(), "connection");
        let is_pc = str_eq_ci(headers[i].0.as_str(), "proxy-connection");
        let is_ka = str_eq_ci(headers[i].0.as_str(), "keep-alive");
        if is_conn {
            out.push((headers[i].0.clone(), "close".to_owned()));
            has_conn = true;
        } else if is_pc || is_ka {
        } else {
            out.push((headers[i].0.clone(), headers[i].1.clone()));
        }
        proof {
            let nviews = hdr_views(headers@.take(i + 1));
            assert(nviews.drop_last() =~= pviews);
            assert(nviews.last() == hview);
            assert(hdr_views(out@) =~= spec_strip_hop(pviews) + spec_strip_one(hview));
            assert(spec_views_have(nviews, "connection") == (spec_views_have(
                pviews,
                "connection",
            ) || view_name_is(hview, "connection"))) by {
                if spec_views_have(pviews, "connection") {
                    let j = choose|j: int|
                        0 <= j < pviews.len() && view_name_is(#[trigger] pviews[j], "connection");
                    assert(nviews[j] == pviews[j]);
                }
                if view_name_is(hview, "connection") {
                    assert(nviews[i as int] == hview);
                }
                if spec_views_have(nviews, "connection") {
                    let j = choose|j: int|
                        0 <= j < nviews.len() && view_name_is(#[trigger] nviews[j], "connection");
                    if j < i {
                        assert(pviews[j] == nviews[j]);
                    }
                }
            }
        }
        i += 1;
    }
    proof {
        assert(headers@.take(headers@.len() as int) =~= headers@);
    }
    if !has_conn {
        out.push(("Connection".to_owned(), "close".to_owned()));
        proof {
            assert(hdr_views(out@) =~= spec_strip_hop(hdr_views(headers@)) + seq![
                ("Connection"@, "close"@),
            ]);
        }
    }
    out
}

/// The hop-by-hop rewrite leaves no `Proxy-Connection` or `Keep-Alive`
/// header, gives every `Connection` header the value `close`, and the
/// sanitized list always carries a `Connection` header.
pub proof fn lemma_sanitized_normal_form(hs: Seq<HdrView>)
    ensures
        forall|j: int|
            0 <= j < spec_sanitized(hs).len() ==> !view_name_is(
                #[trigger] spec_sanitized(hs)[j],
                "proxy-connection",
            ),
        forall|j: int|
            0 <= j < spec_sanitized(hs).len() ==> !view_name_is(
                #[trigger] spec_sanitized(hs)[j],
                "keep-alive",
            ),
        forall|j: int|
            0 <= j < spec_sanitized(hs).len() && view_name_is(
                #[trigger] spec_sanitized(hs)[j],
                "connection",
            ) ==> spec_sanitized(hs)[j].1 == "close"@,
        spec_views_have(spec_sanitized(hs), "connection"),
{
    lemma_connection_literals();
    lemma_strip_hop_normal_form(hs);
    if spec_views_have(hs, "connection") {
        lemma_strip_hop_keeps_connection(hs);
    } else {
        let s = spec_sanitized(hs);
        let n = spec_strip_hop(hs).len() as int;
        assert(view_name_is(s[n], "connection"));
        assert(spec_views_have(s, "connection"));
    }
}

/// Concrete facts about the hop-by-hop header names: `Connection` folds
/// to `connection`, which differs from `proxy-connection` (in length) and
/// from `keep-alive` (in its first byte).
proof fn lemma_connection_literals()
    ensures
        eq_ci(str_bytes("Connection"), str_bytes("connection")),
        !eq_ci(str_bytes("connection"), str_bytes("proxy-connection")),
        !eq_ci(str_bytes("connection"), str_bytes("keep-alive")),
{
    reveal_strlit("Connection");
    reveal_strlit("connection");
    reveal_strlit("proxy-connection");
    reveal_strlit("keep-alive");
    broadcast use vstd::string::is_ascii_spec_bytes;

    assert("Connection".is_ascii());
    assert("connection".is_ascii());
    assert("proxy-connection".is_ascii());
    assert("keep-alive".is_ascii());
    assert(str_bytes("Connection").len() == 10);
    assert(str_bytes("connection").len() == 10);
    assert(str_bytes("proxy-connection").len() == 16);
    assert(str_bytes("keep-alive").len() == 10);
    let a = crate::text::lower_bytes(str_bytes("Connection"));
    let b = crate::text::lower_bytes(str_bytes("connection"));
    let k = crate::text::lower_bytes(str_bytes("keep-alive"));
    assert forall|j: int| 0 <= j < 10 implies a[j] == b[j] by {
        assert(str_bytes("Connection")[j] == ("Connection"@[j] as u8));
        assert(str_bytes("connection")[j] == ("connection"@[j] as u8));
    }
    assert(a =~= b);
    assert(str_bytes("connection")[0] == ('c' as u8));
    assert(str_bytes("keep-alive")[0] == ('k' as u8));
    assert(b[0] == 99);
    assert(k[0] == 107);
}

proof fn lemma_strip_hop_normal_form(hs: Seq<HdrView>)
    ensures
        forall|j: int|
            0 <= j < spec_strip_hop(hs).len() ==> !view_name_is(
                #[trigger] spec_strip_hop(hs)[j],
                "proxy-connection",
            ),
        forall|j: int|
            0 <= j < spec_strip_hop(hs).len() ==> !view_name_is(
                #[trigger] spec_strip_hop(hs)[j],
                "keep-alive",
            ),
        forall|j: int|
            0 <= j < spec_strip_hop(hs).len() && view_name_is(
                #[trigger] spec_strip_hop(hs)[j],
                "connection",
            ) ==> spec_strip_hop(hs)[j].1 == "close"@,
    decreases hs.len(),
{
    lemma_connection_literals();
    if hs.len() > 0 {
        lemma_strip_hop_normal_form(hs.drop_last());
        let s = spec_strip_hop(hs);
        let prev = spec_strip_hop(hs.drop_last());
        let one = spec_strip_one(hs.last());
        assert forall|j: int| 0 <= j < s.len() implies {
            &&& !view_name_is(#[trigger] s[j], "proxy-connection")
            &&& !view_name_is(s[j], "keep-alive")
            &&& (view_name_is(s[j], "connection") ==> s[j].1 == "close"@)
        } by {
            if j < prev.len() {
                assert(s[j] == prev[j]);
            } else {
                assert(s[j] == one[j - prev.len()]);
            }
        }
    }
}

proof fn lemma_strip_hop_keeps_connection(hs: Seq<HdrView>)
    requires
        spec_views_have(hs, "connection"),
    ensures
        spec_views_have(spec_strip_hop(hs), "connection"),
    decreases hs.len(),
{
    let j = choose|j: int| 0 <= j < hs.len() && view_name_is(#[trigger] hs[j], "connection");
    let prev = spec_strip_hop(hs.drop_last());
    if j == hs.len() - 1 {
        let one = spec_strip_one(hs.last());
        assert(one.len() == 1 && view_name_is(one[0], "connection"));
        assert(spec_strip_hop(hs)[prev.len() as int] == one[0]);
    } else {
        assert(hs.drop_last()[j] == hs[j]);
        lemma_strip_hop_keeps_connection(hs.drop_last());
        let k = choose|k: int|
            0 <= k < prev.len() && view_name_is(#[trigger] prev[k], "connection");
        assert(spec_strip_hop(hs)[k] == prev[k]);
    }
}

/// Whether an HTTP/1.x connection stays open after this exchange: an
/// explicit `Connection: close` closes it, an explicit `keep-alive` keeps
/// it, and otherwise the version decides (1.1 keeps alive).
pub open spec fn spec_keep_alive(version: Seq<char>, conn: Option<String>) -> bool {
    match conn {
        Some(v) => {
            if eq_ci(encode_utf8(v@), str_bytes("close")) {
                false
            } else if eq_ci(encode_utf8(v@), str_bytes("keep-alive")) {
                true
            } else {
                contains_ci(encode_utf8(version), str_bytes("1.1"))
            }
        },
        None => contains_ci(encode_utf8(version), str_bytes("1.1")),
    }
}

/// Decide keep-alive from the version token and the headers.
pub fn should_keep_alive(version: &str, headers: &Vec<(String, String)>) -> (r: bool)
    ensures
        r == spec_keep_alive(
            version@,
            crate::headers::spec_value_of(headers@, str_bytes("connection")),
        ),
{
    let conn = header_value(headers, "connection");
    match conn {
        Some(v) => {
            if str_eq_ci(v.as_str(), "close") {
                false
            } else if str_eq_ci(v.as_str(), "keep-alive") {
                true
            } else {
                str_contains_ci(version, "1.1")
            }
        },
        None => str_contains_ci(version, "1.1"),
    }
}

/// A request asks for a WebSocket upgrade when it is a GET whose
/// `Upgrade` header says `websocket` and whose `Connection` header
/// mentions `upgrade`.
pub fn is_websocket_upgrade(method: HttpMethod, headers: &Vec<(String, String)>) -> (r: bool)
    ensures
        r ==> method == HttpMethod::Get,
        r == (method == HttpMethod::Get && (match crate::headers::spec_value_of(
            headers@,
            str_bytes("upgrade"),
        ) {
            Some(v) => eq_ci(encode_utf8(v@), str_bytes("websocket")),
            None => false,
        }) && (match crate::headers::spec_value_of(headers@, str_bytes("connection")) {
            Some(v) => contains_ci(encode_utf8(v@), str_bytes("upgrade")),
            None => false,
        })),
{
    if method != HttpMethod::Get {
        return false;
    }
    let up = match header_value(headers, "upgrade") {
        Some(v) => str_eq_ci(v.as_str(), "websocket"),
        None => false,
    };
    if !up {
        return false;
    }
    match header_value(headers, "connection") {
        Some(v) => str_contains_ci(v.as_str(), "upgrade"),
        None => false,
    }
}

/// The serialized header block: each header as `name: value` and CRLF.
pub open spec fn spec_headers_chars(hs: Seq<HdrView>) -> Seq<char>
    decreases hs.len(),
{
    if hs.len() == 0 {
        Seq::empty()
    } else {
        spec_headers_chars(hs.drop_last()) + hs.last().0 + ": "@ + hs.last().1 + "\r\n"@
    }
}

/// The serialized request head: request line, header block, blank line.
pub open spec fn spec_request_head_chars(
    method_name: Seq<char>,
    path: Seq<char>,
    version: Seq<char>,
    hs: Seq<HdrView>,
) -> Seq<char> {
    method_name + " "@ + path + " "@ + version + "\r\n"@ + spec_headers_chars(hs) + "\r\n"@
}

/// Serialize a request head for the upstream, headers as given.
pub fn serialize_request_head(
    method: HttpMethod,
    path: &str,
    version: &str,
    headers: &Vec<(String, String)>,
) -> (r: String)
    ensures
        r@ == spec_request_head_chars(
            method.name_chars(),
            path@,
            version@,
            hdr_views(headers@),
        ),
{
    let mut s: String = method.as_str().to_owned();
    s.append(" ");
    s.append(path);
    s.append(" ");
    s.append(version);
    s.append("\r\n");
    let mut i: usize = 0;
    while i < headers.len()
        invariant
            i <= headers@.len(),
            s@ == method.name_chars() + " "@ + path@ + " "@ + version@ + "\r\n"@
                + spec_headers_chars(hdr_views(headers@.take(i as int))),
        decreases headers@.len() - i,
    {
        let ghost pviews = hdr_views(headers@.take(i as int));
        s.append(headers[i].0.as_str());
        s.append(": ");
        s.append(headers[i].1.as_str());
        s.append("\r\n");
        proof {
            let nviews = hdr_views(headers@.take(i + 1));
            assert(nviews.drop_last() =~= pviews);
            assert(nviews.last() == (headers@[i as int].0@, headers@[i as int].1@));
            assert(s@ =~= method.name_chars() + " "@ + path@ + " "@ + version@ + "\r\n"@
                + spec_headers_chars(nviews));
        }
        i += 1;
    }
    proof {
        assert(headers@.take(headers@.len() as int) =~= headers@);
    }
    s.append("\r\n");
    proof {
        assert(s@ =~= spec_request_head_chars(
            method.name_chars(),
            path@,
            version@,
            hdr_views(headers@),
        ));
    }
    s
}

/// The plain-text error response the proxy writes for a status: status
/// line, exact `Content-Length`, `Connection: close`, and the body.
pub open spec fn spec_status_response_chars(
    code: int,
    message: Seq<char>,
    body: Seq<char>,
    body_byte_len: int,
) -> Seq<char> {
    "HTTP/1.1 "@ + spec_dec_chars(code) + " "@ + message + "\r\nContent-Length: "@
        + spec_dec_chars(body_byte_len) + "\r\nConnection: close\r\nContent-Type: text/plain\r\n\r\n"@
        + body
}

/// Serialize a plain status response, e.g. `502 Bad Gateway`.
pub fn build_status_response(code: u16, message: &str, body: &str) -> (r: String)
    ensures
        r@ == spec_status_response_chars(
            code as int,
            message@,
            body@,
            (str_bytes(body).len() as usize) as int,
        ),
{
    let mut s: String = "HTTP/1.1 ".to_owned();
    s.append(crate::numfmt::u64_to_dec(code as u64).as_str());
    s.append(" ");
    s.append(message);
    s.append("\r\nContent-Length: ");
    s.append(crate::numfmt::usize_to_dec(body.len()).as_str());
    s.append("\r\nConnection: close\r\nContent-Type: text/plain\r\n\r\n");
    s.append(body);
    proof {
        assert(s@ =~= spec_status_response_chars(
            code as int,
            message@,
            body@,
            (str_bytes(body).len() as usize) as int,
        ));
    }
    s
}

} // verus!
