//! The HTTP/1.1 to HTTP/2 bridge: header sanitization in both
//! directions, the `:authority` value, and the HTTP/1.1 status line
//! written back downstream.

use vstd::prelude::*;

verus! {

use vstd::string::StringExecFns;
use vstd::utf8::encode_utf8;
use crate::forward::{hdr_views, view_name_is, HdrView};
use crate::numfmt::spec_dec_chars;
use crate::target::RequestScheme;
use crate::text::{eq_ci, str_bytes, str_eq_ci};

/// Whether a request header survives translation onto an HTTP/2 stream:
/// the connection-oriented names and `Host` are dropped, and `TE` only
/// survives with the value `trailers`.
pub open spec fn h2_request_keep(h: HdrView) -> bool {
    if view_name_is(h, "connection") || view_name_is(h, "keep-alive") || view_name_is(
        h,
        "proxy-connection",
    ) || view_name_is(h, "upgrade") || view_name_is(h, "transfer-encoding") || view_name_is(
        h,
        "expect",
    ) || view_name_is(h, "host") {
        false
    } else if view_name_is(h, "te") {
        eq_ci(encode_utf8(h.1), str_bytes("trailers"))
    } else {
        true
    }
}

/// Whether a response header may be written back as HTTP/1.1 from an
/// HTTP/2 response: the connection-oriented names are dropped.
pub open spec fn h2_response_keep(h: HdrView) -> bool {
    !(view_name_is(h, "transfer-encoding") || view_name_is(h, "connection") || view_name_is(
        h,
        "keep-alive",
    ) || view_name_is(h, "proxy-connection") || view_name_is(h, "upgrade"))
}

/// Drop the headers that may not cross onto an HTTP/2 stream.
pub fn sanitize_h2_request_headers(headers: &Vec<(String, String)>) -> (r: Vec<(String, String)>)
    ensures
        hdr_views(r@) == hdr_views(headers@).filter(|h: HdrView| h2_request_keep(h)),
{
    broadcast use vstd::seq_lib::group_filter_ensures;

    let ghost pred = |h: HdrView| h2_request_keep(h);
    let mut out: Vec<(String, String)> = Vec::new();
    let mut i: usize = 0;
    while i < headers.len()
        invariant
            i <= headers@.len(),
            pred == (|h: HdrView| h2_request_keep(h)),
            hdr_views(out@) == hdr_views(headers@.take(i as int)).filter(pred),
        decreases headers@.len() - i,
    {
        let ghost pviews = hdr_views(headers@.take(i as int));
        let ghost hview = (headers@[i as int].0@, headers@[i as int].1@);
        let name = headers[i].0.as_str();
        let drop = str_eq_ci(name, "connection") || str_eq_ci(name, "keep-alive") || str_eq_ci(
            name,
            "proxy-connection",
        ) || str_eq_ci(name, "upgrade") || str_eq_ci(name, "transfer-encoding") || str_eq_ci(
            name,
            "expect",
        ) || str_eq_ci(name, "host");
        let keep = if drop {
            false
        } else if str_eq_ci(name, "te") {
            str_eq_ci(headers[i].1.as_str(), "trailers")
        } else {
            true
        };
        if keep {
            out.push((headers[i].0.clone(), headers[i].1.clone()));
        }
        proof {
            let nviews = hdr_views(headers@.take(i + 1));
            assert(nviews =~= pviews.push(hview));
            pviews.lemma_filter_push(hview, pred);
            assert(hdr_views(out@) =~= nviews.filter(pred));
        }
        i += 1;
    }
    proof {
        assert(headers@.take(headers@.len() as int) =~= headers@);
    }
    out
}

/// Drop the HTTP/2-forbidden response headers before writing an
/// HTTP/1.1 head downstream.
pub fn sanitize_h2_response_headers(headers: &Vec<(String, String)>) -> (r: Vec<(String, String)>)
    ensures
        hdr_views(r@) == hdr_views(headers@).filter(|h: HdrView| h2_response_keep(h)),
{
    broadcast use vstd::seq_lib::group_filter_ensures;

    let ghost pred = |h: HdrView| h2_response_keep(h);
    let mut out: Vec<(String, String)> = Vec::new();
    let mut i: usize = 0;
    while i < headers.len()
        invariant
            i <= headers@.len(),
            pred == (|h: HdrView| h2_response_keep(h)),
            hdr_views(out@) == hdr_views(headers@.take(i as int)).filter(pred),
        decreases headers@.len() - i,
    {
        let ghost pviews = hdr_views(headers@.take(i as int));
        let ghost hview = (headers@[i as int].0@, headers@[i as int].1@);
        let name = headers[i].0.as_str();
        let drop = str_eq_ci(name, "transfer-encoding") || str_eq_ci(name, "connection")
            || str_eq_ci(name, "keep-alive") || str_eq_ci(name, "proxy-connection") || str_eq_ci(
            name,
            "upgrade",
        );
        if !drop {
            out.push((headers[i].0.clone(), headers[i].1.clone()));
        }
        proof {
            let nviews = hdr_views(headers@.take(i + 1));
            assert(nviews =~= pviews.push(hview));
            pviews.lemma_filter_push(hview, pred);
            assert(hdr_views(out@) =~= nviews.filter(pred));
        }
        i += 1;
    }
    proof {
        assert(headers@.take(headers@.len() as int) =~= headers@);
    }
    out
}

/// No header translated onto an HTTP/2 stream is connection-oriented:
/// whatever `sanitize_h2_request_headers` returns holds none of the
/// dropped names.
pub proof fn lemma_h2_request_headers_clean(hs: Seq<HdrView>, f: Seq<HdrView>)
    requires
        f == hs.filter(|h: HdrView| h2_request_keep(h)),
    ensures
        forall|j: int|
            0 <= j < f.len() ==> {
                let h = #[trigger] f[j];
                &&& !view_name_is(h, "connection")
                &&& !view_name_is(h, "keep-alive")
                &&& !view_name_is(h, "proxy-connection")
                &&& !view_name_is(h, "upgrade")
                &&& !view_name_is(h, "transfer-encoding")
                &&& !view_name_is(h, "expect")
                &&& !view_name_is(h, "host")
            },
{
    broadcast use vstd::seq_lib::group_filter_ensures;

    let pred = |h: HdrView| h2_request_keep(h);
    assert forall|j: int| 0 <= j < f.len() implies pred(#[trigger] f[j]) by {
        hs.lemma_filter_pred(pred, j);
    }
}

/// The `:authority` of a target: the host, with the scheme's default
/// port omitted.
pub fn authority_for(host: &str, port: u16, scheme: RequestScheme) -> (r: String)
    ensures
        port == scheme.spec_default_port() ==> r@ == host@,
        port != scheme.spec_default_port() ==> r@ == host@ + ":"@ + spec_dec_chars(port as int),
{
    let dp = scheme.default_port();
    if port == dp {
        host.to_owned()
    } else {
        let mut s: String = host.to_owned();
        s.append(":");
        s.append(crate::numfmt::u64_to_dec(port as u64).as_str());
        s
    }
}

/// The canonical reason phrase of a status code.
pub open spec fn spec_reason_chars(code: u16) -> Seq<char> {
    if code == 100 {
        "Continue"@
    } else if code == 101 {
        "Switching Protocols"@
    } else if code == 200 {
        "OK"@
    } else if code == 201 {
        "Created"@
    } else if code == 202 {
        "Accepted"@
    } else if code == 204 {
        "No Content"@
    } else if code == 206 {
        "Partial Content"@
    } else if code == 301 {
        "Moved Permanently"@
    } else if code == 302 {
        "Found"@
    } else if code == 303 {
        "See Other"@
    } else if code == 304 {
        "Not Modified"@
    } else if code == 307 {
        "Temporary Redirect"@
    } else if code == 308 {
        "Permanent Redirect"@
    } else if code == 400 {
        "Bad Request"@
    } else if code == 401 {
        "Unauthorized"@
    } else if code == 403 {
        "Forbidden"@
    } else if code == 404 {
        "Not Found"@
    } else if code == 405 {
        "Method Not Allowed"@
    } else if code == 408 {
        "Request Timeout"@
    } else if code == 409 {
        "Conflict"@
    } else if code == 410 {
        "Gone"@
    } else if code == 411 {
        "Length Required"@
    } else if code == 412 {
        "Precondition Failed"@
    } else if code == 413 {
        "Payload Too Large"@
    } else if code == 414 {
        "URI Too Long"@
    } else if code == 415 {
        "Unsupported Media Type"@
    } else if code == 429 {
        "Too Many Requests"@
    } else if code == 500 {
        "Internal Server Error"@
    } else if code == 501 {
        "Not Implemented"@
    } else if code == 502 {
        "Bad Gateway"@
    } else if code == 503 {
        "Service Unavailable"@
    } else if code == 504 {
        "Gateway Timeout"@
    } else {
        "Unknown"@
    }
}

/// The canonical reason phrase of a status code.
pub fn reason_phrase(code: u16) -> (r: &'static str)
    ensures
        r@ == spec_reason_chars(code),
{
    if code == 100 {
        "Continue"
    } else if code == 101 {
        "Switching Protocols"
    } else if code == 200 {
        "OK"
    } else if code == 201 {
        "Created"
    } else if code == 202 {
        "Accepted"
    } else if code == 204 {
        "No Content"
    } else if code == 206 {
        "Partial Content"
    } else if code == 301 {
        "Moved Permanently"
    } else if code == 302 {
        "Found"
    } else if code == 303 {
        "See Other"
    } else if code == 304 {
        "Not Modified"
    } else if code == 307 {
        "Temporary Redirect"
    } else if code == 308 {
        "Permanent Redirect"
    } else if code == 400 {
        "Bad Request"
    } else if code == 401 {
        "Unauthorized"
    } else if code == 403 {
        "Forbidden"
    } else if code == 404 {
        "Not Found"
    } else if code == 405 {
        "Method Not Allowed"
    } else if code == 408 {
        "Request Timeout"
    } else if code == 409 {
        "Conflict"
    } else if code == 410 {
        "Gone"
    } else if code == 411 {
        "Length Required"
    } else if code == 412 {
        "Precondition Failed"
    } else if code == 413 {
        "Payload Too Large"
    } else if code == 414 {
        "URI Too Long"
    } else if code == 415 {
        "Unsupported Media Type"
    } else if code == 429 {
        "Too Many Requests"
    } else if code == 500 {
        "Internal Server Error"
    } else if code == 501 {
        "Not Implemented"
    } else if code == 502 {
        "Bad Gateway"
    } else if code == 503 {
        "Service Unavailable"
    } else if code == 504 {
        "Gateway Timeout"
    } else {
        "Unknown"
    }
}

/// The HTTP/1.1 status line written downstream for an HTTP/2 response,
/// with the canonical reason phrase.
pub fn build_h1_status_line(code: u16) -> (r: String)
    ensures
        r@ == "HTTP/1.1 "@ + spec_dec_chars(code as int) + " "@ + spec_reason_chars(code)
            + "\r\n"@,
{
    let mut s: String = "HTTP/1.1 ".to_owned();
    s.append(crate::numfmt::u64_to_dec(code as u64).as_str());
    s.append(" ");
    s.append(reason_phrase(code));
    s.append("\r\n");
    s
}

} // verus!
