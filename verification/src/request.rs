//! The parsed request that flows through the data plane, and the edits a
//! breakpoint can apply to it.

use vstd::prelude::*;

verus! {

use vstd::string::StringSliceAdditionalSpecFns;
use crate::headers::{
    header_matches,
    set_header,
    remove_header,
    spec_find_result,
    spec_first_match,
    spec_no_header,
    string_bytes,
};
use crate::method::HttpMethod;
use crate::numfmt::spec_dec_chars;
use crate::text::str_bytes;

/// Hard cap on inbound request bodies: 32 MiB.
pub const MAX_REQUEST_BODY_BYTES: usize = 33554432;

/// How the request body is framed.
#[derive(Debug, Clone)]
pub enum RequestBodyKind {
    /// No body.
    NoBody,
    /// A fixed-length body of `length` bytes.
    ContentLength { length: usize },
    /// A chunked body.
    Chunked,
    /// A body replaced by a breakpoint edit.
    Edited { data: Vec<u8> },
}

impl RequestBodyKind {
    /// The buffered length of the body: the declared length for a
    /// fixed-length body, the edited bytes' length for an edited one,
    /// zero otherwise.
    pub open spec fn spec_len(self) -> int {
        match self {
            RequestBodyKind::NoBody => 0,
            RequestBodyKind::ContentLength { length } => length as int,
            RequestBodyKind::Chunked => 0,
            RequestBodyKind::Edited { data } => data@.len() as int,
        }
    }

    /// The buffered length of the body.
    pub fn len(&self) -> (r: usize)
        ensures
            r == self.spec_len(),
    {
        match self {
            RequestBodyKind::NoBody => 0,
            RequestBodyKind::ContentLength { length } => *length,
            RequestBodyKind::Chunked => 0,
            RequestBodyKind::Edited { data } => data.len(),
        }
    }
}

/// Request edits applied when resuming a breakpoint.
#[derive(Debug, Clone)]
pub struct RequestEdit {
    /// Replace the method.
    pub method: Option<HttpMethod>,
    /// Replace the path.
    pub path: Option<String>,
    /// Replace the whole header list.
    pub headers: Option<Vec<(String, String)>>,
    /// Replace the buffered body.
    pub body: Option<Vec<u8>>,
}

impl RequestEdit {
    /// An edit that changes nothing.
    pub open spec fn spec_is_empty(self) -> bool {
        self.method is None && self.path is None && self.headers is None && self.body is None
    }

    /// Whether the edit changes nothing.
    pub fn is_empty(&self) -> (r: bool)
        ensures
            r == self.spec_is_empty(),
    {
        self.method.is_none() && self.path.is_none() && self.headers.is_none()
            && self.body.is_none()
    }
}

impl Default for RequestEdit {
    /// The empty edit.
    fn default() -> (r: RequestEdit)
        ensures
            r.spec_is_empty(),
    {
        RequestEdit { method: None, path: None, headers: None, body: None }
    }
}

/// A parsed HTTP request with everything forwarding and capture need.
#[derive(Debug, Clone)]
pub struct ParsedRequest {
    /// HTTP method.
    pub method: HttpMethod,
    /// `http` or `https`.
    pub scheme: String,
    /// Target host.
    pub host: String,
    /// Target port.
    pub port: u16,
    /// Path including the query string.
    pub path: String,
    /// Version token, e.g. `HTTP/1.1`.
    pub version: String,
    /// Headers in wire order; lookups fold ASCII case.
    pub header_list: Vec<(String, String)>,
    /// How the body is framed.
    pub body_kind: RequestBodyKind,
    /// Body bytes already read past the head.
    pub buffered_body: Vec<u8>,
}

/// Two literals the edit logic rewrites never name the same header:
/// `Content-Length` and `transfer-encoding` differ in length.
proof fn lemma_cl_not_te()
    ensures
        !crate::text::eq_ci(str_bytes("Content-Length"), str_bytes("transfer-encoding")),
{
    reveal_strlit("Content-Length");
    reveal_strlit("transfer-encoding");
    broadcast use vstd::string::is_ascii_spec_bytes;

    assert("Content-Length".is_ascii());
    assert("transfer-encoding".is_ascii());
    assert(str_bytes("Content-Length").len() == 14);
    assert(str_bytes("transfer-encoding").len() == 17);
    assert(crate::text::lower_bytes(str_bytes("Content-Length")).len() == 14);
    assert(crate::text::lower_bytes(str_bytes("transfer-encoding")).len() == 17);
}

impl ParsedRequest {
    /// Rewrite the body framing after an edit set the body: the body
    /// becomes `Edited` with the given bytes, `Transfer-Encoding`
    /// disappears, and `Content-Length` holds the new length in decimal.
    fn replace_body(&mut self, data: Vec<u8>)
        ensures
            final(self).method == old(self).method,
            final(self).scheme == old(self).scheme,
            final(self).host == old(self).host,
            final(self).port == old(self).port,
            final(self).path == old(self).path,
            final(self).version == old(self).version,
            final(self).body_kind == (RequestBodyKind::Edited { data }),
            final(self).buffered_body@.len() == 0,
            spec_no_header(final(self).header_list@, str_bytes("transfer-encoding")),
            exists|i: int|
                #[trigger] spec_first_match(
                    final(self).header_list@,
                    str_bytes("Content-Length"),
                    i,
                ) && final(self).header_list@[i].1@ == spec_dec_chars(data@.len() as int),
    {
        broadcast use vstd::seq_lib::group_filter_ensures;

        let len = data.len();
        self.body_kind = RequestBodyKind::Edited { data };
        self.buffered_body = Vec::new();
        remove_header(&mut self.header_list, "transfer-encoding");
        let ghost filtered = self.header_list@;
        proof {
            assert forall|j: int| 0 <= j < filtered.len() implies !header_matches(
                #[trigger] filtered[j],
                str_bytes("transfer-encoding"),
            ) by {
                old(self).header_list@.lemma_filter_pred(
                    |h: (String, String)| !header_matches(h, str_bytes("transfer-encoding")),
                    j,
                );
            }
        }
        let value = crate::numfmt::usize_to_dec(len);
        set_header(&mut self.header_list, "Content-Length", value);
        proof {
            lemma_cl_not_te();
            let cl = str_bytes("Content-Length");
            let te = str_bytes("transfer-encoding");
            match spec_find_result(filtered, cl) {
                Some(i) => {
                    assert(spec_first_match(filtered, cl, i as int));
                    assert(self.header_list@ == filtered.update(
                        i as int,
                        (filtered[i as int].0, value),
                    ));
                    assert(spec_first_match(self.header_list@, cl, i as int));
                    assert forall|j: int| 0 <= j < self.header_list@.len() implies !header_matches(
                        #[trigger] self.header_list@[j],
                        te,
                    ) by {
                        if j != i {
                            assert(self.header_list@[j] == filtered[j]);
                        } else {
                            assert(self.header_list@[j].0 == filtered[j].0);
                        }
                    }
                },
                None => {
                    assert(spec_no_header(filtered, cl));
                    let n = filtered.len() as int;
                    assert(self.header_list@.len() == n + 1);
                    assert(header_matches(self.header_list@[n], cl));
                    assert forall|j: int| 0 <= j < n implies !header_matches(
                        #[trigger] self.header_list@[j],
                        cl,
                    ) by {
                        assert(self.header_list@.subrange(0, n)[j] == self.header_list@[j]);
                    }
                    assert(spec_first_match(self.header_list@, cl, n));
                    assert forall|j: int| 0 <= j < self.header_list@.len() implies !header_matches(
                        #[trigger] self.header_list@[j],
                        te,
                    ) by {
                        if j < n {
                            assert(self.header_list@.subrange(0, n)[j] == self.header_list@[j]);
                        } else {
                            assert(string_bytes(self.header_list@[j].0) == cl);
                        }
                    }
                },
            }
        }
    }

    /// Apply a breakpoint edit: override method, path and headers when
    /// set; a body edit replaces the buffered body (truncated to the hard
    /// cap), drops `Transfer-Encoding` and rewrites `Content-Length`. The
    /// empty edit changes nothing.
    pub fn apply_edit(&mut self, edit: &RequestEdit)
        ensures
            edit.spec_is_empty() ==> *final(self) == *old(self),
            final(self).method == (match edit.method {
                Some(m) => m,
                None => old(self).method,
            }),
            final(self).path == (match edit.path {
                Some(ref p) => *p,
                None => old(self).path,
            }),
            final(self).scheme == old(self).scheme,
            final(self).host == old(self).host,
            final(self).port == old(self).port,
            final(self).version == old(self).version,
            edit.headers is None && edit.body is None ==> final(self).header_list
                == old(self).header_list && final(self).body_kind == old(self).body_kind
                && final(self).buffered_body == old(self).buffered_body,
            match edit.body {
                Some(ref b) => {
                    &&& spec_edited_with(
                        final(self).body_kind,
                        if b@.len() <= MAX_REQUEST_BODY_BYTES {
                            b@
                        } else {
                            b@.take(MAX_REQUEST_BODY_BYTES as int)
                        },
                    )
                    &&& final(self).body_kind.spec_len() <= MAX_REQUEST_BODY_BYTES
                    &&& final(self).body_kind.spec_len() == (if b@.len()
                        <= MAX_REQUEST_BODY_BYTES {
                        b@.len() as int
                    } else {
                        MAX_REQUEST_BODY_BYTES as int
                    })
                    &&& spec_no_header(final(self).header_list@, str_bytes("transfer-encoding"))
                    &&& (exists|i: int|
                        #[trigger] spec_first_match(
                            final(self).header_list@,
                            str_bytes("Content-Length"),
                            i,
                        ) && final(self).header_list@[i].1@ == spec_dec_chars(
                            final(self).body_kind.spec_len(),
                        ))
                },
                None => final(self).body_kind == old(self).body_kind,
            },
    {
        if let Some(m) = &edit.method {
            self.method = *m;
        }
        if let Some(p) = &edit.path {
            self.path = p.clone();
        }
        if let Some(hs) = &edit.headers {
            self.header_list = clone_headers(hs);
        }
        if let Some(b) = &edit.body {
            let data: Vec<u8> = if b.len() > MAX_REQUEST_BODY_BYTES {
                let mut t = b.clone();
                t.truncate(MAX_REQUEST_BODY_BYTES);
                t
            } else {
                b.clone()
            };
            self.replace_body(data);
        }
    }
}

/// The body kind is `Edited` and holds exactly these bytes.
pub open spec fn spec_edited_with(k: RequestBodyKind, bytes: Seq<u8>) -> bool {
    match k {
        RequestBodyKind::Edited { data } => data@ == bytes,
        _ => false,
    }
}

/// An exact copy of a header list.
pub fn clone_headers(hs: &Vec<(String, String)>) -> (r: Vec<(String, String)>)
    ensures
        r@ == hs@,
{
    let mut out: Vec<(String, String)> = Vec::new();
    let mut i: usize = 0;
    while i < hs.len()
        invariant
            i <= hs@.len(),
            out@ == hs@.subrange(0, i as int),
        decreases hs@.len() - i,
    {
        out.push((hs[i].0.clone(), hs[i].1.clone()));
        proof {
            assert(hs@.subrange(0, i + 1) =~= hs@.subrange(0, i as int).push(hs@[i as int]));
        }
        i += 1;
    }
    proof {
        assert(hs@.subrange(0, hs@.len() as int) =~= hs@);
    }
    out
}

/// Why an otherwise complete head cannot become a request.
#[derive(Debug, Clone, Copy, PartialEq, Eq, Structural)]
pub enum RequestError {
    /// The declared `Content-Length` exceeds the body cap.
    BodyTooLarge,
    /// No absolute-form target and no `Host` header.
    MissingHost,
}

/// Interpret a decoded head as a proxied request: reject oversize
/// bodies, special-case CONNECT, and resolve the target from the
/// absolute-form request line or the `Host` header.
pub fn from_head(
    head: crate::codec::Head,
    default_scheme: crate::target::RequestScheme,
    buffered_body: Vec<u8>,
) -> (r: Result<ParsedRequest, RequestError>)
    ensures
        ({
            let directive = crate::codec::spec_body_directive(
                head.headers@,
                MAX_REQUEST_BODY_BYTES as int,
            );
            let method = crate::method::spec_method_from(
                vstd::utf8::encode_utf8(head.f0@),
            );
            if directive == crate::codec::BodyDirective::TooLarge {
                r == Err::<ParsedRequest, RequestError>(RequestError::BodyTooLarge)
            } else if method == crate::method::HttpMethod::Connect {
                match r {
                    Err(_) => false,
                    Ok(p) => {
                        &&& p.method == crate::method::HttpMethod::Connect
                        &&& p.scheme@ == "https"@
                        &&& p.host@ == crate::target::spec_split_host_port(head.f1@, 443).0
                        &&& p.port as int == crate::target::spec_split_host_port(head.f1@, 443).1
                        &&& p.path@ == "/"@
                        &&& p.version == head.f2
                        &&& p.header_list@ == head.headers@
                        &&& p.body_kind == RequestBodyKind::NoBody
                        &&& p.buffered_body == buffered_body
                    },
                }
            } else {
                let is_http = crate::target::spec_has_prefix(head.f1@, "http://"@);
                let is_https = !is_http && crate::target::spec_has_prefix(head.f1@, "https://"@);
                let kind_ok = (match directive {
                    crate::codec::BodyDirective::NoBody => r is Ok
                        && r->Ok_0.body_kind == RequestBodyKind::NoBody,
                    crate::codec::BodyDirective::Chunked => r is Ok
                        && r->Ok_0.body_kind == RequestBodyKind::Chunked,
                    crate::codec::BodyDirective::Fixed(n) => r is Ok
                        && r->Ok_0.body_kind == (RequestBodyKind::ContentLength { length: n }),
                    crate::codec::BodyDirective::TooLarge => false,
                });
                if is_http || is_https {
                    let skip: int = if is_http {
                        7
                    } else {
                        8
                    };
                    let dp: u16 = if is_http {
                        80
                    } else {
                        443
                    };
                    let authority = (match crate::target::spec_find_char(head.f1@, '/', skip) {
                        Some(i) => head.f1@.subrange(skip, i),
                        None => head.f1@.subrange(skip, head.f1@.len() as int),
                    });
                    &&& kind_ok
                    &&& (match r {
                        Err(_) => false,
                        Ok(p) => {
                            &&& p.method == method
                            &&& (is_http ==> p.scheme@ == "http"@)
                            &&& (is_https ==> p.scheme@ == "https"@)
                            &&& p.host@ == crate::target::spec_split_host_port(authority, dp).0
                            &&& p.port as int == crate::target::spec_split_host_port(
                                authority,
                                dp,
                            ).1
                            &&& p.path@ == (match crate::target::spec_find_char(
                                head.f1@,
                                '/',
                                skip,
                            ) {
                                Some(i) => head.f1@.subrange(i, head.f1@.len() as int),
                                None => "/"@,
                            })
                            &&& p.version == head.f2
                            &&& p.header_list@ == head.headers@
                            &&& p.buffered_body == buffered_body
                        },
                    })
                } else {
                    match crate::headers::spec_value_of(
                        head.headers@,
                        crate::text::str_bytes("host"),
                    ) {
                        None => r == Err::<ParsedRequest, RequestError>(
                            RequestError::MissingHost,
                        ),
                        Some(hv) => {
                            &&& kind_ok
                            &&& (match r {
                                Err(_) => false,
                                Ok(p) => {
                                    &&& p.method == method
                                    &&& p.scheme@ == default_scheme.name_chars()
                                    &&& p.host@ == crate::target::spec_split_host_port(
                                        hv@,
                                        default_scheme.spec_default_port(),
                                    ).0
                                    &&& p.port as int == crate::target::spec_split_host_port(
                                        hv@,
                                        default_scheme.spec_default_port(),
                                    ).1
                                    &&& p.path == head.f1
                                    &&& p.version == head.f2
                                    &&& p.header_list@ == head.headers@
                                    &&& p.buffered_body == buffered_body
                                },
                            })
                        },
                    }
                }
            }
        }),
{
    let directive = crate::codec::derive_body_directive(&head.headers, MAX_REQUEST_BODY_BYTES);
    if let crate::codec::BodyDirective::TooLarge = directive {
        return Err(RequestError::BodyTooLarge);
    }
    let method = crate::method::HttpMethod::from_str_lossy(head.f0.as_str());
    if let crate::method::HttpMethod::Connect = method {
        let (host, port) = crate::target::split_host_and_port(head.f1.as_str(), 443);
        return Ok(
            ParsedRequest {
                method,
                scheme: "https".to_owned(),
                host,
                port,
                path: "/".to_owned(),
                version: head.f2,
                header_list: head.headers,
                body_kind: RequestBodyKind::NoBody,
                buffered_body,
            },
        );
    }
    let body_kind = match directive {
        crate::codec::BodyDirective::NoBody => RequestBodyKind::NoBody,
        crate::codec::BodyDirective::Chunked => RequestBodyKind::Chunked,
        crate::codec::BodyDirective::Fixed(n) => RequestBodyKind::ContentLength { length: n },
        crate::codec::BodyDirective::TooLarge => {
            return Err(RequestError::BodyTooLarge);
        },
    };
    let is_http = crate::target::str_has_prefix(head.f1.as_str(), "http://");
    let is_https = if is_http {
        false
    } else {
        crate::target::str_has_prefix(head.f1.as_str(), "https://")
    };
    if is_http || is_https {
        let scheme = if is_http {
            crate::target::RequestScheme::Http
        } else {
            crate::target::RequestScheme::Https
        };
        proof {
            reveal_strlit("http://");
            reveal_strlit("https://");
        }
        let (authority, path) = crate::target::split_absolute_target(head.f1.as_str(), scheme);
        let (host, port) = crate::target::split_host_and_port(
            authority.as_str(),
            scheme.default_port(),
        );
        return Ok(
            ParsedRequest {
                method,
                scheme: scheme.as_str().to_owned(),
                host,
                port,
                path,
                version: head.f2,
                header_list: head.headers,
                body_kind,
                buffered_body,
            },
        );
    }
    match crate::headers::header_value(&head.headers, "host") {
        None => Err(RequestError::MissingHost),
        Some(hv) => {
            let dp = default_scheme.default_port();
            let (host, port) = crate::target::split_host_and_port(hv.as_str(), dp);
            Ok(
                ParsedRequest {
                    method,
                    scheme: default_scheme.as_str().to_owned(),
                    host,
                    port,
                    path: head.f1,
                    version: head.f2,
                    header_list: head.headers,
                    body_kind,
                    buffered_body,
                },
            )
        },
    }
}

} // verus!
