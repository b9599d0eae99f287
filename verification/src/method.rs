//! HTTP methods.

use vstd::prelude::*;

verus! {

use crate::text::{eq_ci, str_bytes, str_eq_ci};

/// HTTP request methods.
#[derive(Debug, Clone, Copy, PartialEq, Eq, Structural)]
pub enum HttpMethod {
    Get,
    Post,
    Put,
    Patch,
    Delete,
    Head,
    Options,
    Connect,
    Trace,
}

/// The method a token names, compared case-insensitively; unknown tokens
/// fall back to GET.
pub open spec fn spec_method_from(s: Seq<u8>) -> HttpMethod {
    if eq_ci(s, str_bytes("GET")) {
        HttpMethod::Get
    } else if eq_ci(s, str_bytes("POST")) {
        HttpMethod::Post
    } else if eq_ci(s, str_bytes("PUT")) {
        HttpMethod::Put
    } else if eq_ci(s, str_bytes("PATCH")) {
        HttpMethod::Patch
    } else if eq_ci(s, str_bytes("DELETE")) {
        HttpMethod::Delete
    } else if eq_ci(s, str_bytes("HEAD")) {
        HttpMethod::Head
    } else if eq_ci(s, str_bytes("OPTIONS")) {
        HttpMethod::Options
    } else if eq_ci(s, str_bytes("CONNECT")) {
        HttpMethod::Connect
    } else if eq_ci(s, str_bytes("TRACE")) {
        HttpMethod::Trace
    } else {
        HttpMethod::Get
    }
}

impl HttpMethod {
    /// The canonical upper-case name of the method.
    pub open spec fn name_chars(self) -> Seq<char> {
        match self {
            HttpMethod::Get => "GET"@,
            HttpMethod::Post => "POST"@,
            HttpMethod::Put => "PUT"@,
            HttpMethod::Patch => "PATCH"@,
            HttpMethod::Delete => "DELETE"@,
            HttpMethod::Head => "HEAD"@,
            HttpMethod::Options => "OPTIONS"@,
            HttpMethod::Connect => "CONNECT"@,
            HttpMethod::Trace => "TRACE"@,
        }
    }

    /// Parse a method token, case-insensitively; anything unknown is GET.
    pub fn from_str_lossy(s: &str) -> (r: HttpMethod)
        ensures
            r == spec_method_from(str_bytes(s)),
    {
        if str_eq_ci(s, "GET") {
            HttpMethod::Get
        } else if str_eq_ci(s, "POST") {
            HttpMethod::Post
        } else if str_eq_ci(s, "PUT") {
            HttpMethod::Put
        } else if str_eq_ci(s, "PATCH") {
            HttpMethod::Patch
        } else if str_eq_ci(s, "DELETE") {
            HttpMethod::Delete
        } else if str_eq_ci(s, "HEAD") {
            HttpMethod::Head
        } else if str_eq_ci(s, "OPTIONS") {
            HttpMethod::Options
        } else if str_eq_ci(s, "CONNECT") {
            HttpMethod::Connect
        } else if str_eq_ci(s, "TRACE") {
            HttpMethod::Trace
        } else {
            HttpMethod::Get
        }
    }

    /// The canonical name, e.g. `GET`.
    pub fn as_str(&self) -> (r: &'static str)
        ensures
            r@ == self.name_chars(),
    {
        match self {
            HttpMethod::Get => "GET",
            HttpMethod::Post => "POST",
            HttpMethod::Put => "PUT",
            HttpMethod::Patch => "PATCH",
            HttpMethod::Delete => "DELETE",
            HttpMethod::Head => "HEAD",
            HttpMethod::Options => "OPTIONS",
            HttpMethod::Connect => "CONNECT",
            HttpMethod::Trace => "TRACE",
        }
    }
}

} // verus!
