//! The requests and responses a browser transport carries.
use vstd::prelude::*;

use crate::headers::{get, header_pairs, lookup, without, Headers};
use crate::text::{
    chars_of, eq_ignore_ascii_case, lowered, parse_u64_in, parse_u64_spec, same_ignoring_case,
    trim_bounds, trimmed,
};

verus! {

/// The request methods the transport sends.
#[derive(Debug, Clone, Copy, PartialEq, Eq, Structural)]
pub enum Method {
    Get,
    Head,
    Post,
    Put,
}

/// The name of each method, in upper case.
pub open spec fn method_name(m: Method) -> Seq<char> {
    match m {
        Method::Get => "GET"@,
        Method::Head => "HEAD"@,
        Method::Post => "POST"@,
        Method::Put => "PUT"@,
    }
}

impl Method {
    pub fn as_str(self) -> (r: &'static str)
        ensures
            r@ == method_name(self),
    {
        match self {
            Method::Get => "GET",
            Method::Head => "HEAD",
            Method::Post => "POST",
            Method::Put => "PUT",
        }
    }
}

/// A copy of a header list.
pub fn copy_headers(headers: &Headers) -> (r: Headers)
    ensures
        header_pairs(r@) == header_pairs(headers@),
{
    let mut out: Headers = Vec::new();
    let mut i: usize = 0;
    while i < headers.len()
        invariant
            i <= headers.len(),
            header_pairs(out@) == header_pairs(headers@).take(i as int),
        decreases headers.len() - i,
    {
        let ghost before = out@;
        let key = headers[i].0.clone();
        let value = headers[i].1.clone();
        out.push((key, value));
        assert(header_pairs(out@) =~= header_pairs(before).push(header_pairs(headers@)[i as int]));
        assert(header_pairs(headers@).take(i + 1) =~= header_pairs(headers@).take(i as int).push(
            header_pairs(headers@)[i as int],
        ));
        i = i + 1;
    }
    assert(header_pairs(headers@).take(i as int) =~= header_pairs(headers@));
    out
}

/// A request: method, URL, headers and an optional body.
#[derive(Debug)]
pub struct TransportRequest {
    pub method: Method,
    pub url: String,
    pub headers: Headers,
    pub body: Option<Vec<u8>>,
}

/// The bytes of an optional body.
pub open spec fn body_bytes(body: Option<Vec<u8>>) -> Option<Seq<u8>> {
    match body {
        Some(b) => Some(b@),
        None => None,
    }
}

impl TransportRequest {
    /// A `GET` of `url` with no headers and no body.
    pub fn get(url: &str) -> (r: TransportRequest)
        ensures
            r.method == Method::Get,
            r.url@ == url@,
            r.headers@.len() == 0,
            r.body is None,
    {
        TransportRequest { method: Method::Get, url: String::from_str(url), headers: Vec::new(), body: None }
    }

    /// A `HEAD` of `url` with no headers and no body.
    pub fn head(url: &str) -> (r: TransportRequest)
        ensures
            r.method == Method::Head,
            r.url@ == url@,
            r.headers@.len() == 0,
            r.body is None,
    {
        TransportRequest { method: Method::Head, url: String::from_str(url), headers: Vec::new(), body: None }
    }

    /// The same request with the header `name` set to `value`.
    pub fn with_header(self, name: &str, value: &str) -> (r: TransportRequest)
        ensures
            r.method == self.method,
            r.url@ == self.url@,
            header_pairs(r.headers@) == without(header_pairs(self.headers@), name@).push(
                (lowered(name@), value@),
            ),
            body_bytes(r.body) == body_bytes(self.body),
    {
        let mut request = self;
        crate::headers::set(&mut request.headers, name, value);
        request
    }

    /// A copy of the request.
    pub fn duplicate(&self) -> (r: TransportRequest)
        ensures
            r.method == self.method,
            r.url@ == self.url@,
            header_pairs(r.headers@) == header_pairs(self.headers@),
            body_bytes(r.body) == body_bytes(self.body),
    {
        let body = match &self.body {
            Some(b) => {
                let copy = b.clone();
                assert(copy@ =~= b@);
                Some(copy)
            },
            None => None,
        };
        TransportRequest {
            method: self.method,
            url: self.url.clone(),
            headers: copy_headers(&self.headers),
            body,
        }
    }
}

/// A response: status, headers and body.
#[derive(Debug)]
pub struct TransportResponse {
    pub status: u16,
    pub headers: Headers,
    pub body: Vec<u8>,
}

/// The length a `Content-Length` value in `h` announces, if it is a number.
pub open spec fn announced_length(h: Seq<(Seq<char>, Seq<char>)>) -> Option<u64> {
    match lookup(h, "content-length"@) {
        Some(v) => parse_u64_spec(trimmed(v)),
        None => None,
    }
}

impl TransportResponse {
    /// Whether the status is in the 200s.
    pub fn is_success(&self) -> (r: bool)
        ensures
            r == (200 <= self.status && self.status < 300),
    {
        200 <= self.status && self.status < 300
    }

    /// The `Content-Length` the response announces, if it is a number.
    pub fn content_length(&self) -> (r: Option<u64>)
        ensures
            r == announced_length(header_pairs(self.headers@)),
    {
        match get(self.headers.as_slice(), "content-length") {
            Some(value) => {
                let cs = chars_of(value);
                let (a, b) = trim_bounds(&cs, 0, cs.len());
                assert(cs@.subrange(0, cs.len() as int) =~= cs@);
                parse_u64_in(&cs, a, b)
            },
            None => None,
        }
    }

    /// Whether the server serves byte ranges: a partial response, or `Accept-Ranges: bytes`.
    pub fn supports_ranges(&self) -> (r: bool)
        ensures
            r == (self.status == 206 || (lookup(header_pairs(self.headers@), "accept-ranges"@) matches Some(
                v,
            ) && same_ignoring_case(v, "bytes"@))),
    {
        if self.status == 206 {
            return true;
        }
        match get(self.headers.as_slice(), "accept-ranges") {
            Some(value) => eq_ignore_ascii_case(value, "bytes"),
            None => false,
        }
    }
}

/// Why a request failed.
#[derive(Debug)]
pub enum TransportError {
    Network(String),
    Cancelled,
    Unsupported(String),
}

/// The sentence each failure displays as.
pub open spec fn transport_message(e: TransportError) -> Seq<char> {
    match e {
        TransportError::Network(d) => "network request failed: "@ + d@,
        TransportError::Cancelled => "the request was cancelled"@,
        TransportError::Unsupported(d) => "the transport does not support this request: "@ + d@,
    }
}

impl TransportError {
    /// The sentence the failure displays as.
    pub fn message(&self) -> (m: String)
        ensures
            m@ == transport_message(*self),
    {
        match self {
            TransportError::Network(d) => String::from_str("network request failed: ").concat(d.as_str()),
            TransportError::Cancelled => String::from_str("the request was cancelled"),
            TransportError::Unsupported(d) => String::from_str(
                "the transport does not support this request: ",
            ).concat(d.as_str()),
        }
    }
}

} // verus!
