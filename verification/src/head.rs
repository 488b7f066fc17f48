//! `HEAD` requests sent as single-byte ranged `GET`s (a browser's fetch cannot read the
//! headers of a `HEAD` across origins), and the answers turned back into `HEAD` answers.
use vstd::prelude::*;

use crate::headers::{get, header_pairs, lookup, remove, without};
use crate::http::{body_bytes, Method, TransportError, TransportRequest, TransportResponse};
use crate::range::{content_range_spec, parse_content_range, probe_range_header};
use crate::text::{decimal, lowered, u64_to_decimal};

verus! {

/// `g` is `request` as a `GET` of its first byte: the same URL and body, and its headers
/// with any `Range` replaced by `bytes=0-0`.
pub open spec fn head_rewrite(g: TransportRequest, request: TransportRequest) -> bool {
    &&& g.method == Method::Get
    &&& g.url@ == request.url@
    &&& header_pairs(g.headers@) == without(header_pairs(request.headers@), "range"@).push(
        (lowered("range"@), "bytes=0-0"@),
    )
    &&& body_bytes(g.body) == body_bytes(request.body)
}

/// A `HEAD` request rewritten as a `GET` of the first byte; any other request is left alone.
pub fn rewrite_head_as_range(request: &TransportRequest) -> (r: Option<TransportRequest>)
    ensures
        request.method != Method::Head ==> r is None,
        request.method == Method::Head ==> (r matches Some(g) && head_rewrite(g, *request)),
{
    if request.method != Method::Head {
        return None;
    }
    let mut rewritten = request.duplicate();
    rewritten.method = Method::Get;
    let (name, value) = probe_range_header();
    crate::headers::set(&mut rewritten.headers, name, value);
    Some(rewritten)
}

/// The complete length a `Content-Range` header in `h` gives, if it gives one.
pub open spec fn complete_length(h: Seq<(Seq<char>, Seq<char>)>) -> Option<u64> {
    match lookup(h, "content-range"@) {
        Some(v) => match content_range_spec(v) {
            Some((_, _, n)) => n,
            None => None,
        },
        None => None,
    }
}

/// The headers of a restored answer: a partial answer's `Content-Length` becomes the complete
/// length (or goes, when that is unknown); any other answer loses its `Content-Length`.
pub open spec fn restored_headers(status: u16, h: Seq<(Seq<char>, Seq<char>)>) -> Seq<
    (Seq<char>, Seq<char>),
> {
    if status == 206 {
        match complete_length(h) {
            Some(n) => without(h, "content-length"@).push(
                (lowered("content-length"@), decimal(n as nat)),
            ),
            None => without(h, "content-length"@),
        }
    } else {
        without(h, "content-length"@)
    }
}

/// The answer to a rewritten `HEAD`, as a `HEAD` answer: no body, a partial status becomes
/// `200`, and `Content-Length` reports the size of the whole representation.
pub fn restore_head_response(response: TransportResponse) -> (r: TransportResponse)
    ensures
        r.status == (if response.status == 206 {
            200
        } else {
            response.status
        }),
        r.body@.len() == 0,
        header_pairs(r.headers@) == restored_headers(response.status, header_pairs(response.headers@)),
{
    let TransportResponse { status, mut headers, .. } = response;
    if status == 206 {
        let length = match get(headers.as_slice(), "content-range") {
            Some(value) => match parse_content_range(value) {
                Some(range) => range.complete_length,
                None => None,
            },
            None => None,
        };
        match length {
            Some(n) => {
                let text = u64_to_decimal(n);
                crate::headers::set(&mut headers, "content-length", text.as_str());
            },
            None => remove(&mut headers, "content-length"),
        }
        return TransportResponse { status: 200, headers, body: Vec::new() };
    }
    remove(&mut headers, "content-length");
    TransportResponse { status, headers, body: Vec::new() }
}

/// One send with `HEAD` support, before the transport answers: what to send, and whether the
/// answer is to be restored as a `HEAD` answer.
pub struct HeadPlan {
    pub request: TransportRequest,
    pub restore: bool,
}

/// A `HEAD` request goes out rewritten and its answer is restored; any other request goes
/// out as it is.
pub fn plan_send(request: TransportRequest) -> (p: HeadPlan)
    ensures
        p.restore == (request.method == Method::Head),
        p.restore ==> head_rewrite(p.request, request),
        !p.restore ==> p.request == request,
{
    match rewrite_head_as_range(&request) {
        Some(rewritten) => HeadPlan { request: rewritten, restore: true },
        None => HeadPlan { request, restore: false },
    }
}

/// One send with `HEAD` support, after the transport answers: a failure passes through, and
/// an answer to a rewritten request is restored.
pub fn finish_send(restore: bool, answer: Result<TransportResponse, TransportError>) -> (r: Result<
    TransportResponse,
    TransportError,
>)
    ensures
        !restore ==> r == answer,
        restore ==> match (answer, r) {
            (Err(a), Err(b)) => a == b,
            (Ok(a), Ok(b)) => b.status == (if a.status == 206 {
                200
            } else {
                a.status
            }) && b.body@.len() == 0 && header_pairs(b.headers@) == restored_headers(
                a.status,
                header_pairs(a.headers@),
            ),
            _ => false,
        },
{
    if !restore {
        return answer;
    }
    match answer {
        Ok(response) => Ok(restore_head_response(response)),
        Err(e) => Err(e),
    }
}

} // verus!

verus! {

/// A rewritten `HEAD` asks for exactly the first byte, whatever range it carried before.
pub proof fn law_rewrite_asks_for_one_byte(h: Seq<(Seq<char>, Seq<char>)>)
    ensures
        lookup(without(h, "range"@).push((lowered("range"@), "bytes=0-0"@)), "range"@) == Some(
            "bytes=0-0"@,
        ),
{
    crate::headers::law_set_then_get(h, "range"@, "bytes=0-0"@, "range"@);
}

/// A restored partial answer announces the complete length its `Content-Range` gave; any
/// other restored answer announces no length.
pub proof fn law_restored_length(status: u16, h: Seq<(Seq<char>, Seq<char>)>)
    ensures
        status == 206 ==> crate::http::announced_length(restored_headers(status, h))
            == complete_length(h),
        status != 206 ==> crate::http::announced_length(restored_headers(status, h)) is None,
{
    let cl = "content-length"@;
    crate::headers::law_removed_is_absent(h, cl, cl);
    if let Some(n) = complete_length(h) {
        crate::headers::law_set_then_get(h, cl, decimal(n as nat), cl);
        crate::text::law_decimal_round_trip(n);
    }
}

} // verus!
