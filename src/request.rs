//! Reading an HTTP request: its head is parsed by httparse, then routed.
use vstd::prelude::*;
use crate::http::{route_error_status, Response};
use crate::route::{route, route_of, Route};

verus! {

/// The method, path and body offset httparse finds in the head of request
/// `b`: `None` where the bytes are no HTTP request, `Some(None)` where the
/// head is incomplete.
pub uninterp spec fn http_head_of(b: Seq<u8>) -> Option<Option<(Option<Seq<char>>, Option<Seq<char>>, nat)>>;

/// What the head of a complete request holds.
pub struct RequestHead {
    pub method: Option<Vec<char>>,
    pub path: Option<Vec<char>>,
    /// Offset of the body in the request bytes.
    pub body_start: usize,
}

/// Why the head of a request could not be read.
#[derive(Clone, Copy, Debug, PartialEq, Eq)]
pub enum HeadError {
    Invalid,
    Partial,
}

pub open spec fn chars_of(v: Option<Vec<char>>) -> Option<Seq<char>> {
    match v {
        Some(c) => Some(c@),
        None => None,
    }
}

/// `r` is what reading a head with parse outcome `h` gives.
pub open spec fn parsed_as(
    r: Result<RequestHead, HeadError>,
    h: Option<Option<(Option<Seq<char>>, Option<Seq<char>>, nat)>>,
) -> bool {
    match h {
        None => r == Err::<RequestHead, HeadError>(HeadError::Invalid),
        Some(None) => r == Err::<RequestHead, HeadError>(HeadError::Partial),
        Some(Some((m, p, n))) => match r {
            Ok(x) => chars_of(x.method) == m && chars_of(x.path) == p && x.body_start == n,
            Err(_) => false,
        },
    }
}

/// Relies on `httparse::Request::parse` with room for 64 headers: its
/// outcome depends on the bytes alone, and a complete head ends within the
/// buffer.
#[verifier::external_body]
fn parse_head(b: &[u8]) -> (r: Result<RequestHead, HeadError>)
    ensures
        parsed_as(r, http_head_of(b@)),
        r matches Ok(h) ==> h.body_start <= b@.len(),
{
    let mut headers = [httparse::EMPTY_HEADER; 64];
    let mut req = httparse::Request::new(&mut headers);
    match req.parse(b) {
        Err(_) => Err(HeadError::Invalid),
        Ok(httparse::Status::Partial) => Err(HeadError::Partial),
        Ok(httparse::Status::Complete(n)) => Ok(RequestHead {
            method: req.method.map(|m| m.chars().collect()),
            path: req.path.map(|p| p.chars().collect()),
            body_start: n,
        }),
    }
}

/// A routed request: a transaction with the offset of its JSON body, or a
/// statement query.
#[derive(Clone, Copy, Debug, PartialEq, Eq)]
pub enum Paths {
    Transacao(u8, usize),
    Extrato(u8),
}

/// Status code, status text and reason of the response to a request that
/// `req_parser` turns away, or `None` where it routes the request.
pub open spec fn request_status(b: Seq<u8>) -> Option<(usize, &'static str, Option<&'static str>)> {
    match http_head_of(b) {
        None => Some((400, "Bad Request", Some("Invalid HTTP"))),
        Some(None) => Some((400, "Bad Request", Some("Partial Request"))),
        Some(Some((m, p, n))) => match p {
            None => Some((400, "Bad Request", Some("Unspecified Path"))),
            Some(path) => match route_of(m, path) {
                Err(e) => Some(route_error_status(e)),
                Ok(_) => None,
            },
        },
    }
}

/// Reads request `buffer`: parses its head and routes it. A transaction
/// carries the offset of its body; a request turned away gets the response
/// to send back.
pub fn req_parser(buffer: &[u8]) -> (r: Result<Paths, Response>)
    ensures
        r matches Err(resp) ==> resp.body.is_none() && request_status(buffer@) == Some(
            (resp.code, resp.msg, resp.reason),
        ),
        r is Ok <==> request_status(buffer@) is None,
        r matches Ok(paths) ==> http_head_of(buffer@) matches Some(Some((m, Some(path), n))) && match route_of(
            m,
            path,
        ) {
            Ok(Route::Transacao(id)) => paths == Paths::Transacao(id, n as usize) && n <= buffer@.len(),
            Ok(Route::Extrato(id)) => paths == Paths::Extrato(id),
            Err(_) => false,
        },
{
    let head = match parse_head(buffer) {
        Err(HeadError::Invalid) => {
            return Err(Response::new(400, "Bad Request", Some("Invalid HTTP"), None));
        },
        Err(HeadError::Partial) => {
            return Err(Response::new(400, "Bad Request", Some("Partial Request"), None));
        },
        Ok(h) => h,
    };
    let path = match &head.path {
        None => {
            return Err(Response::new(400, "Bad Request", Some("Unspecified Path"), None));
        },
        Some(p) => p,
    };
    let routed = match &head.method {
        Some(m) => route(Some(m.as_slice()), path.as_slice()),
        None => route(None, path.as_slice()),
    };
    match routed {
        Err(e) => Err(Response::from_route_error(e)),
        Ok(Route::Transacao(id)) => Ok(Paths::Transacao(id, head.body_start)),
        Ok(Route::Extrato(id)) => Ok(Paths::Extrato(id)),
    }
}

} // verus!
