//! HTTP responses of the text-facing side: status line, optional reason
//! header, optional body with its length.
use vstd::prelude::*;
use crate::backend::{ReplyError, RequestError};
use crate::route::RouteError;
use crate::codec::push_bytes;
use vstd::string::StringSliceAdditionalSpecFns;

verus! {

/// Decimal digits of `n` in ASCII, most significant first.
pub open spec fn decimal(n: nat) -> Seq<u8>
    decreases n,
{
    if n < 10 {
        seq![(48 + n) as u8]
    } else {
        decimal(n / 10) + seq![(48 + n % 10) as u8]
    }
}

/// The bytes of a response with status `code` and text `msg`, an optional
/// `Reason` header and an optional body with its `Content-Length`.
pub open spec fn response_bytes(code: nat, msg: Seq<u8>, reason: Option<Seq<u8>>, body: Option<Seq<u8>>) -> Seq<u8> {
    let status = "HTTP/1.1 ".spec_bytes() + decimal(code) + " ".spec_bytes() + msg + "\r\n".spec_bytes();
    let head = match reason {
        Some(r) => status + "Reason: ".spec_bytes() + r + "\r\n".spec_bytes(),
        None => status,
    };
    match body {
        None => head + "\r\n".spec_bytes(),
        Some(b) => head + "Content-Length: ".spec_bytes() + decimal(b.len()) + "\r\n\r\n".spec_bytes() + b,
    }
}

/// Status code, status text and reason of the response to a routing error.
pub open spec fn route_error_status(e: RouteError) -> (usize, &'static str, Option<&'static str>) {
    match e {
        RouteError::InvalidPath => (404, "Not Found", Some("Invalid path")),
        RouteError::InvalidId => (404, "Not Found", Some("Invalid ID")),
        RouteError::IdTooLarge => (404, "Not Found", Some("ID greater than 6")),
        RouteError::MethodNotAllowed => (405, "Not Found", Some("Method Not Allowed")),
        RouteError::WrongMethod => (405, "Method Not Allowed", None),
        RouteError::InvalidResource => (404, "Not Found", Some("Invalid resource")),
    }
}

#[derive(Debug)]
pub struct Response {
    pub code: usize,
    pub msg: &'static str,
    pub reason: Option<&'static str>,
    pub body: Option<Vec<u8>>,
}

fn push_decimal(out: &mut Vec<u8>, n: usize)
    ensures
        final(out)@ == old(out)@ + decimal(n as nat),
    decreases n,
{
    if n >= 10 {
        push_decimal(out, n / 10);
    }
    out.push((48 + n % 10) as u8);
    assert(final(out)@ =~= old(out)@ + decimal(n as nat));
}

impl Response {
    pub fn new(code: usize, msg: &'static str, reason: Option<&'static str>, body: Option<Vec<u8>>) -> (r: Response)
        ensures
            r.code == code,
            r.msg == msg,
            r.reason == reason,
            r.body == body,
    {
        Response { code, msg, reason, body }
    }

    /// The bytes to send.
    pub fn into_vec(self) -> (r: Vec<u8>)
        ensures
            r@ == response_bytes(
                self.code as nat,
                self.msg.spec_bytes(),
                match self.reason {
                    Some(s) => Some(s.spec_bytes()),
                    None => None,
                },
                match self.body {
                    Some(b) => Some(b@),
                    None => None,
                },
            ),
    {
        let mut out: Vec<u8> = Vec::new();
        push_bytes(&mut out, "HTTP/1.1 ".as_bytes());
        push_decimal(&mut out, self.code);
        push_bytes(&mut out, " ".as_bytes());
        push_bytes(&mut out, self.msg.as_bytes());
        push_bytes(&mut out, "\r\n".as_bytes());
        match self.reason {
            Some(reason) => {
                push_bytes(&mut out, "Reason: ".as_bytes());
                push_bytes(&mut out, reason.as_bytes());
                push_bytes(&mut out, "\r\n".as_bytes());
            },
            None => {},
        }
        match self.body {
            None => {
                push_bytes(&mut out, "\r\n".as_bytes());
            },
            Some(body) => {
                push_bytes(&mut out, "Content-Length: ".as_bytes());
                push_decimal(&mut out, body.len());
                push_bytes(&mut out, "\r\n\r\n".as_bytes());
                push_bytes(&mut out, body.as_slice());
            },
        }
        out
    }

    /// The response to transaction fields that were refused.
    pub fn from_request_error(e: RequestError) -> (r: Response)
        ensures
            r.code == 422,
            r.msg == "Unprocessable Content",
            r.body.is_none(),
            r.reason == Some(match e {
                RequestError::DescriptionTooLong => "Invalid descricao (> 10). Is there graphemes?",
                RequestError::TipoTooLong => "Invalid tipo (> 1)",
                RequestError::InvalidTipo => "Invalid tipo",
            }),
    {
        let reason = match e {
            RequestError::DescriptionTooLong => "Invalid descricao (> 10). Is there graphemes?",
            RequestError::TipoTooLong => "Invalid tipo (> 1)",
            RequestError::InvalidTipo => "Invalid tipo",
        };
        Response::new(422, "Unprocessable Content", Some(reason), None)
    }

    /// The response to a transaction request whose reply was no result.
    pub fn from_transacao_reply_error(e: ReplyError) -> (r: Response)
        ensures
            r.body.is_none(),
            e == ReplyError::Refused ==> r.code == 422 && r.msg == "Unprocessable Content" && r.reason == Some(
                "Backend DB inform"),
            e == ReplyError::Invalid ==> r.code == 500 && r.msg == "Internal Error" && r.reason == Some(
                "Backend DB returns invalid"),
    {
        match e {
            ReplyError::Refused => Response::new(422, "Unprocessable Content", Some("Backend DB inform"), None),
            ReplyError::Invalid => Response::new(500, "Internal Error", Some("Backend DB returns invalid"), None),
        }
    }

    /// The response to a statement request whose reply was no statement.
    pub fn from_extrato_reply_error(e: ReplyError) -> (r: Response)
        ensures
            r.body.is_none(),
            e == ReplyError::Refused ==> r.code == 404 && r.msg == "Not Found" && r.reason.is_none(),
            e == ReplyError::Invalid ==> r.code == 500 && r.msg == "Internal Error" && r.reason == Some(
                "Backend DB returns invalid"),
    {
        match e {
            ReplyError::Refused => Response::new(404, "Not Found", None, None),
            ReplyError::Invalid => Response::new(500, "Internal Error", Some("Backend DB returns invalid"), None),
        }
    }

    /// The response to a request line that was not routed.
    pub fn from_route_error(e: RouteError) -> (r: Response)
        ensures
            r.body.is_none(),
            (r.code, r.msg, r.reason) == route_error_status(e),
    {
        match e {
            RouteError::InvalidPath => Response::new(404, "Not Found", Some("Invalid path"), None),
            RouteError::InvalidId => Response::new(404, "Not Found", Some("Invalid ID"), None),
            RouteError::IdTooLarge => Response::new(404, "Not Found", Some("ID greater than 6"), None),
            RouteError::MethodNotAllowed => Response::new(405, "Not Found", Some("Method Not Allowed"), None),
            RouteError::WrongMethod => Response::new(405, "Method Not Allowed", None, None),
            RouteError::InvalidResource => Response::new(404, "Not Found", Some("Invalid resource"), None),
        }
    }

    /// A `200 OK` response carrying `body`.
    pub fn ok(body: Vec<u8>) -> (r: Response)
        ensures
            r.code == 200,
            r.msg == "OK",
            r.reason.is_none(),
            r.body == Some(body),
    {
        Response::new(200, "OK", None, Some(body))
    }
}

} // verus!
