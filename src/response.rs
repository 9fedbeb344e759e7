//! HTTP responses and their bytes on the wire.
use vstd::prelude::*;
use crate::bytes::{decimal, push_decimal, push_slice, push_str, text};

verus! {

/// The three statuses the server answers with.
#[derive(PartialEq, Eq, Structural, Clone, Copy, Debug)]
pub enum Status {
    Success,
    NotFound,
    InternalError,
}

impl Status {
    pub open spec fn spec_code(self) -> nat {
        match self {
            Status::Success => 200,
            Status::NotFound => 404,
            Status::InternalError => 500,
        }
    }

    pub open spec fn reason(self) -> Seq<u8> {
        match self {
            Status::Success => text("OK"),
            Status::NotFound => text("Not Found"),
            Status::InternalError => text("Internal Server Error"),
        }
    }

    /// The numeric status code.
    pub fn code(&self) -> (r: u16)
        ensures
            r as nat == self.spec_code(),
    {
        match self {
            Status::Success => 200,
            Status::NotFound => 404,
            Status::InternalError => 500,
        }
    }

    fn push_reason(&self, out: &mut Vec<u8>)
        ensures
            final(out)@ == old(out)@ + self.reason(),
    {
        match self {
            Status::Success => push_str(out, "OK"),
            Status::NotFound => push_str(out, "Not Found"),
            Status::InternalError => push_str(out, "Internal Server Error"),
        }
    }
}

/// A response: status, the two optional headers, and the body.
pub struct HttpResponse {
    pub status: Status,
    /// Sent as `Content-Type` when present.
    pub content_type: Option<&'static str>,
    /// Sent as `Content-Length` when present.
    pub content_length: Option<usize>,
    pub body: Vec<u8>,
}

/// The header line `name: value` with its line break.
pub open spec fn header_line(name: Seq<u8>, value: Seq<u8>) -> Seq<u8> {
    name + text(": ") + value + text("\r\n")
}

impl HttpResponse {
    /// The status line, the headers that are present (type before length),
    /// an empty line, and the body verbatim.
    pub open spec fn wire(&self) -> Seq<u8> {
        let status_line = text("HTTP/1.1 ") + decimal(self.status.spec_code()) + text(" ")
            + self.status.reason() + text("\r\n");
        let type_line = match self.content_type {
            Some(t) => header_line(text("Content-Type"), text(t)),
            None => Seq::empty(),
        };
        let length_line = match self.content_length {
            Some(n) => header_line(text("Content-Length"), decimal(n as nat)),
            None => Seq::empty(),
        };
        status_line + type_line + length_line + text("\r\n") + self.body@
    }

    pub open spec fn has_type(&self, t: Seq<char>) -> bool {
        &&& self.content_type is Some
        &&& self.content_type->0@ == t
    }

    /// `200 OK` with the given content type and body; the length is the body's.
    pub fn ok(content_type: &'static str, body: Vec<u8>) -> (r: HttpResponse)
        ensures
            r.status == Status::Success,
            r.content_type == Some(content_type),
            r.content_length == Some(body@.len() as usize),
            r.body@ == body@,
    {
        let n = body.len();
        HttpResponse { status: Status::Success, content_type: Some(content_type), content_length: Some(n), body }
    }

    /// `404 Not Found` with the body `404 oops` and a declared length of 9.
    pub fn not_found() -> (r: HttpResponse)
        ensures
            r.status == Status::NotFound,
            r.content_type is None,
            r.content_length == Some(9usize),
            r.body@ == text("404 oops"),
    {
        let mut body: Vec<u8> = Vec::new();
        push_str(&mut body, "404 oops");
        assert(body@ =~= text("404 oops"));
        HttpResponse { status: Status::NotFound, content_type: None, content_length: Some(9), body }
    }

    /// `500 Internal Server Error` with no headers and no body.
    pub fn internal_error() -> (r: HttpResponse)
        ensures
            r.status == Status::InternalError,
            r.content_type is None,
            r.content_length is None,
            r.body@.len() == 0,
    {
        HttpResponse {
            status: Status::InternalError,
            content_type: None,
            content_length: None,
            body: Vec::new(),
        }
    }

    /// The bytes to send for this response.
    pub fn to_bytes(&self) -> (r: Vec<u8>)
        ensures
            r@ == self.wire(),
    {
        let mut out: Vec<u8> = Vec::new();
        push_str(&mut out, "HTTP/1.1 ");
        push_decimal(&mut out, self.status.code() as usize);
        push_str(&mut out, " ");
        self.status.push_reason(&mut out);
        push_str(&mut out, "\r\n");
        let ghost after_status = out@;
        match self.content_type {
            Some(t) => {
                push_str(&mut out, "Content-Type");
                push_str(&mut out, ": ");
                push_str(&mut out, t);
                push_str(&mut out, "\r\n");
            },
            None => {},
        }
        let ghost after_type = out@;
        match self.content_length {
            Some(n) => {
                push_str(&mut out, "Content-Length");
                push_str(&mut out, ": ");
                push_decimal(&mut out, n);
                push_str(&mut out, "\r\n");
            },
            None => {},
        }
        push_str(&mut out, "\r\n");
        push_slice(&mut out, self.body.as_slice());
        assert(out@ =~= self.wire());
        out
    }
}

} // verus!
