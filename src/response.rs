//! Responses: a status class and a body, and their text on the wire.
use vstd::prelude::*;
use vstd::string::*;

verus! {

/// The three status classes that the service answers with.
#[derive(Clone, Copy, Debug, PartialEq, Eq, Structural)]
pub enum Status {
    Success,
    NotFound,
    InternalServerError,
}

/// The status line and header block that open a response of `status`.
pub open spec fn status_head(status: Status) -> Seq<char> {
    match status {
        Status::Success => "HTTP/1.1 200 OK\r\nContent-Type: application/json\r\n\r\n"@,
        Status::NotFound => "HTTP/1.1 404 NOT FOUND\r\nContent-Type: application/json\r\n\r\n"@,
        Status::InternalServerError =>
            "HTTP/1.1 500 INTERNAL SERVER ERROR\r\nContent-Type: application/json\r\n\r\n"@,
    }
}

impl Status {
    /// The status line and header block of this status.
    pub fn head(&self) -> (r: &'static str)
        ensures
            r@ == status_head(*self),
    {
        match self {
            Status::Success => "HTTP/1.1 200 OK\r\nContent-Type: application/json\r\n\r\n",
            Status::NotFound => "HTTP/1.1 404 NOT FOUND\r\nContent-Type: application/json\r\n\r\n",
            Status::InternalServerError =>
                "HTTP/1.1 500 INTERNAL SERVER ERROR\r\nContent-Type: application/json\r\n\r\n",
        }
    }
}

/// A response: its status class and its body.
#[derive(Clone, Debug)]
pub struct Response {
    pub status: Status,
    pub body: String,
}

/// A response as values.
pub struct ResponseView {
    pub status: Status,
    pub body: Seq<char>,
}

impl View for Response {
    type V = ResponseView;

    open spec fn view(&self) -> ResponseView {
        ResponseView { status: self.status, body: self.body@ }
    }
}

/// The response of class `status` with body `body`.
pub open spec fn reply(status: Status, body: Seq<char>) -> ResponseView {
    ResponseView { status, body }
}

impl Response {
    /// The bytes sent back: the status line and headers, then the body.
    pub fn to_wire(&self) -> (r: String)
        ensures
            r@ == status_head(self.status) + self.body@,
    {
        let mut out = String::new();
        out.append(self.status.head());
        out.append(self.body.as_str());
        proof {
            assert(Seq::<char>::empty() + status_head(self.status) =~= status_head(self.status));
        }
        out
    }
}

} // verus!
