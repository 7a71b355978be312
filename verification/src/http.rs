//! HTTP responses and errors as the rest of the shell sees them.

use vstd::prelude::*;
use vstd::utf8::{decode_utf8, valid_utf8};
use crate::text::{append_str, decimal, push_decimal};

verus! {

#[verifier::external_type_specification]
#[verifier::external_body]
pub struct ExUtf8Error(std::str::Utf8Error);

/// Decodes `v` as UTF-8 (`std::str::from_utf8`): it succeeds exactly when
/// `v` is valid UTF-8, and the string it gives reads as the decoded
/// characters.
#[verifier::external_body]
fn str_from_utf8<'a>(v: &'a [u8]) -> (r: Result<&'a str, std::str::Utf8Error>)
    ensures
        r is Ok <==> valid_utf8(v@),
        r matches Ok(s) ==> s@ == decode_utf8(v@),
{
    std::str::from_utf8(v)
}

/// A successful HTTP response.
pub struct HttpResponse {
    /// HTTP status code.
    pub status: u16,
    /// Response body as raw bytes.
    pub body: Vec<u8>,
}

impl HttpResponse {
    /// Decodes the body as UTF-8, returning an error if it is not valid
    /// UTF-8.
    pub fn text(&self) -> (r: Result<&str, std::str::Utf8Error>)
        ensures
            r is Ok <==> valid_utf8(self.body@),
            r matches Ok(s) ==> s@ == decode_utf8(self.body@),
    {
        str_from_utf8(self.body.as_slice())
    }
}

/// Errors returned by HTTP clients.
pub enum HttpError {
    /// A network-level or transport error.
    Transport(String),
    /// The server returned a non-success status code.
    Status(u16),
}

/// The mathematical content of an HTTP error.
pub enum HttpErrorView {
    Transport(Seq<char>),
    Status(u16),
}

impl View for HttpError {
    type V = HttpErrorView;

    open spec fn view(&self) -> HttpErrorView {
        match self {
            HttpError::Transport(m) => HttpErrorView::Transport(m@),
            HttpError::Status(c) => HttpErrorView::Status(*c),
        }
    }
}

/// How an HTTP error reads.
pub open spec fn http_error_message(e: HttpErrorView) -> Seq<char> {
    match e {
        HttpErrorView::Transport(m) => "HTTP transport error: "@ + m,
        HttpErrorView::Status(c) => "HTTP error status: "@ + decimal(c as nat),
    }
}

/// A success status: 200 to 299.
pub open spec fn is_success_status(status: u16) -> bool {
    200 <= status <= 299
}

impl HttpError {
    /// How this error reads, e.g. `HTTP error status: 404`.
    pub fn message(&self) -> (m: String)
        ensures
            m@ == http_error_message(self@),
    {
        match self {
            HttpError::Transport(t) => {
                let mut m = "HTTP transport error: ".to_owned();
                append_str(&mut m, t.as_str());
                m
            },
            HttpError::Status(c) => {
                let mut m = "HTTP error status: ".to_owned();
                push_decimal(&mut m, *c as u64);
                m
            },
        }
    }
}

/// Accepts a response status: success statuses pass, any other is the
/// error `Status(status)`.
pub fn check_status(status: u16) -> (r: Result<u16, HttpError>)
    ensures
        is_success_status(status) ==> r == Ok::<u16, HttpError>(status),
        !is_success_status(status) ==> (r matches Err(e) && e@ == HttpErrorView::Status(status)),
{
    if 200 <= status && status <= 299 {
        Ok(status)
    } else {
        Err(HttpError::Status(status))
    }
}

/// The HTTP client for WebAssembly targets; it has no transport yet.
pub struct WasiHttpClient;

} // verus!
