//! The error that the server's components report, with its kind.
use vstd::prelude::*;

verus! {

/// What went wrong while serving a request.
#[derive(Debug, Clone, Copy, PartialEq, Eq, Structural)]
pub enum NpmErrorKind {
    /// A header line without a `:`.
    InvalidRequestHeaders,
    /// The request head ran over its size cap before the blank line.
    TooManyRequestHeaders,
    /// The client's `Accept` header does not parse.
    InvalidRequestMimeType,
    /// No request line, a request line without a target, or a malformed query.
    InvalidHttpRequest,
    /// One of the server's own media types does not parse.
    SupportedMimeTypeError,
    /// A failure on the server's side.
    InternalServerError,
    /// No route for the request.
    RouteNotFound,
}

/// An error of some kind, with a message for the log.
#[derive(Debug)]
pub struct NpmExpansionsError {
    kind: NpmErrorKind,
    message: String,
}

/// The message that an error built from its kind alone carries.
pub open spec fn default_error_message() -> Seq<char> {
    "An NPM expansion error occured"@
}

impl NpmExpansionsError {
    /// The kind of this error.
    pub closed spec fn kind_spec(&self) -> NpmErrorKind {
        self.kind
    }

    /// The message of this error.
    pub closed spec fn message_spec(&self) -> Seq<char> {
        self.message@
    }

    /// An error of `kind` with `message`.
    pub fn new(kind: NpmErrorKind, message: &str) -> (r: NpmExpansionsError)
        ensures
            r.kind_spec() == kind,
            r.message_spec() == message@,
    {
        NpmExpansionsError { kind, message: message.to_string() }
    }

    /// An error of `kind` with the default message.
    pub fn from(kind: NpmErrorKind) -> (r: NpmExpansionsError)
        ensures
            r.kind_spec() == kind,
            r.message_spec() == default_error_message(),
    {
        NpmExpansionsError { kind, message: "An NPM expansion error occured".to_string() }
    }

    /// The kind of this error.
    pub fn kind(&self) -> (r: &NpmErrorKind)
        ensures
            *r == self.kind_spec(),
    {
        &self.kind
    }

    /// The message of this error.
    pub fn message(&self) -> (r: &str)
        ensures
            r@ == self.message_spec(),
    {
        self.message.as_str()
    }
}

} // verus!
