//! The fallback handlers: not found, client error and internal server error, each
//! answered in plain text when the client accepts it.
use vstd::prelude::*;
use crate::accept_header_handler::{best_match, spec_best_match, texts_view};
use crate::http_response::HttpResponse;
use crate::npm_expansion_error::{NpmErrorKind, NpmExpansionsError};
use crate::request::{accept_of, Request};

verus! {

/// The fallback handlers.
pub struct DefaultController {}

/// The response for a client that accepts none of the offered types.
pub open spec fn not_acceptable_view() -> (Seq<char>, Seq<char>, Seq<char>) {
    ("406 NOT ACCEPTABLE"@, ""@, "Please accept application/json"@)
}

/// The text of an optional `Accept` header, empty when there is none.
pub open spec fn accept_text(a: Option<Seq<char>>) -> Seq<char> {
    match a {
        Some(v) => v,
        None => seq![],
    }
}

/// The types a fallback response can be given in: plain text, anything, or the
/// JSON that the not-acceptable message asks for.
pub open spec fn plain_types() -> Seq<Seq<char>> {
    seq!["text/plain"@, "*/*"@, "application/json"@]
}

/// The body of a fallback response for a client that accepts none of its types.
pub open spec fn mismatch_body() -> Seq<char> {
    "Please accept application/json"@
}

/// A fallback response: `status` with `body` when the client accepts
/// `text/plain`, `*/*` or `application/json`; else the same status with a body
/// that asks for JSON.
pub open spec fn spec_default_response(accept: Option<Seq<char>>, status: Seq<char>, body: Seq<char>) -> Result<
    (Seq<char>, Seq<char>, Seq<char>),
    NpmErrorKind,
> {
    match spec_best_match(plain_types(), accept_text(accept)) {
        Err(k) => Err(k),
        Ok(b) => if b.len() == 0 {
            Ok((status, ""@, mismatch_body()))
        } else {
            Ok((status, ""@, body))
        },
    }
}

/// The response for a client that accepts none of the offered types.
pub fn not_acceptable_response() -> (r: HttpResponse)
    ensures
        r@ == not_acceptable_view(),
{
    HttpResponse::new("406 NOT ACCEPTABLE", "", "Please accept application/json")
}

/// The `Accept` header of a request, empty when it has none.
pub fn accept_or_empty(request: &Request) -> (r: String)
    ensures
        r@ == accept_text(accept_of(request@.1)),
{
    match request.accept_header() {
        Some(v) => v,
        None => {
            let e = String::new();
            assert(e@ =~= seq![]);
            e
        },
    }
}

/// A fallback response for `request`.
fn default_response(request: &Request, status: &str, body: &str) -> (r: Result<
    HttpResponse,
    NpmExpansionsError,
>)
    ensures
        match spec_default_response(accept_of(request@.1), status@, body@) {
            Ok(v) => r is Ok && r->Ok_0@ == v,
            Err(k) => r is Err && r->Err_0.kind_spec() == k,
        },
{
    let accept = accept_or_empty(request);
    let supported: Vec<&str> = vec!["text/plain", "*/*", "application/json"];
    assert(texts_view(supported@) =~= plain_types());
    let best = match best_match(supported, accept.as_str()) {
        Ok(b) => b,
        Err(e) => {
            return Err(e);
        },
    };
    if best.as_str().is_empty() {
        Ok(HttpResponse::new(status, "", "Please accept application/json"))
    } else {
        Ok(HttpResponse::new(status, "", body))
    }
}

impl DefaultController {
    /// `404 NOT FOUND`.
    pub fn not_found(request: &Request) -> (r: Result<HttpResponse, NpmExpansionsError>)
        ensures
            match spec_default_response(accept_of(request@.1), "404 NOT FOUND"@, "NOT FOUND"@) {
                Ok(v) => r is Ok && r->Ok_0@ == v,
                Err(k) => r is Err && r->Err_0.kind_spec() == k,
            },
    {
        default_response(request, "404 NOT FOUND", "NOT FOUND")
    }

    /// `500 INTERNAL SERVER ERROR`.
    pub fn internal_server_error(request: &Request) -> (r: Result<HttpResponse, NpmExpansionsError>)
        ensures
            match spec_default_response(
                accept_of(request@.1),
                "500 INTERNAL SERVER ERROR"@,
                "INTERNAL SERVER ERROR"@,
            ) {
                Ok(v) => r is Ok && r->Ok_0@ == v,
                Err(k) => r is Err && r->Err_0.kind_spec() == k,
            },
    {
        default_response(request, "500 INTERNAL SERVER ERROR", "INTERNAL SERVER ERROR")
    }

    /// `400 BAD REQUEST`.
    pub fn client_error(request: &Request) -> (r: Result<HttpResponse, NpmExpansionsError>)
        ensures
            match spec_default_response(accept_of(request@.1), "400 BAD REQUEST"@, "BAD REQUEST"@) {
                Ok(v) => r is Ok && r->Ok_0@ == v,
                Err(k) => r is Err && r->Err_0.kind_spec() == k,
            },
    {
        default_response(request, "400 BAD REQUEST", "BAD REQUEST")
    }
}

} // verus!
