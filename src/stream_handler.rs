//! Serving one connection: read the request, route it, and write the response,
//! or a fallback response when any of that fails.
use vstd::prelude::*;
use crate::default_controller::spec_default_response;
use crate::expansions_model::ExpansionsModel;
use crate::http_response::{wire_of, HttpResponse};
use crate::npm_expansion_error::{NpmErrorKind, NpmExpansionsError};
use crate::request::{accept_of, spec_build, spec_status_line_path, Request};
use crate::router::{route_index, route_keys, Router};

verus! {

/// The status line and body of the fallback response for an error kind.
pub open spec fn fallback_for(k: NpmErrorKind) -> (Seq<char>, Seq<char>) {
    match k {
        NpmErrorKind::InvalidRequestHeaders | NpmErrorKind::TooManyRequestHeaders
        | NpmErrorKind::InvalidRequestMimeType => ("400 BAD REQUEST"@, "BAD REQUEST"@),
        NpmErrorKind::RouteNotFound => ("404 NOT FOUND"@, "NOT FOUND"@),
        _ => ("500 INTERNAL SERVER ERROR"@, "INTERNAL SERVER ERROR"@),
    }
}

/// The bytes that answer an error of kind `k`: its status line and body, with no
/// extra headers.
pub open spec fn spec_error_response(k: NpmErrorKind) -> Seq<u8> {
    wire_of((fallback_for(k).0, ""@, fallback_for(k).1))
}

/// What reading and routing the request in `b` gives: the error of reading it,
/// the not-found fallback when no route has its key, or the bytes of what the
/// route's handler answered (or its error).
pub open spec fn respond_post<F: Fn(&Request, &ExpansionsModel) -> Result<HttpResponse, NpmExpansionsError>>(
    b: Seq<u8>,
    routes: Seq<(String, F)>,
    expansions_model: &ExpansionsModel,
    r: Result<Vec<u8>, NpmExpansionsError>,
) -> bool {
    match spec_build(b) {
        Err(k) => r is Err && r->Err_0.kind_spec() == k,
        Ok(v) => match route_index(route_keys(routes), spec_status_line_path(v.0)) {
            None => match spec_default_response(accept_of(v.1), "404 NOT FOUND"@, "NOT FOUND"@) {
                Ok(w) => r is Ok && r->Ok_0@ == wire_of(w),
                Err(k) => r is Err && r->Err_0.kind_spec() == k,
            },
            Some(i) => exists|req: Request, res: Result<HttpResponse, NpmExpansionsError>|
                req@ == v && #[trigger] call_ensures(routes[i].1, (&req, expansions_model), res)
                    && match res {
                    Ok(resp) => r is Ok && r->Ok_0@ == wire_of(resp@),
                    Err(e) => r is Err && r->Err_0 == e,
                },
        },
    }
}

/// What answering an error of kind `k` gives.
pub open spec fn error_post(k: NpmErrorKind, r: Result<Vec<u8>, NpmExpansionsError>) -> bool {
    r is Ok && r->Ok_0@ == spec_error_response(k)
}

/// The response bytes for the request in `request_bytes`, or the error that
/// reading or answering it gives.
pub fn respond_to_request<F: Fn(&Request, &ExpansionsModel) -> Result<HttpResponse, NpmExpansionsError>>(
    request_bytes: &[u8],
    router: &Router<F>,
    expansions_model: &ExpansionsModel,
) -> (r: Result<Vec<u8>, NpmExpansionsError>)
    requires
        router.wf(),
    ensures
        respond_post(request_bytes@, router.routes(), expansions_model, r),
{
    let request = match Request::build(request_bytes) {
        Ok(q) => q,
        Err(e) => {
            return Err(e);
        },
    };
    let response = match router.route_request(&request, expansions_model) {
        Ok(resp) => resp,
        Err(e) => {
            return Err(e);
        },
    };
    Ok(response.into_bytes_vec())
}

/// The response bytes that answer `error`: what the fallback handler of its kind
/// gives the connection's made-up request, which accepts
/// `text/html,application/json`. Every fallback handler accepts
/// `application/json`, so that is the handler's own status line and body.
pub fn respond_to_request_error(error: &NpmExpansionsError) -> (r: Result<Vec<u8>, NpmExpansionsError>)
    ensures
        error_post(error.kind_spec(), r),
{
    let response = match error.kind() {
        NpmErrorKind::InvalidRequestHeaders | NpmErrorKind::TooManyRequestHeaders
        | NpmErrorKind::InvalidRequestMimeType => HttpResponse::new("400 BAD REQUEST", "", "BAD REQUEST"),
        NpmErrorKind::RouteNotFound => HttpResponse::new("404 NOT FOUND", "", "NOT FOUND"),
        _ => HttpResponse::new("500 INTERNAL SERVER ERROR", "", "INTERNAL SERVER ERROR"),
    };
    Ok(response.into_bytes_vec())
}

/// The bytes to write back for the request in `request_bytes`: the routed
/// response, or the fallback response for whatever failed on the way.
pub fn handle_connection<F: Fn(&Request, &ExpansionsModel) -> Result<HttpResponse, NpmExpansionsError>>(
    request_bytes: &[u8],
    router: &Router<F>,
    expansions_model: &ExpansionsModel,
) -> (r: Result<Vec<u8>, NpmExpansionsError>)
    requires
        router.wf(),
    ensures
        exists|first: Result<Vec<u8>, NpmExpansionsError>|
            #[trigger] respond_post(request_bytes@, router.routes(), expansions_model, first)
                && match first {
                Ok(b) => r is Ok && r->Ok_0@ == b@,
                Err(e) => error_post(e.kind_spec(), r),
            },
{
    match respond_to_request(request_bytes, router, expansions_model) {
        Ok(bytes) => Ok(bytes),
        Err(e) => respond_to_request_error(&e),
    }
}

} // verus!
