//! The JSON handlers: a random expansion, all expansions, and a similarity
//! search.
use vstd::prelude::*;
use crate::accept_header_handler::{best_match, spec_best_match, texts_view};
use crate::default_controller::{accept_or_empty, accept_text, not_acceptable_response, not_acceptable_view};
use crate::expansions_model::{is_ranking, similarities, strings_view, ExpansionsModel, SEARCH_LIMIT};
use crate::http_response::HttpResponse;
use crate::npm_expansion_error::{NpmErrorKind, NpmExpansionsError};
use crate::request::{accept_of, lookup, Request};
use crate::text::{push_char, push_text, str_eq};

verus! {

/// The JSON handlers.
pub struct NpmController {}

/// The status line of a successful JSON response.
pub open spec fn ok_status() -> Seq<char> {
    "200 OK"@
}

/// The header of a JSON response.
pub open spec fn json_header() -> Seq<char> {
    "Content-Type: application/json"@
}

/// The JSON object that carries one expansion.
pub open spec fn random_body(e: Seq<char>) -> Seq<char> {
    "{\"npm-expansion\": \""@ + e + "\"}"@
}

/// A text in double quotes.
pub open spec fn quoted(e: Seq<char>) -> Seq<char> {
    seq!['"'] + e + seq!['"']
}

/// The quoted texts, separated by commas.
pub open spec fn joined(es: Seq<Seq<char>>) -> Seq<char>
    decreases es.len(),
{
    if es.len() == 0 {
        seq![]
    } else if es.len() == 1 {
        quoted(es[0])
    } else {
        joined(es.drop_last()) + seq![','] + quoted(es.last())
    }
}

/// The JSON array of the texts.
pub open spec fn json_array(es: Seq<Seq<char>>) -> Seq<char> {
    seq!['['] + joined(es) + seq![']']
}

/// The types a JSON handler can answer in.
pub open spec fn json_types() -> Seq<Seq<char>> {
    seq!["application/json"@]
}

/// Whether the client accepts JSON, or the kind of error its header gives.
pub open spec fn accepts_json(accept: Option<Seq<char>>) -> Result<bool, NpmErrorKind> {
    match spec_best_match(json_types(), accept_text(accept)) {
        Ok(b) => Ok(b == "application/json"@),
        Err(k) => Err(k),
    }
}

/// The search query of a request: its `query` parameter, or a single space.
pub open spec fn query_of(q: crate::request::PairsView) -> Seq<char> {
    match lookup(q, "query"@) {
        Some(v) => v,
        None => " "@,
    }
}

/// What `random` gives for a request and the expansions.
pub open spec fn random_post(
    req: crate::request::RequestView,
    model: Seq<Seq<char>>,
    r: Result<HttpResponse, NpmExpansionsError>,
) -> bool {
    match accepts_json(accept_of(req.1)) {
        Err(k) => r is Err && r->Err_0.kind_spec() == k,
        Ok(false) => r is Ok && r->Ok_0@ == not_acceptable_view(),
        Ok(true) => if model.len() == 0 {
            r is Err && r->Err_0.kind_spec() == NpmErrorKind::InternalServerError
        } else {
            r is Ok && exists|e: Seq<char>|
                #[trigger] model.contains(e) && r->Ok_0@ == (
                    ok_status(),
                    json_header(),
                    random_body(e),
                )
        },
    }
}

/// What `all` gives for a request and the expansions.
pub open spec fn all_post(
    req: crate::request::RequestView,
    model: Seq<Seq<char>>,
    r: Result<HttpResponse, NpmExpansionsError>,
) -> bool {
    match accepts_json(accept_of(req.1)) {
        Err(k) => r is Err && r->Err_0.kind_spec() == k,
        Ok(false) => r is Ok && r->Ok_0@ == not_acceptable_view(),
        Ok(true) => r is Ok && r->Ok_0@ == (
            ok_status(),
            json_header(),
            json_array(model),
        ),
    }
}

/// What `search` gives for a request and the expansions.
pub open spec fn search_post(
    req: crate::request::RequestView,
    model: Seq<Seq<char>>,
    r: Result<HttpResponse, NpmExpansionsError>,
) -> bool {
    match accepts_json(accept_of(req.1)) {
        Err(k) => r is Err && r->Err_0.kind_spec() == k,
        Ok(false) => r is Ok && r->Ok_0@ == not_acceptable_view(),
        Ok(true) => r is Ok && exists|idx: Seq<usize>|
            #[trigger] is_ranking(similarities(model, query_of(req.2)), idx)
                && idx.len() == (if model.len() < SEARCH_LIMIT {
                model.len()
            } else {
                SEARCH_LIMIT as nat
            }) && r->Ok_0@ == (
                ok_status(),
                json_header(),
                json_array(idx.map_values(|i: usize| model[i as int])),
            ),
    }
}

/// Whether the client of `request` accepts JSON.
fn negotiate_json(request: &Request) -> (r: Result<bool, NpmExpansionsError>)
    ensures
        match accepts_json(accept_of(request@.1)) {
            Ok(b) => r is Ok && r->Ok_0 == b,
            Err(k) => r is Err && r->Err_0.kind_spec() == k,
        },
{
    let accept = accept_or_empty(request);
    let supported: Vec<&str> = vec!["application/json"];
    assert(texts_view(supported@) =~= json_types());
    match best_match(supported, accept.as_str()) {
        Ok(b) => Ok(str_eq(b.as_str(), "application/json")),
        Err(e) => Err(e),
    }
}

/// The JSON object that carries `expansion`.
pub fn expansion_json(expansion: &str) -> (r: String)
    ensures
        r@ == random_body(expansion@),
{
    let mut body = String::new();
    push_text(&mut body, "{\"npm-expansion\": \"");
    push_text(&mut body, expansion);
    push_text(&mut body, "\"}");
    assert(body@ =~= random_body(expansion@));
    body
}

/// The JSON array of the texts of `es`.
pub fn json_array_of(es: &Vec<String>) -> (r: String)
    ensures
        r@ == json_array(strings_view(es@)),
{
    let ghost v = strings_view(es@);
    let mut body = String::new();
    push_char(&mut body, '[');
    let mut i: usize = 0;
    while i < es.len()
        invariant
            i <= es.len(),
            v == strings_view(es@),
            body@ == seq!['['] + joined(v.take(i as int)),
        decreases es.len() - i,
    {
        let ghost before = body@;
        if i > 0 {
            push_char(&mut body, ',');
        }
        push_char(&mut body, '"');
        push_text(&mut body, es[i].as_str());
        push_char(&mut body, '"');
        assert(v.take(i + 1).drop_last() =~= v.take(i as int));
        assert(v.take(i + 1).last() == es@[i as int]@);
        if i == 0 {
            assert(joined(v.take(i as int)) =~= seq![]);
            assert(body@ =~= seq!['['] + joined(v.take(i + 1)));
        } else {
            assert(body@ =~= seq!['['] + joined(v.take(i + 1)));
        }
        i += 1;
    }
    assert(v.take(i as int) =~= v);
    push_char(&mut body, ']');
    body
}

impl NpmController {
    /// A random expansion, as `{"npm-expansion": "<expansion>"}`.
    pub fn random(request: &Request, expansions_model: &ExpansionsModel) -> (r: Result<
        HttpResponse,
        NpmExpansionsError,
    >)
        ensures
            random_post(request@, expansions_model@, r),
    {
        let json = match negotiate_json(request) {
            Ok(b) => b,
            Err(e) => {
                return Err(e);
            },
        };
        if !json {
            return Ok(not_acceptable_response());
        }
        if expansions_model.all().len() == 0 {
            return Err(NpmExpansionsError::from(NpmErrorKind::InternalServerError));
        }
        let e = expansions_model.random_expansion();
        let body = expansion_json(e.as_str());
        Ok(HttpResponse::new("200 OK", "Content-Type: application/json", body.as_str()))
    }

    /// All expansions, as a JSON array in file order.
    pub fn all(request: &Request, expansions_model: &ExpansionsModel) -> (r: Result<
        HttpResponse,
        NpmExpansionsError,
    >)
        ensures
            all_post(request@, expansions_model@, r),
    {
        let json = match negotiate_json(request) {
            Ok(b) => b,
            Err(e) => {
                return Err(e);
            },
        };
        if !json {
            return Ok(not_acceptable_response());
        }
        let body = json_array_of(expansions_model.all());
        Ok(HttpResponse::new("200 OK", "Content-Type: application/json", body.as_str()))
    }

    /// The expansions most similar to the `query` parameter (a single space when
    /// absent), as a JSON array.
    pub fn search(request: &Request, expansions_model: &ExpansionsModel) -> (r: Result<
        HttpResponse,
        NpmExpansionsError,
    >)
        ensures
            search_post(request@, expansions_model@, r),
    {
        let json = match negotiate_json(request) {
            Ok(b) => b,
            Err(e) => {
                return Err(e);
            },
        };
        if !json {
            return Ok(not_acceptable_response());
        }
        let query = match request.query_param("query") {
            Some(q) => q,
            None => " ".to_owned(),
        };
        assert(query@ == query_of(request@.2));
        let found = expansions_model.search(query.as_str());
        let body = json_array_of(&found);
        Ok(HttpResponse::new("200 OK", "Content-Type: application/json", body.as_str()))
    }
}

/// The handlers that the route table names.
#[derive(Debug, Clone, Copy, PartialEq, Eq, Structural)]
pub enum NpmRoute {
    /// `NpmController::random`.
    Random,
    /// `NpmController::all`.
    All,
    /// `NpmController::search`.
    Search,
}

impl NpmRoute {
    /// Runs the handler this route names.
    pub fn handle(&self, request: &Request, expansions_model: &ExpansionsModel) -> (r: Result<
        HttpResponse,
        NpmExpansionsError,
    >)
        ensures
            *self == NpmRoute::Random ==> random_post(request@, expansions_model@, r),
            *self == NpmRoute::All ==> all_post(request@, expansions_model@, r),
            *self == NpmRoute::Search ==> search_post(request@, expansions_model@, r),
    {
        match self {
            NpmRoute::Random => NpmController::random(request, expansions_model),
            NpmRoute::All => NpmController::all(request, expansions_model),
            NpmRoute::Search => NpmController::search(request, expansions_model),
        }
    }
}

/// The server's route table: a random expansion, all expansions, and search.
pub fn route_config() -> (r: Vec<(String, NpmRoute)>)
    ensures
        r@.len() == 3,
        r@[0].0@ == "GET /api/random HTTP/1.1"@ && r@[0].1 == NpmRoute::Random,
        r@[1].0@ == "GET /api/all HTTP/1.1"@ && r@[1].1 == NpmRoute::All,
        r@[2].0@ == "GET /api/search HTTP/1.1"@ && r@[2].1 == NpmRoute::Search,
{
    let mut r: Vec<(String, NpmRoute)> = Vec::new();
    r.push(("GET /api/random HTTP/1.1".to_owned(), NpmRoute::Random));
    r.push(("GET /api/all HTTP/1.1".to_owned(), NpmRoute::All));
    r.push(("GET /api/search HTTP/1.1".to_owned(), NpmRoute::Search));
    r
}

} // verus!
