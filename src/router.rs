//! Dispatch of a request to the handler of its route key.
use vstd::prelude::*;
use crate::default_controller::{spec_default_response, DefaultController};
use crate::expansions_model::ExpansionsModel;
use crate::http_response::HttpResponse;
use crate::npm_expansion_error::NpmExpansionsError;
use crate::request::{accept_of, spec_status_line_path, Request};
use crate::text::str_eq;

verus! {


/// The index of the route for `key`: the last entry with that key.
pub open spec fn route_index(keys: Seq<Seq<char>>, key: Seq<char>) -> Option<int>
    decreases keys.len(),
{
    if keys.len() == 0 {
        None
    } else if keys.last() == key {
        Some(keys.len() - 1)
    } else {
        route_index(keys.drop_last(), key)
    }
}

/// The route keys of a route table.
pub open spec fn route_keys<F>(routes: Seq<(String, F)>) -> Seq<Seq<char>> {
    routes.map_values(|r: (String, F)| r.0@)
}

/// A handler that accepts every request and model.
pub open spec fn total_handler<F: Fn(&Request, &ExpansionsModel) -> Result<HttpResponse, NpmExpansionsError>>(f: F) -> bool {
    forall|req: &Request, m: &ExpansionsModel| call_requires(f, (req, m))
}

/// A table from route key to handler.
pub struct Router<F> {
    routes_config: Vec<(String, F)>,
}

impl<F: Fn(&Request, &ExpansionsModel) -> Result<HttpResponse, NpmExpansionsError>> Router<F> {
    /// The routes of this router.
    pub closed spec fn routes(&self) -> Seq<(String, F)> {
        self.routes_config@
    }

    /// Every handler of this router accepts every request.
    pub open spec fn wf(&self) -> bool {
        forall|i: int| 0 <= i < self.routes().len() ==> total_handler(#[trigger] self.routes()[i].1)
    }

    /// A router over the given table.
    pub fn new(routes_config: Vec<(String, F)>) -> (r: Router<F>)
        requires
            forall|i: int| 0 <= i < routes_config@.len() ==> total_handler(#[trigger] routes_config@[i].1),
        ensures
            r.routes() == routes_config@,
            r.wf(),
    {
        Router { routes_config }
    }

    /// Runs the handler of the request's route key, or the not-found handler when
    /// no route has that key.
    pub fn route_request(&self, request: &Request, expansions_model: &ExpansionsModel) -> (r: Result<
        HttpResponse,
        NpmExpansionsError,
    >)
        requires
            self.wf(),
        ensures
            match route_index(route_keys(self.routes()), spec_status_line_path(request@.0)) {
                Some(i) => call_ensures(self.routes()[i].1, (request, expansions_model), r),
                None => match spec_default_response(
                    accept_of(request@.1),
                    "404 NOT FOUND"@,
                    "NOT FOUND"@,
                ) {
                    Ok(v) => r is Ok && r->Ok_0@ == v,
                    Err(k) => r is Err && r->Err_0.kind_spec() == k,
                },
            },
    {
        let key = request.status_line_path();
        let ghost keys = route_keys(self.routes());
        let mut i = self.routes_config.len();
        assert(keys.take(i as int) =~= keys);
        while i > 0
            invariant
                i <= self.routes_config.len(),
                self.wf(),
                key@ == spec_status_line_path(request@.0),
                keys == route_keys(self.routes()),
                self.routes() == self.routes_config@,
                route_index(keys, key@) == route_index(keys.take(i as int), key@),
            decreases i,
        {
            assert(keys.take(i as int).last() == self.routes_config@[i - 1].0@);
            if str_eq(self.routes_config[i - 1].0.as_str(), key.as_str()) {
                assert(total_handler(self.routes()[i - 1].1));
                assert(route_index(keys, key@) == Some(i - 1));
                let handler = &self.routes_config[i - 1].1;
                assert(*handler == self.routes()[i - 1].1);
                return handler(request, expansions_model);
            }
            assert(keys.take(i as int).drop_last() =~= keys.take(i - 1));
            i -= 1;
        }
        assert(keys.take(0) =~= seq![]);
        DefaultController::not_found(request)
    }
}

} // verus!
