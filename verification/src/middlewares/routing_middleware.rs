//! The router: the registered routes, first-match resolution in
//! registration order, and the dispatch to the matched handler.

use vstd::prelude::*;

use crate::errors::{HandlerFault, HttpError};
use crate::http_context::HttpContext;
use crate::http_request::{HttpMethod, HttpRequest};
use crate::http_response::{HttpResponse, HttpStatusCode};
use crate::strmap::StrMap;
use crate::strutil::split_chars;
use crate::url_matcher::{match_url_spec, pattern_valid, MatchMethod, UrlMatcher};

verus! {

/// A route handler. The host program implements it (for example by
/// wrapping plain functions); nothing is promised of its result, and the
/// pipeline is verified for every outcome, success or fault.
pub trait Handler {
    /// Answers one request, given the captured path parameters.
    fn handle(&self, req: &mut HttpRequest, ctx: &HttpContext) -> Result<
        HttpResponse,
        HandlerFault,
    >;
}

/// Holds the registered routes and resolves each request to the first
/// matching one, in registration order; a miss answers 404 directly, and
/// the stage never passes a request on.
pub struct RoutingMiddleware<H> {
    routes: Vec<(UrlMatcher, H)>,
}

/// The first route at or after `i` that matches, with its captures.
pub open spec fn resolve_from(
    routes: Seq<(MatchMethod, Seq<char>)>,
    method: HttpMethod,
    url: Seq<char>,
    i: int,
) -> Option<(int, Map<Seq<char>, Seq<char>>)>
    decreases routes.len() - i,
{
    if i < 0 || i >= routes.len() {
        None
    } else {
        match match_url_spec(routes[i].0, routes[i].1, method, url) {
            Some(m) => Some((i, m)),
            None => resolve_from(routes, method, url, i + 1),
        }
    }
}

/// The first matching route overall.
pub open spec fn resolve_spec(
    routes: Seq<(MatchMethod, Seq<char>)>,
    method: HttpMethod,
    url: Seq<char>,
) -> Option<(int, Map<Seq<char>, Seq<char>>)> {
    resolve_from(routes, method, url, 0)
}

impl<H: Handler> RoutingMiddleware<H> {
    /// The method filters and patterns of the routes, in registration
    /// order.
    pub closed spec fn routes_spec(&self) -> Seq<(MatchMethod, Seq<char>)> {
        Seq::new(
            self.routes@.len(),
            |i: int| (self.routes@[i].0.method_spec(), self.routes@[i].0.pattern_spec()),
        )
    }

    /// Every registered pattern follows the grammar.
    pub closed spec fn wf(&self) -> bool {
        forall|i: int| 0 <= i < self.routes@.len() ==> (#[trigger] self.routes@[i].0).wf()
    }

    /// A router with no routes.
    pub fn new() -> (r: RoutingMiddleware<H>)
        ensures
            r.wf(),
            r.routes_spec() == Seq::<(MatchMethod, Seq<char>)>::empty(),
    {
        let r = RoutingMiddleware { routes: Vec::new() };
        proof {
            assert(r.routes_spec() =~= Seq::<(MatchMethod, Seq<char>)>::empty());
        }
        r
    }

    /// Registers a route at the end of the list; registration succeeds
    /// exactly when the pattern follows the grammar, and a rejected
    /// pattern changes nothing.
    pub fn add_route(&mut self, method: MatchMethod, pattern: &str, handler: H) -> (r: Result<
        (),
        HttpError,
    >)
        requires
            old(self).wf(),
        ensures
            final(self).wf(),
            r is Ok <==> pattern_valid(split_chars(pattern@, '/')),
            match r {
                Ok(()) => final(self).routes_spec() == old(self).routes_spec().push(
                    (method, pattern@),
                ),
                Err(e) => {
                    &&& e == HttpError::InvalidPattern
                    &&& final(self).routes_spec() == old(self).routes_spec()
                    &&& *final(self) == *old(self)
                },
            },
    {
        let matcher = match UrlMatcher::new(method, pattern) {
            Ok(m) => m,
            Err(e) => {
                return Err(e);
            },
        };
        self.routes.push((matcher, handler));
        proof {
            assert(self.routes_spec() =~= old(self).routes_spec().push((method, pattern@)));
        }
        Ok(())
    }

    /// Finds the first route matching the method and path, with the
    /// parameters its pattern captures.
    pub fn resolve(&self, method: &HttpMethod, url: &str) -> (r: Option<(usize, StrMap)>)
        ensures
            match r {
                Some((i, params)) => {
                    &&& i < self.routes_spec().len()
                    &&& resolve_spec(self.routes_spec(), *method, url@) == Some(
                        (i as int, params.map_view()),
                    )
                },
                None => resolve_spec(self.routes_spec(), *method, url@) is None,
            },
    {
        let n = self.routes.len();
        let mut i: usize = 0;
        while i < n
            invariant
                n == self.routes@.len(),
                n == self.routes_spec().len(),
                i <= n,
                resolve_spec(self.routes_spec(), *method, url@) == resolve_from(
                    self.routes_spec(),
                    *method,
                    url@,
                    i as int,
                ),
            decreases n - i,
        {
            let (matched, params) = self.routes[i].0.match_url(method, url);
            proof {
                assert(self.routes_spec()[i as int] == (
                    self.routes@[i as int].0.method_spec(),
                    self.routes@[i as int].0.pattern_spec(),
                ));
            }
            if matched {
                return Some((i, params));
            }
            i = i + 1;
        }
        None
    }

    /// Resolves the request and runs the matched handler with a context
    /// carrying the captured parameters; a miss answers an empty 404.
    pub fn dispatch(&self, req: &mut HttpRequest) -> (r: Result<HttpResponse, HandlerFault>)
        ensures
            resolve_spec(self.routes_spec(), old(req).method, old(req).path@) is None ==> {
                &&& *final(req) == *old(req)
                &&& r matches Ok(resp)
                &&& resp.status_spec() == HttpStatusCode::NotFound
                &&& resp.headers_seq() == seq![("Content-Length"@, "0"@)]
                &&& resp.body_spec() is None
            },
    {
        let hit = self.resolve(&req.method, req.path.as_str());
        match hit {
            Some((i, params)) => {
                let context = HttpContext::new_with_params(params);
                self.routes[i].1.handle(req, &context)
            },
            None => Ok(HttpResponse::new(HttpStatusCode::NotFound)),
        }
    }
}

} // verus!
