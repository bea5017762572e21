//! The server core: route registration, the composed middleware pipeline,
//! and the per-request step of the connection state machine.
//!
//! Accepting sockets, reading bytes and spawning workers stays with the
//! host program: it reads each request's head and body off the wire,
//! hands them in here, and writes the returned bytes back.

use vstd::prelude::*;

use crate::errors::{HandlerFault, HttpError};
use crate::http_request::{head_model, method_name, HttpMethod, HttpRequest};
use crate::http_response::{serialize_spec, HttpResponse, HttpStatusCode};
use crate::middlewares::encoding_middleware::{
    is_gzip_rewritten, lemma_gzip_rewrite_marks, wants_gzip,
};
use crate::middlewares::http_middleware::{HttpMiddleware, MiddlewareStep};
use crate::middlewares::panic_middleware::is_internal_error_response;
use crate::middlewares::routing_middleware::{resolve_spec, Handler, RoutingMiddleware};
use crate::middlewares::static_files_middleware::FileSystem;
use crate::middlewares::statistic_middleware::{dump_chars, sat_inc, StatisticMiddleware};
use crate::strmap::map_of_entries;
use crate::strutil::{eq_str, split_chars};
use crate::url_matcher::{match_url_spec, pattern_valid, MatchMethod};
use vstd::utf8::encode_utf8;

verus! {

// ---------------------------------------------------------------------------
// Keep-alive
// ---------------------------------------------------------------------------

/// Whether an exchange closes the connection afterward: any version other
/// than HTTP/1.1, or an explicit `Connection: close` header.
pub open spec fn close_after(version: Seq<char>, headers: Map<Seq<char>, Seq<char>>) -> bool {
    ||| version != "HTTP/1.1"@
    ||| (headers.contains_key("Connection"@) && headers["Connection"@] == "close"@)
}

/// Decides keep-alive for one parsed request.
pub fn wants_close(req: &HttpRequest) -> (r: bool)
    ensures
        r == close_after(req.http_version@, req.headers.map_view()),
{
    if !eq_str(req.http_version.as_str(), "HTTP/1.1") {
        return true;
    }
    match req.headers.get("Connection") {
        Some(v) => eq_str(v.as_str(), "close"),
        None => false,
    }
}

// ---------------------------------------------------------------------------
// What each stage does with a request, as predicates
// ---------------------------------------------------------------------------

/// The statistics stage inside a `Statistic` unit.
pub open spec fn stat_of(u: HttpMiddleware) -> StatisticMiddleware
    recommends
        u is Statistic,
{
    u->Statistic_0
}

/// Whether stage `u` is sure to hand a request with this method and path
/// on to the next stage, whatever any port or handler answers.
pub open spec fn passes_through(u: HttpMiddleware, method: HttpMethod, path: Seq<char>) -> bool {
    match u {
        HttpMiddleware::Dummy(_) => false,
        HttpMiddleware::Logging(_) => true,
        HttpMiddleware::Panic(_) => true,
        HttpMiddleware::Encoding(_) => true,
        HttpMiddleware::Statistic(s) => path != s.path_spec(),
        HttpMiddleware::StaticFiles(f) => match_url_spec(
            f.matcher_method(),
            f.matcher_pattern(),
            method,
            path,
        ) is None || (!(method is GET) && !(method is POST)),
    }
}

/// Whether stage `u` hands a successful response outward unchanged, for a
/// request that arrived with these headers.
pub open spec fn preserves_response(u: HttpMiddleware, headers: Map<Seq<char>, Seq<char>>) -> bool {
    match u {
        HttpMiddleware::Encoding(_) => !wants_gzip(headers),
        _ => true,
    }
}

/// Every stage in `units[lo..hi]` passes this request through.
pub open spec fn all_pass_through(
    units: Seq<HttpMiddleware>,
    lo: int,
    hi: int,
    method: HttpMethod,
    path: Seq<char>,
) -> bool {
    forall|k: int| lo <= k < hi ==> passes_through(#[trigger] units[k], method, path)
}

/// Every stage in `units[lo..hi]` hands a successful response outward
/// unchanged.
pub open spec fn all_preserve_response(
    units: Seq<HttpMiddleware>,
    lo: int,
    hi: int,
    headers: Map<Seq<char>, Seq<char>>,
) -> bool {
    forall|k: int| lo <= k < hi ==> preserves_response(#[trigger] units[k], headers)
}

/// The router's exact miss answer: the empty 404.
pub open spec fn is_not_found_response(r: HttpResponse) -> bool {
    &&& r.status_spec() == HttpStatusCode::NotFound
    &&& r.headers_seq() == seq![("Content-Length"@, "0"@)]
    &&& r.body_spec() is None
}

/// `resp` is the statistics report of stage `s`: a 200 whose body renders
/// `s`'s counters.
pub open spec fn is_report_of(resp: HttpResponse, s: StatisticMiddleware) -> bool {
    &&& resp.status_spec() == HttpStatusCode::OK
    &&& resp.body_spec() == Some(
        encode_utf8(dump_chars(s.total_spec(), s.by_path_seq(), s.statuses_spec())),
    )
}

/// Stage `s2` is `s` with this request counted: the total grew by exactly
/// one and the request's method-path key was bumped, both saturating.
pub open spec fn counted_once(
    s2: StatisticMiddleware,
    s: StatisticMiddleware,
    method: HttpMethod,
    path: Seq<char>,
) -> bool {
    &&& s2.path_spec() == s.path_spec()
    &&& s2.total_spec() == sat_inc(s.total_spec())
    &&& s2.by_path_map() == s.by_path_map().insert(
        method_name(method) + " "@ + path,
        sat_inc(
            if s.by_path_map().contains_key(method_name(method) + " "@ + path) {
                s.by_path_map()[method_name(method) + " "@ + path]
            } else {
                0
            },
        ),
    )
}

// ---------------------------------------------------------------------------
// The pipeline
// ---------------------------------------------------------------------------

/// The statistics key for a request: the method name, a space, the path.
fn request_key(req: &HttpRequest) -> (r: String)
    ensures
        r@ == method_name(req.method) + " "@ + req.path@,
{
    let mut s = String::new();
    s.append(req.method.name());
    s.append(" ");
    s.append(req.path.as_str());
    proof {
        assert(s@ =~= method_name(req.method) + " "@ + req.path@);
    }
    s
}

/// Stage `i`'s work on the request's way in: log, count, note the
/// encoding wish, serve a file, or answer outright.
fn enter_stage<FS: FileSystem>(
    units: &mut Vec<HttpMiddleware>,
    i: usize,
    req: &mut HttpRequest,
    fs: &mut FS,
) -> (step: MiddlewareStep)
    requires
        i < old(units)@.len(),
    ensures
        final(units)@.len() == old(units)@.len(),
        forall|j: int|
            0 <= j < old(units)@.len() && j != i ==> final(units)@[j] == old(units)@[j],
        final(units)@[i as int].stable_from(old(units)@[i as int]),
        final(req).method == old(req).method,
        final(req).path == old(req).path,
        final(req).qury == old(req).qury,
        final(req).http_version == old(req).http_version,
        final(req).headers == old(req).headers,
        final(req).query_params == old(req).query_params,
        passes_through(old(units)@[i as int], old(req).method, old(req).path@) ==> step
            is Continue,
        old(units)@[i as int] is Dummy ==> {
            &&& final(units)@ == old(units)@
            &&& *final(req) == *old(req)
            &&& step matches MiddlewareStep::Short(resp) && is_not_found_response(resp)
        },
        old(units)@[i as int] is Logging ==> final(units)@ == old(units)@ && *final(req) == *old(
            req,
        ) && step is Continue,
        old(units)@[i as int] is Panic ==> final(units)@ == old(units)@ && *final(req) == *old(
            req,
        ) && step is Continue,
        old(units)@[i as int] is Statistic ==> {
            &&& *final(req) == *old(req)
            &&& old(req).path@ == stat_of(old(units)@[i as int]).path_spec() ==> {
                &&& final(units)@ == old(units)@
                &&& step matches MiddlewareStep::Short(resp) && is_report_of(
                    resp,
                    stat_of(old(units)@[i as int]),
                )
            }
            &&& old(req).path@ != stat_of(old(units)@[i as int]).path_spec() ==> {
                &&& step is Continue
                &&& final(units)@[i as int] is Statistic
                &&& counted_once(
                    stat_of(final(units)@[i as int]),
                    stat_of(old(units)@[i as int]),
                    old(req).method,
                    old(req).path@,
                )
            }
        },
        old(units)@[i as int] is Encoding ==> {
            &&& *final(req) == *old(req)
            &&& step is Continue
            &&& final(units)@[i as int] is Encoding
            &&& (final(units)@[i as int]->Encoding_0).gzip_pending_spec() == wants_gzip(
                old(req).headers.map_view(),
            )
        },
        old(units)@[i as int] is StaticFiles ==> final(units)@ == old(units)@,
{
    let step = {
        let u = &mut units[i];
        match u {
            HttpMiddleware::Dummy(d) => MiddlewareStep::Short(d.respond()),
            HttpMiddleware::Logging(l) => {
                l.log_request(&*req);
                MiddlewareStep::Continue
            },
            HttpMiddleware::Panic(_) => MiddlewareStep::Continue,
            HttpMiddleware::Statistic(s) => {
                if s.is_report_path(req.path.as_str()) {
                    MiddlewareStep::Short(s.report_response())
                } else {
                    let key = request_key(&*req);
                    s.record_request(key.as_str());
                    MiddlewareStep::Continue
                }
            },
            HttpMiddleware::Encoding(e) => {
                e.note_request(&*req);
                MiddlewareStep::Continue
            },
            HttpMiddleware::StaticFiles(sf) => {
                match sf.serve(req, fs) {
                    Some(resp) => MiddlewareStep::Short(resp),
                    None => MiddlewareStep::Continue,
                }
            },
        }
    };
    proof {
        match old(units)@[i as int] {
            HttpMiddleware::Dummy(_) => {
                assert(units@ =~= old(units)@);
            },
            HttpMiddleware::Logging(_) => {
                assert(units@ =~= old(units)@);
            },
            HttpMiddleware::Panic(_) => {
                assert(units@ =~= old(units)@);
            },
            HttpMiddleware::Statistic(s) => {
                if old(req).path@ == s.path_spec() {
                    assert(units@ =~= old(units)@);
                }
            },
            HttpMiddleware::Encoding(_) => {},
            HttpMiddleware::StaticFiles(_) => {
                assert(units@ =~= old(units)@);
            },
        }
    }
    step
}

/// Stage `i`'s work on the response's way out: log the status, count it,
/// isolate a fault, or compress the body.
fn leave_stage(
    units: &mut Vec<HttpMiddleware>,
    i: usize,
    outcome: Result<HttpResponse, HandlerFault>,
) -> (r: Result<HttpResponse, HandlerFault>)
    requires
        i < old(units)@.len(),
    ensures
        final(units)@.len() == old(units)@.len(),
        forall|j: int|
            0 <= j < old(units)@.len() && j != i ==> final(units)@[j] == old(units)@[j],
        final(units)@[i as int].stable_from(old(units)@[i as int]),
        outcome is Ok ==> r is Ok && r->Ok_0.status_spec() == outcome->Ok_0.status_spec(),
        old(units)@[i as int] is Logging || old(units)@[i as int] is Dummy || old(units)@[i as int] is StaticFiles ==> r == outcome && final(units)@ == old(units)@,
        old(units)@[i as int] is Panic ==> {
            &&& final(units)@ == old(units)@
            &&& outcome is Ok ==> r == outcome
            &&& outcome is Err ==> r is Ok && is_internal_error_response(r->Ok_0)
        },
        old(units)@[i as int] is Statistic ==> {
            &&& r == outcome
            &&& final(units)@[i as int] is Statistic
            &&& stat_of(final(units)@[i as int]).path_spec() == stat_of(
                old(units)@[i as int],
            ).path_spec()
            &&& stat_of(final(units)@[i as int]).total_spec() == stat_of(
                old(units)@[i as int],
            ).total_spec()
            &&& stat_of(final(units)@[i as int]).by_path_seq() == stat_of(
                old(units)@[i as int],
            ).by_path_seq()
        },
        old(units)@[i as int] is Encoding ==> {
            &&& final(units)@ == old(units)@
            &&& (old(units)@[i as int]->Encoding_0).gzip_pending_spec() ==> {
                &&& outcome is Err ==> r == outcome
                &&& outcome is Ok ==> r is Ok && is_gzip_rewritten(r->Ok_0)
            }
            &&& !(old(units)@[i as int]->Encoding_0).gzip_pending_spec() ==> r == outcome
        },
{
    let ghost b0 = if outcome is Ok && outcome->Ok_0.body_spec() is Some {
        outcome->Ok_0.body_spec()->Some_0
    } else {
        Seq::<u8>::empty()
    };
    let r = {
        let u = &mut units[i];
        match u {
            HttpMiddleware::Logging(l) => {
                match outcome {
                    Ok(resp) => {
                        l.log_response(&resp);
                        Ok(resp)
                    },
                    Err(f) => Err(f),
                }
            },
            HttpMiddleware::Panic(p) => p.isolate(outcome),
            HttpMiddleware::Statistic(s) => {
                match outcome {
                    Ok(resp) => {
                        s.record_status(resp.status_code());
                        Ok(resp)
                    },
                    Err(f) => Err(f),
                }
            },
            HttpMiddleware::Encoding(e) => e.transform(outcome),
            _ => outcome,
        }
    };
    proof {
        match old(units)@[i as int] {
            HttpMiddleware::Logging(_) => {
                assert(units@ =~= old(units)@);
            },
            HttpMiddleware::Dummy(_) => {
                assert(units@ =~= old(units)@);
            },
            HttpMiddleware::StaticFiles(_) => {
                assert(units@ =~= old(units)@);
            },
            HttpMiddleware::Panic(_) => {
                assert(units@ =~= old(units)@);
            },
            HttpMiddleware::Encoding(e) => {
                assert(units@ =~= old(units)@);
                if e.gzip_pending_spec() && outcome is Ok {
                    lemma_gzip_rewrite_marks(outcome->Ok_0.headers_map(), b0, r->Ok_0);
                }
            },
            HttpMiddleware::Statistic(_) => {},
        }
    }
    r
}

/// Runs the pipeline from stage `i` on: each stage may answer the request
/// directly or pass it inward, post-processing the outcome on the way
/// out; past the last stage the router dispatches to a handler.
#[verifier::spinoff_prover]
#[verifier::rlimit(100)]
fn run_from<H: Handler, FS: FileSystem>(
    units: &mut Vec<HttpMiddleware>,
    i: usize,
    routing: &RoutingMiddleware<H>,
    req: &mut HttpRequest,
    fs: &mut FS,
) -> (r: Result<HttpResponse, HandlerFault>)
    requires
        i <= old(units)@.len(),
    ensures
        final(units)@.len() == old(units)@.len(),
        forall|j: int| 0 <= j < i ==> final(units)@[j] == old(units)@[j],
        forall|j: int|
            0 <= j < old(units)@.len() ==> (#[trigger] final(units)@[j]).stable_from(
                old(units)@[j],
            ),
        (exists|k: int|
            i <= k < old(units)@.len() && (#[trigger] old(units)@[k]) is Panic) ==> r is Ok,
        all_pass_through(
            old(units)@,
            i as int,
            old(units)@.len() as int,
            old(req).method,
            old(req).path@,
        ) && resolve_spec(routing.routes_spec(), old(req).method, old(req).path@) is None ==> r
            is Ok && r->Ok_0.status_spec() == HttpStatusCode::NotFound,
        all_pass_through(
            old(units)@,
            i as int,
            old(units)@.len() as int,
            old(req).method,
            old(req).path@,
        ) && all_preserve_response(
            old(units)@,
            i as int,
            old(units)@.len() as int,
            old(req).headers.map_view(),
        ) && resolve_spec(routing.routes_spec(), old(req).method, old(req).path@) is None ==> r
            is Ok && is_not_found_response(r->Ok_0),
        forall|j: int|
            i <= j < old(units)@.len() && (#[trigger] old(units)@[j]) is Dummy
                && all_pass_through(old(units)@, i as int, j, old(req).method, old(req).path@)
                && all_preserve_response(old(units)@, i as int, j, old(req).headers.map_view())
                ==> r is Ok && is_not_found_response(r->Ok_0),
        forall|j: int|
            i <= j < old(units)@.len() && (#[trigger] old(units)@[j]) is Statistic && old(req).path@ == stat_of(old(units)@[j]).path_spec() && all_pass_through(
                old(units)@,
                i as int,
                j,
                old(req).method,
                old(req).path@,
            ) && all_preserve_response(old(units)@, i as int, j, old(req).headers.map_view())
                ==> r is Ok && is_report_of(r->Ok_0, stat_of(old(units)@[j])) && final(units)@[j] == old(units)@[j],
        forall|j: int|
            i <= j < old(units)@.len() && (#[trigger] old(units)@[j]) is Statistic && old(req).path@ != stat_of(old(units)@[j]).path_spec() && all_pass_through(
                old(units)@,
                i as int,
                j,
                old(req).method,
                old(req).path@,
            ) ==> final(units)@[j] is Statistic && counted_once(
                stat_of(final(units)@[j]),
                stat_of(old(units)@[j]),
                old(req).method,
                old(req).path@,
            ),
        forall|j: int|
            i <= j < old(units)@.len() && (#[trigger] old(units)@[j]) is Encoding && wants_gzip(
                old(req).headers.map_view(),
            ) && all_pass_through(old(units)@, i as int, j, old(req).method, old(req).path@)
                && all_preserve_response(old(units)@, i as int, j, old(req).headers.map_view())
                && r is Ok ==> is_gzip_rewritten(r->Ok_0) || is_internal_error_response(r->Ok_0),
    decreases old(units)@.len() - i,
{
    let ghost n_ = old(units)@.len() as int;
    let ghost m = req.method;
    let ghost p = req.path@;
    let ghost h = req.headers.map_view();
    let n = units.len();
    if i == n {
        let r = routing.dispatch(req);
        proof {
            assert forall|j: int|
                0 <= j < old(units)@.len() implies (#[trigger] units@[j]).stable_from(
                old(units)@[j],
            ) by {
                lemma_stable_refl(units@[j]);
            }
        }
        return r;
    }
    let step = enter_stage(units, i, req, fs);
    let ghost mid_units = units@;
    let ghost mid_req = *req;
    match step {
        MiddlewareStep::Short(resp) => {
            proof {
                assert(!passes_through(old(units)@[i as int], m, p));
                assert forall|j: int|
                    0 <= j < old(units)@.len() implies (#[trigger] units@[j]).stable_from(
                    old(units)@[j],
                ) by {
                    if j != i {
                        lemma_stable_refl(old(units)@[j]);
                    }
                }
            }
            Ok(resp)
        },
        MiddlewareStep::Continue => {
            let outcome = run_from(units, i + 1, routing, req, fs);
            let ghost rec_units = units@;
            let r = leave_stage(units, i, outcome);
            proof {
                let routes = routing.routes_spec();
                // element bookkeeping across the three phases
                assert(forall|k: int| 0 <= k < n_ && k != i ==> mid_units[k] == old(units)@[k]);
                assert(forall|k: int| 0 <= k < i + 1 ==> rec_units[k] == mid_units[k]);
                assert(forall|k: int| 0 <= k < n_ && k != i ==> units@[k] == rec_units[k]);
                assert(rec_units[i as int] == mid_units[i as int]);
                assert(mid_req.method == m && mid_req.path@ == p && mid_req.headers.map_view()
                    == h);
                // stability
                assert forall|j: int|
                    0 <= j < n_ implies (#[trigger] units@[j]).stable_from(old(units)@[j]) by {
                    if j == i {
                        lemma_stable_trans(
                            old(units)@[i as int],
                            mid_units[i as int],
                            units@[i as int],
                        );
                    } else {
                        assert(rec_units[j].stable_from(mid_units[j]));
                    }
                }
                // fault isolation: a Panic stage anywhere keeps the result Ok
                if exists|k: int| i <= k < n_ && (#[trigger] old(units)@[k]) is Panic {
                    let k = choose|k: int|
                        i <= k < n_ && (#[trigger] old(units)@[k]) is Panic;
                    if k == i {
                        assert(mid_units[i as int] is Panic);
                        assert(r is Ok);
                    } else {
                        assert(mid_units[k] == old(units)@[k]);
                        assert(mid_units[k] is Panic);
                        assert(outcome is Ok);
                        assert(r is Ok);
                    }
                }
                // a clean stage hands a successful outcome outward unchanged
                assert(outcome is Ok && preserves_response(old(units)@[i as int], h) ==> r
                    == outcome) by {
                    if outcome is Ok && preserves_response(old(units)@[i as int], h) {
                        match old(units)@[i as int] {
                            HttpMiddleware::Encoding(_) => {
                                assert(!wants_gzip(h));
                            },
                            _ => {},
                        }
                    }
                };
                // full pass-through, no matching route
                if all_pass_through(old(units)@, i as int, n_, m, p) && resolve_spec(
                    routes,
                    m,
                    p,
                ) is None {
                    assert forall|k: int|
                        i + 1 <= k < n_ implies passes_through(
                        #[trigger] mid_units[k],
                        mid_req.method,
                        mid_req.path@,
                    ) by {
                        assert(mid_units[k] == old(units)@[k]);
                        assert(passes_through(old(units)@[k], m, p));
                    }
                    assert(all_pass_through(mid_units, i + 1, n_, mid_req.method, mid_req.path@));
                    assert(outcome is Ok);
                    if all_preserve_response(old(units)@, i as int, n_, h) {
                        assert forall|k: int|
                            i + 1 <= k < n_ implies preserves_response(
                            #[trigger] mid_units[k],
                            mid_req.headers.map_view(),
                        ) by {
                            assert(mid_units[k] == old(units)@[k]);
                            assert(preserves_response(old(units)@[k], h));
                        }
                        assert(all_preserve_response(
                            mid_units,
                            i + 1,
                            n_,
                            mid_req.headers.map_view(),
                        ));
                        assert(r == outcome);
                    }
                }
                // a Dummy stage behind a clean prefix: exactly the empty 404
                assert forall|j: int|
                    i <= j < n_ && (#[trigger] old(units)@[j]) is Dummy && all_pass_through(
                        old(units)@,
                        i as int,
                        j,
                        m,
                        p,
                    ) && all_preserve_response(old(units)@, i as int, j, h) implies r is Ok
                    && is_not_found_response(r->Ok_0) by {
                    if j == i {
                        assert(false);
                    } else {
                        assert(passes_through(old(units)@[i as int], m, p));
                        assert(preserves_response(old(units)@[i as int], h));
                        assert(mid_units[j] == old(units)@[j]);
                        assert forall|k: int|
                            i + 1 <= k < j implies passes_through(
                            #[trigger] mid_units[k],
                            mid_req.method,
                            mid_req.path@,
                        ) by {
                            assert(mid_units[k] == old(units)@[k]);
                            assert(passes_through(old(units)@[k], m, p));
                        }
                        assert(all_pass_through(
                            mid_units,
                            i + 1,
                            j,
                            mid_req.method,
                            mid_req.path@,
                        ));
                        assert forall|k: int|
                            i + 1 <= k < j implies preserves_response(
                            #[trigger] mid_units[k],
                            mid_req.headers.map_view(),
                        ) by {
                            assert(mid_units[k] == old(units)@[k]);
                            assert(preserves_response(old(units)@[k], h));
                        }
                        assert(all_preserve_response(
                            mid_units,
                            i + 1,
                            j,
                            mid_req.headers.map_view(),
                        ));
                        assert(outcome is Ok);
                        assert(r == outcome);
                    }
                }
                // a Statistic stage on its reporting path behind a clean prefix
                assert forall|j: int|
                    i <= j < n_ && (#[trigger] old(units)@[j]) is Statistic && p == stat_of(
                        old(units)@[j],
                    ).path_spec() && all_pass_through(old(units)@, i as int, j, m, p)
                        && all_preserve_response(old(units)@, i as int, j, h) implies r is Ok
                    && is_report_of(r->Ok_0, stat_of(old(units)@[j])) && units@[j] == old(units)@[j] by {
                    if j == i {
                        assert(false);
                    } else {
                        assert(passes_through(old(units)@[i as int], m, p));
                        assert(preserves_response(old(units)@[i as int], h));
                        assert(mid_units[j] == old(units)@[j]);
                        assert forall|k: int|
                            i + 1 <= k < j implies passes_through(
                            #[trigger] mid_units[k],
                            mid_req.method,
                            mid_req.path@,
                        ) by {
                            assert(mid_units[k] == old(units)@[k]);
                            assert(passes_through(old(units)@[k], m, p));
                        }
                        assert(all_pass_through(
                            mid_units,
                            i + 1,
                            j,
                            mid_req.method,
                            mid_req.path@,
                        ));
                        assert forall|k: int|
                            i + 1 <= k < j implies preserves_response(
                            #[trigger] mid_units[k],
                            mid_req.headers.map_view(),
                        ) by {
                            assert(mid_units[k] == old(units)@[k]);
                            assert(preserves_response(old(units)@[k], h));
                        }
                        assert(all_preserve_response(
                            mid_units,
                            i + 1,
                            j,
                            mid_req.headers.map_view(),
                        ));
                        assert(outcome is Ok);
                        assert(rec_units[j] == mid_units[j]);
                        assert(units@[j] == rec_units[j]);
                        assert(r == outcome);
                    }
                }
                // a Statistic stage off its reporting path behind a pass-through
                // prefix counts exactly one request
                assert forall|j: int|
                    i <= j < n_ && (#[trigger] old(units)@[j]) is Statistic && p != stat_of(
                        old(units)@[j],
                    ).path_spec() && all_pass_through(old(units)@, i as int, j, m, p) implies
                    units@[j] is Statistic && counted_once(
                    stat_of(units@[j]),
                    stat_of(old(units)@[j]),
                    m,
                    p,
                ) by {
                    if j == i {
                        assert(mid_units[i as int] is Statistic);
                        assert(counted_once(
                            stat_of(mid_units[i as int]),
                            stat_of(old(units)@[i as int]),
                            m,
                            p,
                        ));
                        assert(rec_units[i as int] == mid_units[i as int]);
                    } else {
                        assert(passes_through(old(units)@[i as int], m, p));
                        assert(mid_units[j] == old(units)@[j]);
                        assert forall|k: int|
                            i + 1 <= k < j implies passes_through(
                            #[trigger] mid_units[k],
                            mid_req.method,
                            mid_req.path@,
                        ) by {
                            assert(mid_units[k] == old(units)@[k]);
                            assert(passes_through(old(units)@[k], m, p));
                        }
                        assert(all_pass_through(
                            mid_units,
                            i + 1,
                            j,
                            mid_req.method,
                            mid_req.path@,
                        ));
                        assert(units@[j] == rec_units[j]);
                    }
                }
                // an Encoding stage behind a clean prefix rewrites every success
                assert forall|j: int|
                    i <= j < n_ && (#[trigger] old(units)@[j]) is Encoding && wants_gzip(h)
                        && all_pass_through(old(units)@, i as int, j, m, p)
                        && all_preserve_response(old(units)@, i as int, j, h) && r is Ok implies
                    is_gzip_rewritten(r->Ok_0) || is_internal_error_response(r->Ok_0) by {
                    if j == i {
                        assert(mid_units[i as int] is Encoding);
                        assert((mid_units[i as int]->Encoding_0).gzip_pending_spec());
                    } else {
                        assert(passes_through(old(units)@[i as int], m, p));
                        assert(preserves_response(old(units)@[i as int], h));
                        assert(mid_units[j] == old(units)@[j]);
                        assert forall|k: int|
                            i + 1 <= k < j implies passes_through(
                            #[trigger] mid_units[k],
                            mid_req.method,
                            mid_req.path@,
                        ) by {
                            assert(mid_units[k] == old(units)@[k]);
                            assert(passes_through(old(units)@[k], m, p));
                        }
                        assert(all_pass_through(
                            mid_units,
                            i + 1,
                            j,
                            mid_req.method,
                            mid_req.path@,
                        ));
                        assert forall|k: int|
                            i + 1 <= k < j implies preserves_response(
                            #[trigger] mid_units[k],
                            mid_req.headers.map_view(),
                        ) by {
                            assert(mid_units[k] == old(units)@[k]);
                            assert(preserves_response(old(units)@[k], h));
                        }
                        assert(all_preserve_response(
                            mid_units,
                            i + 1,
                            j,
                            mid_req.headers.map_view(),
                        ));
                        if outcome is Ok {
                            assert(is_gzip_rewritten(outcome->Ok_0) || is_internal_error_response(
                                outcome->Ok_0,
                            ));
                            assert(r == outcome);
                        } else {
                            assert(rec_units[i as int] == mid_units[i as int]);
                        }
                    }
                }
            }
            r
        },
    }
}

proof fn lemma_stable_refl(u: HttpMiddleware)
    ensures
        u.stable_from(u),
{
}

proof fn lemma_stable_trans(a: HttpMiddleware, b: HttpMiddleware, c: HttpMiddleware)
    requires
        b.stable_from(a),
        c.stable_from(b),
    ensures
        c.stable_from(a),
{
}

// ---------------------------------------------------------------------------
// The server
// ---------------------------------------------------------------------------

/// What the connection loop does after one exchange.
pub enum ConnectionAction {
    /// Write `bytes` to the socket; close it afterward if `close`,
    /// otherwise await the next request. `response` is the response the
    /// bytes serialize.
    Respond { response: HttpResponse, bytes: Vec<u8>, close: bool },
    /// The head was malformed: drop the connection without a response.
    Drop,
    /// A fault that no isolation stage caught: abandon this connection's
    /// worker.
    Abort,
}

/// The registered routes and the middleware pipeline, outermost stage
/// first; the router runs innermost, after every registered stage.
pub struct HttpServer<H> {
    routing: RoutingMiddleware<H>,
    middlewares: Vec<HttpMiddleware>,
}

impl<H: Handler> HttpServer<H> {
    /// The method filters and patterns of the registered routes.
    pub closed spec fn routes_spec(&self) -> Seq<(MatchMethod, Seq<char>)> {
        self.routing.routes_spec()
    }

    /// The registered pipeline stages, outermost first.
    pub closed spec fn units_spec(&self) -> Seq<HttpMiddleware> {
        self.middlewares@
    }

    /// Every registered pattern follows the grammar.
    pub closed spec fn wf(&self) -> bool {
        self.routing.wf()
    }

    /// A server with no routes and no pipeline stages.
    pub fn new() -> (r: HttpServer<H>)
        ensures
            r.wf(),
            r.routes_spec() == Seq::<(MatchMethod, Seq<char>)>::empty(),
            r.units_spec() == Seq::<HttpMiddleware>::empty(),
    {
        HttpServer { routing: RoutingMiddleware::new(), middlewares: Vec::new() }
    }

    /// Registers a handler for one method under a pattern; registration
    /// succeeds exactly when the pattern follows the grammar, and a
    /// rejected pattern changes nothing.
    pub fn add_route(&mut self, method: HttpMethod, pattern: &str, handler: H) -> (r: Result<
        (),
        HttpError,
    >)
        requires
            old(self).wf(),
        ensures
            final(self).wf(),
            final(self).units_spec() == old(self).units_spec(),
            r is Ok <==> pattern_valid(split_chars(pattern@, '/')),
            match r {
                Ok(()) => final(self).routes_spec() == old(self).routes_spec().push(
                    (MatchMethod::CONCRET(method), pattern@),
                ),
                Err(e) => {
                    &&& e == HttpError::InvalidPattern
                    &&& final(self).routes_spec() == old(self).routes_spec()
                },
            },
    {
        self.routing.add_route(MatchMethod::from_method(method), pattern, handler)
    }

    /// Appends a stage to the pipeline; the earliest-registered stage
    /// runs outermost.
    pub fn use_middleware(&mut self, middleware: HttpMiddleware)
        ensures
            final(self).wf() == old(self).wf(),
            final(self).routes_spec() == old(self).routes_spec(),
            final(self).units_spec() == old(self).units_spec().push(middleware),
    {
        self.middlewares.push(middleware);
    }

    /// Runs the whole pipeline over one parsed request. Beside the frame
    /// on routes and stage configuration, the contract carries the
    /// pipeline's composed behavior: a fault-isolation stage anywhere
    /// keeps the outcome successful; a full pass-through with no matching
    /// route comes back 404, exactly the router's empty 404 where no
    /// stage rewrites responses; a `Dummy` stage behind a clean prefix
    /// answers the empty 404; a `Statistic` stage reports its dump on its
    /// path and otherwise counts the request exactly once; an `Encoding`
    /// stage behind a clean prefix leaves every successful response
    /// compressed, unless an outer isolation stage substituted its 500.
    pub fn handle_request<FS: FileSystem>(&mut self, req: &mut HttpRequest, fs: &mut FS) -> (r:
        Result<HttpResponse, HandlerFault>)
        ensures
            final(self).wf() == old(self).wf(),
            final(self).routes_spec() == old(self).routes_spec(),
            final(self).units_spec().len() == old(self).units_spec().len(),
            forall|j: int|
                0 <= j < old(self).units_spec().len() ==> (#[trigger] final(self).units_spec()[j]).stable_from(
                    old(self).units_spec()[j],
                ),
            (exists|k: int|
                0 <= k < old(self).units_spec().len() && (#[trigger] old(self).units_spec()[k])
                    is Panic) ==> r is Ok,
            all_pass_through(
                old(self).units_spec(),
                0,
                old(self).units_spec().len() as int,
                old(req).method,
                old(req).path@,
            ) && resolve_spec(old(self).routes_spec(), old(req).method, old(req).path@) is None
                ==> r is Ok && r->Ok_0.status_spec() == HttpStatusCode::NotFound,
            all_pass_through(
                old(self).units_spec(),
                0,
                old(self).units_spec().len() as int,
                old(req).method,
                old(req).path@,
            ) && all_preserve_response(
                old(self).units_spec(),
                0,
                old(self).units_spec().len() as int,
                old(req).headers.map_view(),
            ) && resolve_spec(old(self).routes_spec(), old(req).method, old(req).path@) is None
                ==> r is Ok && is_not_found_response(r->Ok_0),
            forall|j: int|
                0 <= j < old(self).units_spec().len() && (#[trigger] old(self).units_spec()[j])
                    is Dummy && all_pass_through(
                    old(self).units_spec(),
                    0,
                    j,
                    old(req).method,
                    old(req).path@,
                ) && all_preserve_response(
                    old(self).units_spec(),
                    0,
                    j,
                    old(req).headers.map_view(),
                ) ==> r is Ok && is_not_found_response(r->Ok_0),
            forall|j: int|
                0 <= j < old(self).units_spec().len() && (#[trigger] old(self).units_spec()[j])
                    is Statistic && old(req).path@ == stat_of(
                    old(self).units_spec()[j],
                ).path_spec() && all_pass_through(
                    old(self).units_spec(),
                    0,
                    j,
                    old(req).method,
                    old(req).path@,
                ) && all_preserve_response(
                    old(self).units_spec(),
                    0,
                    j,
                    old(req).headers.map_view(),
                ) ==> r is Ok && is_report_of(r->Ok_0, stat_of(old(self).units_spec()[j]))
                    && final(self).units_spec()[j] == old(self).units_spec()[j],
            forall|j: int|
                0 <= j < old(self).units_spec().len() && (#[trigger] old(self).units_spec()[j])
                    is Statistic && old(req).path@ != stat_of(
                    old(self).units_spec()[j],
                ).path_spec() && all_pass_through(
                    old(self).units_spec(),
                    0,
                    j,
                    old(req).method,
                    old(req).path@,
                ) ==> final(self).units_spec()[j] is Statistic && counted_once(
                    stat_of(final(self).units_spec()[j]),
                    stat_of(old(self).units_spec()[j]),
                    old(req).method,
                    old(req).path@,
                ),
            forall|j: int|
                0 <= j < old(self).units_spec().len() && (#[trigger] old(self).units_spec()[j])
                    is Encoding && wants_gzip(old(req).headers.map_view()) && all_pass_through(
                    old(self).units_spec(),
                    0,
                    j,
                    old(req).method,
                    old(req).path@,
                ) && all_preserve_response(
                    old(self).units_spec(),
                    0,
                    j,
                    old(req).headers.map_view(),
                ) && r is Ok ==> is_gzip_rewritten(r->Ok_0) || is_internal_error_response(
                    r->Ok_0,
                ),
    {
        run_from(&mut self.middlewares, 0, &self.routing, req, fs)
    }

    /// One step of the connection state machine: parse the head, decide
    /// keep-alive, run the pipeline, and serialize the response the
    /// pipeline produced. A malformed head drops the connection silently;
    /// a fault that no isolation stage caught abandons it.
    pub fn process_request<FS: FileSystem>(&mut self, head: &str, body: &str, fs: &mut FS) -> (r:
        ConnectionAction)
        ensures
            r is Drop <==> head_model(head@) is None,
            r matches ConnectionAction::Respond { response, bytes, close } ==> {
                &&& head_model(head@) matches Some(m) && close == close_after(
                    m.version,
                    map_of_entries(m.headers),
                )
                &&& bytes@ == serialize_spec(
                    response.status_spec(),
                    response.headers_seq(),
                    response.body_spec(),
                )
                &&& close ==> response.headers_map().contains_key("Connection"@)
                    && response.headers_map()["Connection"@] == "close"@
            },
            final(self).wf() == old(self).wf(),
            final(self).routes_spec() == old(self).routes_spec(),
            (exists|k: int|
                0 <= k < old(self).units_spec().len() && (#[trigger] old(self).units_spec()[k])
                    is Panic) ==> !(r is Abort),
            r matches ConnectionAction::Respond { response, .. } ==> ((head_model(head@) matches
                Some(m) && all_pass_through(
                old(self).units_spec(),
                0,
                old(self).units_spec().len() as int,
                m.method,
                m.path,
            ) && resolve_spec(old(self).routes_spec(), m.method, m.path) is None)
                ==> response.status_spec() == HttpStatusCode::NotFound),
            forall|j: int|
                0 <= j < old(self).units_spec().len() && (#[trigger] old(self).units_spec()[j])
                    is Statistic && (head_model(head@) matches Some(m) && m.path != stat_of(
                    old(self).units_spec()[j],
                ).path_spec() && all_pass_through(
                    old(self).units_spec(),
                    0,
                    j,
                    m.method,
                    m.path,
                )) && !(r is Drop) ==> final(self).units_spec()[j] is Statistic && stat_of(
                    final(self).units_spec()[j],
                ).total_spec() == sat_inc(stat_of(old(self).units_spec()[j]).total_spec()),
    {
        let mut req = match HttpRequest::parse(head, body) {
            Ok(r) => r,
            Err(_) => {
                return ConnectionAction::Drop;
            },
        };
        let close = wants_close(&req);
        match self.handle_request(&mut req, fs) {
            Ok(resp) => {
                let resp = if close {
                    resp.with_header("Connection", "close")
                } else {
                    resp
                };
                let bytes = resp.to_bytes();
                ConnectionAction::Respond { response: resp, bytes, close }
            },
            Err(_) => ConnectionAction::Abort,
        }
    }
}

} // verus!
