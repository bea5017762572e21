//! Static file serving: a wildcard route under a base URL, a filesystem
//! port that the host program implements, and the GET/POST logic over
//! whatever that port answers.

use vstd::prelude::*;

use crate::errors::HttpError;
use crate::http_request::{HttpMethod, HttpRequest};
use crate::http_response::{HttpResponse, HttpStatusCode};
use crate::strutil::dec_chars;
use crate::strutil::split_chars;
use crate::url_matcher::{match_url_spec, pattern_valid, MatchMethod, UrlMatcher};

verus! {

/// The filesystem as this middleware sees it. The host program implements
/// it with real file I/O; tests implement it in memory. Nothing is
/// promised of its answers: the middleware is verified for every reply.
pub trait FileSystem {
    /// The raw contents of the file at `path`, or nothing if it cannot
    /// be read.
    fn read(&mut self, path: &str) -> Option<Vec<u8>>;

    /// Writes `data` to the file at `path`; whether it worked.
    fn write(&mut self, path: &str, data: &[u8]) -> bool;
}

/// A found file's response: its raw bytes as a 200 with an octet-stream
/// content type and their exact length as `Content-Length`.
pub open spec fn is_file_found_response(r: HttpResponse, contents: Seq<u8>) -> bool {
    &&& r.status_spec() == HttpStatusCode::OK
    &&& r.body_spec() == Some(contents)
    &&& r.headers_map() == Map::<Seq<char>, Seq<char>>::empty().insert(
        "Content-Length"@,
        "0"@,
    ).insert("Content-Length"@, dec_chars(contents.len() as int)).insert(
        "Content-Type"@,
        "application/octet-stream"@,
    )
}

/// Some file's contents served as a 200.
pub open spec fn is_some_file_found_response(r: HttpResponse) -> bool {
    exists|c: Seq<u8>| is_file_found_response(r, c)
}

/// The stored file's response: an empty 201.
pub open spec fn is_created_response(r: HttpResponse) -> bool {
    &&& r.status_spec() == HttpStatusCode::Created
    &&& r.body_spec() is None
    &&& r.headers_seq() == seq![("Content-Length"@, "0"@)]
}

/// Serves files below `base_path` for request paths matching
/// `base_url/{file_path*}`: GET returns a found file (and otherwise falls
/// through), POST stores the request body, anything else falls through.
pub struct StaticFilesMiddleware {
    base_path: String,
    matcher: UrlMatcher,
}

impl StaticFilesMiddleware {
    /// The directory prefix joined in front of the captured file path.
    pub closed spec fn base_path_spec(&self) -> Seq<char> {
        self.base_path@
    }

    /// The compiled wildcard pattern.
    pub closed spec fn matcher_pattern(&self) -> Seq<char> {
        self.matcher.pattern_spec()
    }

    /// The matcher accepts any method; the method is examined here.
    pub closed spec fn matcher_method(&self) -> MatchMethod {
        self.matcher.method_spec()
    }

    /// The pattern follows the grammar.
    pub closed spec fn wf(&self) -> bool {
        self.matcher.wf()
    }

    /// Compiles the wildcard pattern `base_url/{file_path*}`; compilation
    /// succeeds exactly when that pattern follows the grammar.
    pub fn new(base_url: &str, base_path: &str) -> (r: Result<StaticFilesMiddleware, HttpError>)
        ensures
            r is Ok <==> pattern_valid(split_chars(base_url@ + "/{file_path*}"@, '/')),
            match r {
                Ok(m) => {
                    &&& m.wf()
                    &&& m.base_path_spec() == base_path@
                    &&& m.matcher_pattern() == base_url@ + "/{file_path*}"@
                    &&& m.matcher_method() == MatchMethod::ANY
                },
                Err(e) => e == HttpError::InvalidPattern,
            },
    {
        let mut pattern = base_url.to_owned();
        pattern.append("/{file_path*}");
        let matcher = match UrlMatcher::new(MatchMethod::ANY, pattern.as_str()) {
            Ok(m) => m,
            Err(e) => {
                return Err(e);
            },
        };
        Ok(StaticFilesMiddleware { base_path: base_path.to_owned(), matcher })
    }

    /// The disk path handed to the filesystem for a captured file path:
    /// the base path, one slash, the capture.
    pub fn file_target(&self, capture: &str) -> (r: String)
        ensures
            r@ == self.base_path_spec() + "/"@ + capture@,
    {
        let mut r = self.base_path.clone();
        r.append("/");
        r.append(capture);
        proof {
            assert(r@ =~= self.base_path_spec() + "/"@ + capture@);
        }
        r
    }

    /// What this stage makes of the filesystem's answer to a GET: a found
    /// file's bytes become exactly that file's 200 response, an absent
    /// file falls through to the next stage.
    pub fn file_reply(&self, found: Option<Vec<u8>>) -> (r: Option<HttpResponse>)
        ensures
            match found {
                Some(c) => r matches Some(resp) && is_file_found_response(resp, c@),
                None => r is None,
            },
    {
        match found {
            Some(contents) => {
                let ghost c = contents@;
                let resp = HttpResponse::new(HttpStatusCode::OK).with_bytes_body(
                    contents,
                    "application/octet-stream",
                );
                proof {
                    crate::strmap::lemma_map_of_entries_singleton("Content-Length"@, "0"@);
                    assert(is_file_found_response(resp, c));
                }
                Some(resp)
            },
            None => None,
        }
    }

    /// Handles one request if its path falls under the wildcard route:
    /// the reply says whether this stage answered (`Some`) or the request
    /// falls through to the next stage (`None`). The file read or written
    /// lives at `file_target` of the wildcard capture; what is made of
    /// the filesystem's answer is `file_reply`'s contract.
    #[verifier::spinoff_prover]
    #[verifier::rlimit(50)]
    pub fn serve<FS: FileSystem>(&self, req: &mut HttpRequest, fs: &mut FS) -> (r: Option<
        HttpResponse,
    >)
        ensures
            final(req).method == old(req).method,
            final(req).path == old(req).path,
            final(req).qury == old(req).qury,
            final(req).http_version == old(req).http_version,
            final(req).headers == old(req).headers,
            final(req).query_params == old(req).query_params,
            match_url_spec(
                self.matcher_method(),
                self.matcher_pattern(),
                old(req).method,
                old(req).path@,
            ) is None ==> r is None && *final(req) == *old(req),
            match_url_spec(
                self.matcher_method(),
                self.matcher_pattern(),
                old(req).method,
                old(req).path@,
            ) is Some && old(req).method is GET ==> *final(req) == *old(req) && match r {
                Some(resp) => is_some_file_found_response(resp),
                None => true,
            },
            match_url_spec(
                self.matcher_method(),
                self.matcher_pattern(),
                old(req).method,
                old(req).path@,
            ) is Some && old(req).method is POST ==> {
                &&& r matches Some(resp)
                &&& is_created_response(resp)
                &&& final(req).content.consumed_spec()
            },
            match_url_spec(
                self.matcher_method(),
                self.matcher_pattern(),
                old(req).method,
                old(req).path@,
            ) is Some && !(old(req).method is GET) && !(old(req).method is POST) ==> r is None
                && *final(req) == *old(req),
    {
        let (matched, params) = self.matcher.match_url(&req.method, req.path.as_str());
        if !matched {
            return None;
        }
        let capture = match params.get("file_path") {
            Some(rest) => rest.clone(),
            None => String::new(),
        };
        let file_path = self.file_target(capture.as_str());
        match req.method {
            HttpMethod::GET => {
                let found = fs.read(file_path.as_str());
                let ghost gf = found;
                match self.file_reply(found) {
                    Some(resp) => {
                        proof {
                            if gf is Some {
                                assert(is_file_found_response(resp, gf->Some_0@));
                                assert(is_some_file_found_response(resp));
                            }
                        }
                        Some(resp)
                    },
                    None => None,
                }
            },
            HttpMethod::POST => {
                let body = req.content.to_string();
                let _ok = fs.write(file_path.as_str(), body.as_str().as_bytes());
                Some(HttpResponse::new(HttpStatusCode::Created))
            },
            _ => None,
        }
    }
}

} // verus!
