//! The per-request context handed to a route handler: the path parameters
//! captured by the matched pattern.

use vstd::prelude::*;

use crate::strmap::StrMap;

verus! {

/// The request-scoped values a handler receives beside the request itself.
pub struct HttpContext {
    path_params: StrMap,
}

impl HttpContext {
    /// The captured path parameters as a map.
    pub closed spec fn params_map(&self) -> Map<Seq<char>, Seq<char>> {
        self.path_params.map_view()
    }

    /// A context with no captured parameters.
    pub fn new() -> (r: HttpContext)
        ensures
            r.params_map() == Map::<Seq<char>, Seq<char>>::empty(),
    {
        HttpContext { path_params: StrMap::new() }
    }

    /// A context carrying the given captured parameters.
    pub fn new_with_params(params: StrMap) -> (r: HttpContext)
        ensures
            r.params_map() == params.map_view(),
    {
        HttpContext { path_params: params }
    }

    /// The captured value of one named parameter, if present.
    pub fn get_path_param(&self, key: &str) -> (r: Option<&String>)
        ensures
            match r {
                Some(v) => self.params_map().contains_key(key@) && self.params_map()[key@] == v@,
                None => !self.params_map().contains_key(key@),
            },
    {
        self.path_params.get(key)
    }
}

} // verus!
