use vstd::prelude::*;

use crate::path::{get_parameters, match_path, pairs_view, Binding};
use crate::text::{eq_ignore_case, str_eq_ignore_case};

verus! {

/// A decoded HTTP request.
pub struct Request {
    pub method: String,
    pub path: String,
    pub protocol: String,
    pub headers: Vec<(String, String)>,
    pub body: Option<String>,
}

/// A request together with the parameters bound by the route it matched.
pub struct MatchedRequest {
    pub path: String,
    pub method: String,
    pub headers: Vec<(String, String)>,
    pub parameters: Vec<(String, String)>,
    pub body: Option<String>,
}

/// An optional text, as a view.
pub open spec fn opt_view(o: Option<String>) -> Option<Seq<char>> {
    match o {
        Some(s) => Some(s@),
        None => None,
    }
}

/// An optional borrowed text, as a view.
pub open spec fn ref_view(o: Option<&String>) -> Option<Seq<char>> {
    match o {
        Some(s) => Some(s@),
        None => None,
    }
}

/// The value of the first entry whose name equals `name` exactly.
pub open spec fn lookup(hs: Seq<Binding>, name: Seq<char>) -> Option<Seq<char>>
    decreases hs.len(),
{
    if hs.len() == 0 {
        None
    } else if hs[0].0 == name {
        Some(hs[0].1)
    } else {
        lookup(hs.drop_first(), name)
    }
}

/// The value of the first entry whose name equals `name` up to ASCII case.
pub open spec fn lookup_ignore_case(hs: Seq<Binding>, name: Seq<char>) -> Option<Seq<char>>
    decreases hs.len(),
{
    if hs.len() == 0 {
        None
    } else if eq_ignore_case(hs[0].0, name) {
        Some(hs[0].1)
    } else {
        lookup_ignore_case(hs.drop_first(), name)
    }
}

/// Copies a list of name/value pairs.
pub fn clone_pairs(v: &Vec<(String, String)>) -> (r: Vec<(String, String)>)
    ensures
        pairs_view(r@) == pairs_view(v@),
{
    let mut r: Vec<(String, String)> = Vec::new();
    let mut i: usize = 0;
    while i < v.len()
        invariant
            i <= v@.len(),
            pairs_view(r@) == pairs_view(v@.subrange(0, i as int)),
        decreases v@.len() - i,
    {
        let ghost before = r@;
        r.push((v[i].0.clone(), v[i].1.clone()));
        assert(pairs_view(r@) =~= pairs_view(v@.subrange(0, i + 1))) by {
            assert(pairs_view(r@) =~= pairs_view(before).push((v@[i as int].0@, v@[i as int].1@)));
        }
        i = i + 1;
    }
    assert(v@.subrange(0, v@.len() as int) =~= v@);
    r
}

/// Copies an optional text.
pub fn clone_opt(o: &Option<String>) -> (r: Option<String>)
    ensures
        opt_view(r) == opt_view(*o),
{
    match o {
        Some(s) => Some(s.clone()),
        None => None,
    }
}

/// Finds the value of `name` in `hs`, comparing names exactly.
pub fn find_value<'a>(hs: &'a Vec<(String, String)>, name: &str) -> (r: Option<&'a String>)
    ensures
        ref_view(r) == lookup(pairs_view(hs@), name@),
{
    let mut i: usize = 0;
    assert(pairs_view(hs@).subrange(0, hs@.len() as int) =~= pairs_view(hs@));
    while i < hs.len()
        invariant
            i <= hs@.len(),
            lookup(pairs_view(hs@).subrange(i as int, hs@.len() as int), name@) == lookup(
                pairs_view(hs@),
                name@,
            ),
        decreases hs@.len() - i,
    {
        let ghost rest = pairs_view(hs@).subrange(i as int, hs@.len() as int);
        assert(rest.drop_first() =~= pairs_view(hs@).subrange(i + 1, hs@.len() as int));
        if str_eq(hs[i].0.as_str(), name) {
            return Some(&hs[i].1);
        }
        i = i + 1;
    }
    None
}

/// Finds the value of `name` in `hs`, ignoring the case of ASCII letters in names.
pub fn find_value_ignore_case<'a>(hs: &'a Vec<(String, String)>, name: &str) -> (r: Option<&'a String>)
    ensures
        ref_view(r) == lookup_ignore_case(pairs_view(hs@), name@),
{
    let mut i: usize = 0;
    assert(pairs_view(hs@).subrange(0, hs@.len() as int) =~= pairs_view(hs@));
    while i < hs.len()
        invariant
            i <= hs@.len(),
            lookup_ignore_case(pairs_view(hs@).subrange(i as int, hs@.len() as int), name@)
                == lookup_ignore_case(pairs_view(hs@), name@),
        decreases hs@.len() - i,
    {
        let ghost rest = pairs_view(hs@).subrange(i as int, hs@.len() as int);
        assert(rest.drop_first() =~= pairs_view(hs@).subrange(i + 1, hs@.len() as int));
        if str_eq_ignore_case(hs[i].0.as_str(), name) {
            return Some(&hs[i].1);
        }
        i = i + 1;
    }
    None
}

/// Exact equality of two texts.
pub fn str_eq(a: &str, b: &str) -> (r: bool)
    ensures
        r == (a@ == b@),
{
    let n = a.unicode_len();
    if n != b.unicode_len() {
        return false;
    }
    let mut i: usize = 0;
    while i < n
        invariant
            n == a@.len() == b@.len(),
            i <= n,
            forall|j: int| 0 <= j < i ==> a@[j] == b@[j],
        decreases n - i,
    {
        if a.get_char(i) != b.get_char(i) {
            return false;
        }
        i = i + 1;
    }
    assert(a@ =~= b@);
    true
}

/// What matching a request against a route with `method` and `pattern` yields:
/// the bindings when the methods agree up to case and the path fits the pattern.
pub open spec fn route_match(method: Seq<char>, pattern: Seq<char>, req: Request) -> Option<Seq<Binding>> {
    if eq_ignore_case(method, req.method@) {
        match_path(pattern, req.path@)
    } else {
        None
    }
}

/// `m` carries the request `req` with the parameters `params`.
pub open spec fn carries(m: MatchedRequest, req: Request, params: Seq<Binding>) -> bool {
    &&& m.method@ == req.method@
    &&& m.path@ == req.path@
    &&& pairs_view(m.headers@) == pairs_view(req.headers@)
    &&& opt_view(m.body) == opt_view(req.body)
    &&& pairs_view(m.parameters@) == params
}

impl Request {
    /// Matches this request against a route given by its method and pattern.
    pub fn match_parts(&self, method: &str, pattern: &str) -> (r: Option<MatchedRequest>)
        ensures
            match route_match(method@, pattern@, *self) {
                Some(params) => r.is_some() && carries(r.unwrap(), *self, params),
                None => r.is_none(),
            },
    {
        if !str_eq_ignore_case(method, self.method.as_str()) {
            return None;
        }
        match get_parameters(pattern, self.path.as_str()) {
            Some(parameters) => Some(
                MatchedRequest {
                    headers: clone_pairs(&self.headers),
                    method: self.method.clone(),
                    path: self.path.clone(),
                    parameters,
                    body: clone_opt(&self.body),
                },
            ),
            None => None,
        }
    }
}

impl MatchedRequest {
    /// The value bound to the path parameter `name`.
    pub fn parameter(&self, name: &str) -> (r: Option<&String>)
        ensures
            ref_view(r) == lookup(pairs_view(self.parameters@), name@),
    {
        find_value(&self.parameters, name)
    }

    /// The value of the header `name`, whose case is not significant.
    pub fn header(&self, name: &str) -> (r: Option<&String>)
        ensures
            ref_view(r) == lookup_ignore_case(pairs_view(self.headers@), name@),
    {
        find_value_ignore_case(&self.headers, name)
    }
}

} // verus!
