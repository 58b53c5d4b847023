use vstd::prelude::*;

use crate::path::{match_path, segments, segments_agree, Binding};
use crate::request::{carries, route_match, MatchedRequest, Request};

verus! {

/// One entry of the route table: a method, a path pattern and what answers it.
pub struct Route<H> {
    pub path: String,
    pub method: String,
    pub responder: H,
}

/// The route table and the address it is served on.
pub struct Server<H> {
    pub address: String,
    pub routes: Vec<Route<H>>,
}

/// What `req` binds when matched against `route`, if it matches.
pub open spec fn route_result<H>(route: Route<H>, req: Request) -> Option<Seq<Binding>> {
    route_match(route.method@, route.path@, req)
}

/// `after` is `before` with one more route at the end.
pub open spec fn appended<H>(before: Server<H>, after: Server<H>, method: Seq<char>, path: Seq<char>, responder: H) -> bool {
    &&& after.address@ == before.address@
    &&& after.routes@.len() == before.routes@.len() + 1
    &&& after.routes@.subrange(0, before.routes@.len() as int) == before.routes@
    &&& after.routes@.last().method@ == method
    &&& after.routes@.last().path@ == path
    &&& after.routes@.last().responder == responder
}

/// The index of the first route that `req` matches, if any.
pub open spec fn first_match<H>(routes: Seq<Route<H>>, req: Request) -> Option<int>
    decreases routes.len(),
{
    if routes.len() == 0 {
        None
    } else {
        match first_match(routes.drop_last(), req) {
            Some(i) => Some(i),
            None => if route_result(routes.last(), req).is_some() {
                Some(routes.len() - 1)
            } else {
                None
            },
        }
    }
}

impl Request {
    /// Matches this request against `route`.
    pub fn match_route<H>(&self, route: &Route<H>) -> (r: Option<MatchedRequest>)
        ensures
            match route_result(*route, *self) {
                Some(params) => r.is_some() && carries(r.unwrap(), *self, params),
                None => r.is_none(),
            },
    {
        self.match_parts(route.method.as_str(), route.path.as_str())
    }
}

impl<H> Server<H> {
    /// An empty route table to be served on `address`.
    pub fn new(address: &str) -> (r: Self)
        ensures
            r.address@ == address@,
            r.routes@.len() == 0,
    {
        Server { routes: Vec::new(), address: address.to_owned() }
    }

    /// Registers `responder` for GET requests whose path fits `path`.
    pub fn get(&mut self, path: &str, responder: H) -> (r: &mut Self)
        ensures
            appended(*old(self), *r, "get"@, path@, responder),
            *final(self) == *final(r),
    {
        let route = Route { path: path.to_owned(), method: "get".to_owned(), responder };
        self.routes.push(route);
        proof {
            assert(self.routes@.subrange(0, self.routes@.len() - 1) =~= old(self).routes@);
        }
        self
    }

    /// Registers `responder` for POST requests whose path fits `path`.
    pub fn post(&mut self, path: &str, responder: H) -> (r: &mut Self)
        ensures
            appended(*old(self), *r, "post"@, path@, responder),
            *final(self) == *final(r),
    {
        let route = Route { path: path.to_owned(), method: "post".to_owned(), responder };
        self.routes.push(route);
        proof {
            assert(self.routes@.subrange(0, self.routes@.len() - 1) =~= old(self).routes@);
        }
        self
    }

    /// The first registered route that `request` matches, by its index, with
    /// the request and its bound parameters.
    pub fn find(&self, request: &Request) -> (r: Option<(usize, MatchedRequest)>)
        ensures
            match first_match(self.routes@, *request) {
                Some(i) => r.is_some() && r.unwrap().0 == i && carries(
                    r.unwrap().1,
                    *request,
                    route_result(self.routes@[i], *request).unwrap(),
                ),
                None => r.is_none(),
            },
    {
        let mut i: usize = 0;
        while i < self.routes.len()
            invariant
                i <= self.routes@.len(),
                first_match(self.routes@.subrange(0, i as int), *request).is_none(),
            decreases self.routes@.len() - i,
        {
            let ghost pre = self.routes@.subrange(0, i + 1);
            assert(pre.drop_last() =~= self.routes@.subrange(0, i as int));
            match request.match_route(&self.routes[i]) {
                Some(m) => {
                    proof { lemma_first_match_extend(self.routes@, *request, i as int); }
                    return Some((i, m));
                },
                None => {},
            }
            i = i + 1;
        }
        assert(self.routes@.subrange(0, self.routes@.len() as int) =~= self.routes@);
        None
    }

    /// The responder of the route at `index`.
    pub fn responder(&self, index: usize) -> (r: &H)
        requires
            index < self.routes@.len(),
        ensures
            *r == self.routes@[index as int].responder,
    {
        &self.routes[index].responder
    }
}

/// When no route before `i` matches and route `i` does, the first match of the
/// whole table is `i`.
pub proof fn lemma_first_match_extend<H>(routes: Seq<Route<H>>, req: Request, i: int)
    requires
        0 <= i < routes.len(),
        first_match(routes.subrange(0, i), req).is_none(),
        route_result(routes[i], req).is_some(),
    ensures
        first_match(routes, req) == Some(i),
    decreases routes.len() - i,
{
    if i + 1 == routes.len() {
        assert(routes.drop_last() =~= routes.subrange(0, i));
    } else {
        assert(routes.drop_last().subrange(0, i) =~= routes.subrange(0, i));
        lemma_first_match_extend(routes.drop_last(), req, i);
    }
}

/// The route that `first_match` picks matches, and no route before it does;
/// when it picks none, no route matches.
pub proof fn lemma_first_match_least<H>(routes: Seq<Route<H>>, req: Request)
    ensures
        match first_match(routes, req) {
            Some(k) => 0 <= k < routes.len() && route_result(routes[k], req).is_some() && forall|j: int|
                0 <= j < k ==> route_result(#[trigger] routes[j], req).is_none(),
            None => forall|j: int| 0 <= j < routes.len() ==> route_result(#[trigger] routes[j], req).is_none(),
        },
    decreases routes.len(),
{
    if routes.len() > 0 {
        lemma_first_match_least(routes.drop_last(), req);
        assert forall|j: int| 0 <= j < routes.len() - 1 implies #[trigger] routes[j] == routes.drop_last()[j] by {}
    }
}

/// When two routes both match a request, the one registered earlier is
/// chosen (or one before it): the later one never is.
pub proof fn lemma_earlier_route_wins<H>(routes: Seq<Route<H>>, req: Request, i: int, j: int)
    requires
        0 <= i < j < routes.len(),
        route_result(routes[i], req).is_some(),
        route_result(routes[j], req).is_some(),
    ensures
        first_match(routes, req) matches Some(k) && k <= i,
{
    lemma_first_match_least(routes, req);
}

/// Two routes that both match a request: registered in either order, the one
/// registered first is chosen.
pub proof fn lemma_order_decides<H>(a: Route<H>, b: Route<H>, req: Request)
    requires
        route_result(a, req).is_some(),
        route_result(b, req).is_some(),
    ensures
        first_match(seq![a, b], req) == Some(0int),
        first_match(seq![b, a], req) == Some(0int),
{
    lemma_first_match_least(seq![a, b], req);
    lemma_first_match_least(seq![b, a], req);
}

/// A request whose path fits no registered pattern (its segment count differs,
/// or a literal segment differs) finds no route.
pub proof fn lemma_unmatched_path_finds_nothing<H>(routes: Seq<Route<H>>, req: Request)
    requires
        forall|i: int|
            0 <= i < routes.len() ==> !segments_agree(
                segments(#[trigger] routes[i].path@),
                segments(req.path@),
            ),
    ensures
        first_match(routes, req).is_none(),
{
    lemma_first_match_least(routes, req);
    if first_match(routes, req) is Some {
        let k = first_match(routes, req)->0;
        assert(match_path(routes[k].path@, req.path@).is_none());
    }
}

} // verus!
