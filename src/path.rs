use vstd::prelude::*;

use crate::request::lookup;
use crate::response::unique_names;
use crate::text::{fields, split_fields, strings_view};

verus! {

/// A name bound to a value, as views.
pub type Binding = (Seq<char>, Seq<char>);

/// The name/value pairs of a list, as views.
pub open spec fn pairs_view(v: Seq<(String, String)>) -> Seq<Binding> {
    v.map_values(|p: (String, String)| (p.0@, p.1@))
}

/// The segments of a path: its non-empty pieces between slashes.
pub open spec fn segments(s: Seq<char>) -> Seq<Seq<char>> {
    fields(s, '/')
}

/// A pattern segment of the form `:name` binds whatever stands in its place.
pub open spec fn is_param(seg: Seq<char>) -> bool {
    seg.len() > 0 && seg[0] == ':'
}

/// Pattern segments and request segments agree: same count, and every
/// literal pattern segment equals the request segment in its place.
pub open spec fn segments_agree(pat: Seq<Seq<char>>, req: Seq<Seq<char>>) -> bool {
    pat.len() == req.len() && forall|i: int|
        0 <= i < pat.len() && !is_param(#[trigger] pat[i]) ==> pat[i] == req[i]
}

/// The bindings made by the first `n` segments, in pattern order.
pub open spec fn bindings(pat: Seq<Seq<char>>, req: Seq<Seq<char>>, n: nat) -> Seq<Binding>
    decreases n,
{
    if n == 0 {
        seq![]
    } else {
        let prev = bindings(pat, req, (n - 1) as nat);
        if is_param(pat[n - 1]) {
            prev.push((pat[n - 1].drop_first(), req[n - 1]))
        } else {
            prev
        }
    }
}

/// Matching a route pattern against a request path: the parameter bindings,
/// or `None` when the segments do not agree.
pub open spec fn match_path(pattern: Seq<char>, path: Seq<char>) -> Option<Seq<Binding>> {
    let pat = segments(pattern);
    let req = segments(path);
    if segments_agree(pat, req) {
        Some(bindings(pat, req, pat.len()))
    } else {
        None
    }
}

/// How many of the first `n` segments of a pattern are parameters.
pub open spec fn param_count(pat: Seq<Seq<char>>, n: nat) -> nat
    decreases n,
{
    if n == 0 {
        0
    } else if is_param(pat[n - 1]) {
        param_count(pat, (n - 1) as nat) + 1
    } else {
        param_count(pat, (n - 1) as nat)
    }
}

/// Entry `j` of `b` is the binding of a parameter segment before `n`, the one
/// preceded by `j` parameter segments.
pub open spec fn from_param(pat: Seq<Seq<char>>, req: Seq<Seq<char>>, b: Seq<Binding>, n: int, j: int) -> bool {
    exists|i: int|
        0 <= i < n && is_param(#[trigger] pat[i]) && param_count(pat, i as nat) == j && b[j] == (
            pat[i].drop_first(),
            req[i],
        )
}

proof fn lemma_bindings(pat: Seq<Seq<char>>, req: Seq<Seq<char>>, n: nat)
    requires
        n <= pat.len(),
        pat.len() == req.len(),
    ensures
        bindings(pat, req, n).len() == param_count(pat, n),
        forall|i: int|
            0 <= i < n && is_param(#[trigger] pat[i]) ==> param_count(pat, i as nat) < param_count(pat, n)
                && bindings(pat, req, n)[param_count(pat, i as nat) as int] == (pat[i].drop_first(), req[i]),
        forall|j: int| 0 <= j < bindings(pat, req, n).len() ==> #[trigger] from_param(pat, req, bindings(pat, req, n), n as int, j),
    decreases n,
{
    if n > 0 {
        let m = (n - 1) as nat;
        lemma_bindings(pat, req, m);
        let prev = bindings(pat, req, m);
        let cur = bindings(pat, req, n);
        assert forall|j: int| 0 <= j < cur.len() implies #[trigger] from_param(pat, req, cur, n as int, j) by {
            if j < prev.len() {
                assert(from_param(pat, req, prev, m as int, j));
                let i = choose|i: int|
                    0 <= i < m && is_param(#[trigger] pat[i]) && param_count(pat, i as nat) == j
                        && prev[j] == (pat[i].drop_first(), req[i]);
                assert(cur[j] == prev[j]);
                assert(0 <= i < n && is_param(pat[i]) && param_count(pat, i as nat) == j && cur[j] == (pat[i].drop_first(), req[i]));
            } else {
                assert(is_param(pat[m as int]) && cur[j] == (pat[m as int].drop_first(), req[m as int]));
                assert(0 <= m < n && is_param(pat[m as int]) && param_count(pat, m) == j);
            }
        }
    }
}

/// A request path whose segments agree with a pattern's, literal for literal,
/// matches it, and binds exactly one value for each parameter segment: the
/// parameter counted `param_count(.., i)` before segment `i` is bound, by the
/// name after its colon, to request segment `i`; and every binding is one of
/// these.
pub proof fn lemma_match_binds_params(pattern: Seq<char>, path: Seq<char>)
    requires
        segments(pattern).len() == segments(path).len(),
        forall|i: int|
            0 <= i < segments(pattern).len() && !is_param(#[trigger] segments(pattern)[i])
                ==> segments(pattern)[i] == segments(path)[i],
    ensures
        match_path(pattern, path) matches Some(b) && {
            let pat = segments(pattern);
            let req = segments(path);
            &&& b.len() == param_count(pat, pat.len())
            &&& forall|i: int|
                0 <= i < pat.len() && is_param(#[trigger] pat[i]) ==> b[param_count(pat, i as nat) as int]
                    == (pat[i].drop_first(), req[i])
            &&& forall|j: int| 0 <= j < b.len() ==> #[trigger] from_param(pat, req, b, pat.len() as int, j)
        },
{
    let pat = segments(pattern);
    let req = segments(path);
    lemma_bindings(pat, req, pat.len());
    let b = bindings(pat, req, pat.len());
    assert(match_path(pattern, path) == Some(b));
}

/// In a list whose names are unique, looking up the name of an entry gives its value.
pub proof fn lemma_lookup_unique(b: Seq<Binding>, k: int)
    requires
        unique_names(b),
        0 <= k < b.len(),
    ensures
        lookup(b, b[k].0) == Some(b[k].1),
    decreases b.len(),
{
    if k > 0 {
        let t = b.drop_first();
        assert(b[0].0 != b[k].0);
        assert(t[k - 1] == b[k]);
        assert forall|x: int, y: int| #![trigger t[x], t[y]] 0 <= x < y < t.len() implies t[x].0 != t[y].0 by {
            assert(b[x + 1].0 != b[y + 1].0);
        }
        lemma_lookup_unique(t, k - 1);
    }
}

/// When the parameter names of a pattern are distinct, a request path whose
/// segments agree with it binds each name, looked up, to the request segment
/// in its place.
pub proof fn lemma_match_lookup(pattern: Seq<char>, path: Seq<char>)
    requires
        segments(pattern).len() == segments(path).len(),
        forall|i: int|
            0 <= i < segments(pattern).len() && !is_param(#[trigger] segments(pattern)[i])
                ==> segments(pattern)[i] == segments(path)[i],
        forall|i: int, j: int|
            #![trigger segments(pattern)[i], segments(pattern)[j]]
            0 <= i < j < segments(pattern).len() && is_param(segments(pattern)[i]) && is_param(segments(pattern)[j])
                ==> segments(pattern)[i].drop_first() != segments(pattern)[j].drop_first(),
    ensures
        match_path(pattern, path) matches Some(b) && forall|i: int|
            0 <= i < segments(pattern).len() && is_param(#[trigger] segments(pattern)[i]) ==> lookup(
                b,
                segments(pattern)[i].drop_first(),
            ) == Some(segments(path)[i]),
{
    let pat = segments(pattern);
    let req = segments(path);
    lemma_match_binds_params(pattern, path);
    lemma_bindings(pat, req, pat.len());
    let b = bindings(pat, req, pat.len());
    assert(match_path(pattern, path) == Some(b));
    assert forall|x: int, y: int| #![trigger b[x], b[y]] 0 <= x < y < b.len() implies b[x].0 != b[y].0 by {
        assert(from_param(pat, req, b, pat.len() as int, x));
        assert(from_param(pat, req, b, pat.len() as int, y));
        let ix = choose|i: int|
            0 <= i < pat.len() && is_param(#[trigger] pat[i]) && param_count(pat, i as nat) == x
                && b[x] == (pat[i].drop_first(), req[i]);
        let iy = choose|i: int|
            0 <= i < pat.len() && is_param(#[trigger] pat[i]) && param_count(pat, i as nat) == y
                && b[y] == (pat[i].drop_first(), req[i]);
        assert(ix != iy);
        if ix < iy {
            assert(pat[ix].drop_first() != pat[iy].drop_first());
        } else {
            assert(pat[iy].drop_first() != pat[ix].drop_first());
        }
    }
    assert forall|i: int| 0 <= i < pat.len() && is_param(#[trigger] pat[i]) implies lookup(b, pat[i].drop_first())
        == Some(req[i]) by {
        let k = param_count(pat, i as nat) as int;
        lemma_lookup_unique(b, k);
    }
}

/// Matches `request_path` against `defined_path`, binding each `:name` segment.
pub fn get_parameters(defined_path: &str, request_path: &str) -> (r: Option<Vec<(String, String)>>)
    ensures
        match r {
            Some(v) => match_path(defined_path@, request_path@) == Some(pairs_view(v@)),
            None => match_path(defined_path@, request_path@).is_none(),
        },
{
    let req = split_fields(request_path, '/');
    let pat = split_fields(defined_path, '/');
    let ghost ps = segments(defined_path@);
    let ghost rs = segments(request_path@);
    assert(strings_view(pat@).len() == pat@.len());
    assert(strings_view(req@).len() == req@.len());
    if req.len() != pat.len() {
        return None;
    }
    let mut parameters: Vec<(String, String)> = Vec::new();
    let mut i: usize = 0;
    while i < pat.len()
        invariant
            ps == segments(defined_path@),
            rs == segments(request_path@),
            strings_view(pat@) == ps,
            strings_view(req@) == rs,
            pat@.len() == req@.len() == ps.len() == rs.len(),
            i <= pat@.len(),
            forall|k: int| 0 <= k < i && !is_param(#[trigger] ps[k]) ==> ps[k] == rs[k],
            pairs_view(parameters@) == bindings(ps, rs, i as nat),
        decreases pat@.len() - i,
    {
        let seg = &pat[i];
        let incoming = &req[i];
        assert(seg@ == ps[i as int]);
        assert(incoming@ == rs[i as int]);
        let len = seg.as_str().unicode_len();
        if len > 0 && seg.as_str().get_char(0) == ':' {
            let name = seg.as_str().substring_char(1, len).to_owned();
            assert(name@ =~= ps[i as int].drop_first());
            let ghost before = parameters@;
            parameters.push((name, incoming.clone()));
            assert(pairs_view(parameters@) =~= pairs_view(before).push((name@, incoming@)));
        } else {
            if !seg.eq(incoming) {
                assert(!segments_agree(ps, rs)) by {
                    assert(!is_param(ps[i as int]));
                    assert(ps[i as int] != rs[i as int]);
                }
                return None;
            }
        }
        i = i + 1;
    }
    Some(parameters)
}

} // verus!
