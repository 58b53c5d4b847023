use vstd::prelude::*;

use crate::path::{pairs_view, Binding};
use crate::request::{find_value_ignore_case, lookup, lookup_ignore_case, opt_view, Request};
use crate::text::{contains, decimal, format_int, format_nat, has_substring, signed_decimal};
use vstd::string::StringSliceAdditionalSpecFns;
use vstd::utf8::encode_utf8;

verus! {

/// A response: status, headers and an optional body.
pub struct Response {
    pub status_code: i32,
    pub status_verb: String,
    pub headers: Vec<(String, String)>,
    pub body: Option<String>,
}

/// The gzip member that flate2 writes for `data` at the default level.
pub uninterp spec fn gzip_of(data: Seq<u8>) -> Seq<u8>;

/// Relies on flate2::write::GzEncoder at the default level, writing into a
/// `Vec` (which never fails): the gzip member for `data`. Its header has no
/// time stamp and a fixed system byte, so the result depends on `data` alone.
#[verifier::external_body]
fn gzip(data: &[u8]) -> (r: Vec<u8>)
    ensures
        r@ == gzip_of(data@),
{
    let mut encoder = flate2::write::GzEncoder::new(Vec::new(), flate2::Compression::default());
    std::io::Write::write_all(&mut encoder, data).unwrap();
    encoder.finish().unwrap()
}

/// The reason phrase sent for a status code.
pub open spec fn reason(code: int) -> Seq<char> {
    if code == 200 {
        "OK"@
    } else if code == 201 {
        "Created"@
    } else if code == 404 {
        "Not Found"@
    } else {
        "Unknown"@
    }
}

/// `hs` with `name` set to `value`: the first entry of that name is replaced,
/// or a new entry is added at the end.
pub open spec fn set_entry(hs: Seq<Binding>, name: Seq<char>, value: Seq<char>) -> Seq<Binding>
    decreases hs.len(),
{
    if hs.len() == 0 {
        seq![(name, value)]
    } else if hs[0].0 == name {
        hs.update(0, (name, value))
    } else {
        seq![hs[0]] + set_entry(hs.drop_first(), name, value)
    }
}

/// Setting a name whose first entry stands at `i` (or that is absent, `i`
/// being the length) replaces that entry (or appends one).
proof fn lemma_set_entry_at(hs: Seq<Binding>, name: Seq<char>, value: Seq<char>, i: int)
    requires
        0 <= i <= hs.len(),
        forall|j: int| 0 <= j < i ==> (#[trigger] hs[j]).0 != name,
        i < hs.len() ==> hs[i].0 == name,
    ensures
        set_entry(hs, name, value) == if i < hs.len() {
            hs.update(i, (name, value))
        } else {
            hs.push((name, value))
        },
    decreases hs.len(),
{
    if hs.len() > 0 && i > 0 {
        let t = hs.drop_first();
        assert forall|j: int| 0 <= j < i - 1 implies (#[trigger] t[j]).0 != name by {
            assert(t[j] == hs[j + 1]);
        }
        lemma_set_entry_at(t, name, value, i - 1);
        if i < hs.len() {
            assert(seq![hs[0]] + t.update(i - 1, (name, value)) =~= hs.update(i, (name, value)));
        } else {
            assert(seq![hs[0]] + t.push((name, value)) =~= hs.push((name, value)));
        }
    } else if hs.len() == 0 {
        assert(seq![(name, value)] =~= hs.push((name, value)));
    }
}

/// No two entries share a name.
pub open spec fn unique_names(hs: Seq<Binding>) -> bool {
    forall|i: int, j: int| #![trigger hs[i], hs[j]] 0 <= i < j < hs.len() ==> hs[i].0 != hs[j].0
}

/// Setting a name keeps the names of a list unique.
pub proof fn lemma_set_entry_unique(hs: Seq<Binding>, name: Seq<char>, value: Seq<char>)
    requires
        unique_names(hs),
    ensures
        unique_names(set_entry(hs, name, value)),
{
    if exists|i: int| 0 <= i < hs.len() && (#[trigger] hs[i]).0 == name {
        let i = choose|i: int| 0 <= i < hs.len() && (#[trigger] hs[i]).0 == name;
        assert forall|j: int| 0 <= j < i implies (#[trigger] hs[j]).0 != name by {
            assert(hs[j].0 != hs[i].0);
        }
        lemma_set_entry_at(hs, name, value, i);
        let u = hs.update(i, (name, value));
        assert forall|a: int, b: int| 0 <= a < b < u.len() implies #[trigger] u[a].0 != #[trigger] u[b].0 by {
            assert(hs[a].0 != hs[b].0);
        }
    } else {
        lemma_set_entry_at(hs, name, value, hs.len() as int);
        let u = hs.push((name, value));
        assert forall|a: int, b: int| 0 <= a < b < u.len() implies #[trigger] u[a].0 != #[trigger] u[b].0 by {
            if b < hs.len() {
                assert(hs[a].0 != hs[b].0);
            } else {
                assert(u[a] == hs[a]);
            }
        }
    }
}

/// Sets `name` to `value` in a list of headers.
pub fn set_header(hs: &mut Vec<(String, String)>, name: String, value: String)
    ensures
        pairs_view(final(hs)@) == set_entry(pairs_view(old(hs)@), name@, value@),
        unique_names(pairs_view(old(hs)@)) ==> unique_names(pairs_view(final(hs)@)),
{
    let ghost v0 = pairs_view(hs@);
    proof {
        if unique_names(v0) {
            lemma_set_entry_unique(v0, name@, value@);
        }
    }
    let mut i: usize = 0;
    while i < hs.len()
        invariant
            hs@ == old(hs)@,
            v0 == pairs_view(hs@),
            i <= hs@.len(),
            forall|j: int| 0 <= j < i ==> (#[trigger] v0[j]).0 != name@,
        decreases hs@.len() - i,
    {
        if hs[i].0.eq(&name) {
            proof {
                lemma_set_entry_at(v0, name@, value@, i as int);
            }
            let ghost nv = (name@, value@);
            hs.set(i, (name, value));
            assert(pairs_view(hs@) =~= v0.update(i as int, nv));
            return;
        }
        i = i + 1;
    }
    proof {
        lemma_set_entry_at(v0, name@, value@, i as int);
    }
    let ghost nv = (name@, value@);
    hs.push((name, value));
    assert(pairs_view(hs@) =~= v0.push(nv));
}

/// The UTF-8 bytes of a text.
pub open spec fn utf8(s: Seq<char>) -> Seq<u8> {
    encode_utf8(s)
}

/// Appends the UTF-8 bytes of `s`.
fn append_str(out: &mut Vec<u8>, s: &str)
    ensures
        final(out)@ == old(out)@ + utf8(s@),
{
    append_bytes(out, s.as_bytes());
}

/// Appends `b`.
fn append_bytes(out: &mut Vec<u8>, b: &[u8])
    ensures
        final(out)@ == old(out)@ + b@,
{
    let mut i: usize = 0;
    while i < b.len()
        invariant
            i <= b@.len(),
            out@ == old(out)@ + b@.subrange(0, i as int),
        decreases b@.len() - i,
    {
        out.push(b[i]);
        assert(old(out)@ + b@.subrange(0, i + 1) =~= (old(out)@ + b@.subrange(0, i as int)).push(b@[i as int]));
        i = i + 1;
    }
    assert(b@.subrange(0, b@.len() as int) =~= b@);
}

/// The header lines `name: value` CRLF, in order.
pub open spec fn header_lines(hs: Seq<Binding>) -> Seq<u8>
    decreases hs.len(),
{
    if hs.len() == 0 {
        seq![]
    } else {
        header_lines(hs.drop_last()) + utf8(hs.last().0) + utf8(": "@) + utf8(hs.last().1) + utf8("\r\n"@)
    }
}

/// The bytes of a response on the wire: status line, the header block when
/// there is a header, the body, and a closing CRLF.
pub open spec fn wire(code: int, verb: Seq<char>, hs: Seq<Binding>, body: Option<Seq<u8>>) -> Seq<u8> {
    utf8("HTTP/1.1 "@) + utf8(signed_decimal(code)) + utf8(" "@) + utf8(verb) + utf8("\r\n"@)
        + (if hs.len() == 0 { seq![] } else { header_lines(hs) + utf8("\r\n"@) })
        + (match body { Some(b) => b, None => seq![] })
        + utf8("\r\n"@)
}

/// Whether the request's `Accept-Encoding` header mentions gzip.
pub open spec fn accepts_gzip(req: Request) -> bool {
    match lookup_ignore_case(pairs_view(req.headers@), "Accept-Encoding"@) {
        Some(v) => contains(v, "gzip"@),
        None => false,
    }
}

/// The headers sent with a response: `Content-Encoding` when the body is
/// gzipped, and `Content-Length` giving the length of the body as sent.
pub open spec fn sent_headers(hs: Seq<Binding>, gzipped: bool, body: Option<Seq<u8>>) -> Seq<Binding> {
    let with_encoding = if gzipped {
        set_entry(hs, "Content-Encoding"@, "gzip"@)
    } else {
        hs
    };
    match body {
        Some(b) => set_entry(with_encoding, "Content-Length"@, decimal(b.len())),
        None => with_encoding,
    }
}

/// The body as sent: the UTF-8 bytes of the text, gzipped when asked for.
pub open spec fn sent_body(body: Option<Seq<char>>, gzipped: bool) -> Option<Seq<u8>> {
    match body {
        Some(b) => Some(if gzipped { gzip_of(utf8(b)) } else { utf8(b) }),
        None => None,
    }
}

impl Response {
    /// Header names are unique, as in a map from names to values.
    pub open spec fn wf(&self) -> bool {
        unique_names(pairs_view(self.headers@))
    }

    /// Whether no two headers share a name.
    pub fn has_unique_headers(&self) -> (r: bool)
        ensures
            r == self.wf(),
    {
        let ghost hv = pairs_view(self.headers@);
        let n = self.headers.len();
        let mut i: usize = 0;
        while i < n
            invariant
                n == self.headers@.len() == hv.len(),
                hv == pairs_view(self.headers@),
                i <= n,
                forall|a: int, b: int| #![trigger hv[a], hv[b]] 0 <= a < i && a < b < n ==> hv[a].0 != hv[b].0,
            decreases n - i,
        {
            let mut j: usize = i + 1;
            while j < n
                invariant
                    n == self.headers@.len() == hv.len(),
                    hv == pairs_view(self.headers@),
                    i < n,
                    i + 1 <= j <= n,
                    forall|b: int| i < b < j ==> hv[i as int].0 != (#[trigger] hv[b]).0,
                decreases n - j,
            {
                if self.headers[i].0.eq(&self.headers[j].0) {
                    assert(hv[i as int].0 == hv[j as int].0);
                    return false;
                }
                j = j + 1;
            }
            i = i + 1;
        }
        true
    }

    /// A fresh response: `404 Not Found`, no header, no body.
    pub fn new() -> (r: Self)
        ensures
            r.status_code == 404,
            r.status_verb@ == "Not Found"@,
            r.headers@.len() == 0,
            r.body.is_none(),
            r.wf(),
    {
        Response { status_code: 404, status_verb: "Not Found".to_owned(), headers: Vec::new(), body: None }
    }

    /// Sets the status code and its reason phrase.
    pub fn status(&mut self, status: i32) -> (r: &mut Self)
        ensures
            r.status_code == status,
            r.status_verb@ == reason(status as int),
            pairs_view(r.headers@) == pairs_view(old(self).headers@),
            old(self).wf() ==> r.wf(),
            opt_view(r.body) == opt_view(old(self).body),
            *final(self) == *final(r),
    {
        let verb = if status == 200 {
            "OK"
        } else if status == 201 {
            "Created"
        } else if status == 404 {
            "Not Found"
        } else {
            "Unknown"
        };
        self.status_code = status;
        self.status_verb = verb.to_owned();
        self
    }

    /// Sets the `Content-Type` header.
    pub fn content_type(&mut self, content_type: &str) -> (r: &mut Self)
        ensures
            r.status_code == old(self).status_code,
            r.status_verb@ == old(self).status_verb@,
            pairs_view(r.headers@) == set_entry(pairs_view(old(self).headers@), "Content-Type"@, content_type@),
            old(self).wf() ==> r.wf(),
            opt_view(r.body) == opt_view(old(self).body),
            *final(self) == *final(r),
    {
        set_header(&mut self.headers, "Content-Type".to_owned(), content_type.to_owned());
        self
    }

    /// Sets the body and the `Content-Length` header, its length in bytes.
    pub fn body(&mut self, body: &str) -> (r: &mut Self)
        ensures
            r.status_code == old(self).status_code,
            r.status_verb@ == old(self).status_verb@,
            pairs_view(r.headers@) == set_entry(
                pairs_view(old(self).headers@),
                "Content-Length"@,
                decimal(utf8(body@).len()),
            ),
            old(self).wf() ==> r.wf(),
            opt_view(r.body) == Some(body@),
            *final(self) == *final(r),
    {
        self.body = Some(body.to_owned());
        let len = body.as_bytes().len();
        assert(body.spec_bytes() == utf8(body@));
        assert(len as u64 as nat == utf8(body@).len());
        set_header(&mut self.headers, "Content-Length".to_owned(), format_nat(len as u64));
        self
    }

    /// A finished copy of this response.
    pub fn build(&self) -> (r: Self)
        ensures
            r.status_code == self.status_code,
            r.status_verb@ == self.status_verb@,
            pairs_view(r.headers@) == pairs_view(self.headers@),
            opt_view(r.body) == opt_view(self.body),
            r.wf() == self.wf(),
    {
        Response {
            status_code: self.status_code,
            status_verb: self.status_verb.clone(),
            headers: crate::request::clone_pairs(&self.headers),
            body: crate::request::clone_opt(&self.body),
        }
    }

    /// The bytes of this response with `body` as the body sent, gzipped or not.
    pub fn frame(&self, gzipped: bool, body: Option<&[u8]>) -> (r: Vec<u8>)
        requires
            self.wf(),
        ensures
            r@ == wire(
                self.status_code as int,
                self.status_verb@,
                sent_headers(pairs_view(self.headers@), gzipped, match body { Some(b) => Some(b@), None => None }),
                match body { Some(b) => Some(b@), None => None },
            ),
    {
        let mut headers = crate::request::clone_pairs(&self.headers);
        if gzipped {
            set_header(&mut headers, "Content-Encoding".to_owned(), "gzip".to_owned());
        }
        match body {
            Some(b) => set_header(&mut headers, "Content-Length".to_owned(), format_nat(b.len() as u64)),
            None => {},
        }
        let mut out: Vec<u8> = Vec::new();
        append_str(&mut out, "HTTP/1.1 ");
        let code = format_int(self.status_code);
        append_str(&mut out, code.as_str());
        append_str(&mut out, " ");
        append_str(&mut out, self.status_verb.as_str());
        append_str(&mut out, "\r\n");
        let ghost start = out@;
        let ghost hv = pairs_view(headers@);
        let mut i: usize = 0;
        while i < headers.len()
            invariant
                i <= headers@.len(),
                hv == pairs_view(headers@),
                out@ == start + header_lines(hv.subrange(0, i as int)),
            decreases headers@.len() - i,
        {
            append_str(&mut out, headers[i].0.as_str());
            append_str(&mut out, ": ");
            append_str(&mut out, headers[i].1.as_str());
            append_str(&mut out, "\r\n");
            assert(hv.subrange(0, i + 1).drop_last() =~= hv.subrange(0, i as int));
            i = i + 1;
        }
        assert(hv.subrange(0, hv.len() as int) =~= hv);
        if headers.len() > 0 {
            append_str(&mut out, "\r\n");
        }
        match body {
            Some(b) => append_bytes(&mut out, b),
            None => {},
        }
        append_str(&mut out, "\r\n");
        out
    }

    /// Whether `request` asks for a gzipped body.
    pub fn wants_gzip(request: &Request) -> (r: bool)
        ensures
            r == accepts_gzip(*request),
    {
        match find_value_ignore_case(&request.headers, "Accept-Encoding") {
            Some(v) => has_substring(v.as_str(), "gzip"),
            None => false,
        }
    }

    /// The bytes sent in answer to `request`: the body is gzipped when the
    /// request accepts gzip.
    pub fn encode(&self, request: &Request) -> (r: Vec<u8>)
        requires
            self.wf(),
        ensures
            r@ == wire(
                self.status_code as int,
                self.status_verb@,
                sent_headers(pairs_view(self.headers@), accepts_gzip(*request), sent_body(opt_view(self.body), accepts_gzip(*request))),
                sent_body(opt_view(self.body), accepts_gzip(*request)),
            ),
    {
        let gzipped = Response::wants_gzip(request);
        match &self.body {
            Some(text) => {
                if gzipped {
                    let packed = gzip(text.as_str().as_bytes());
                    self.frame(true, Some(packed.as_slice()))
                } else {
                    self.frame(false, Some(text.as_str().as_bytes()))
                }
            },
            None => self.frame(gzipped, None),
        }
    }
}

/// After setting `name`, looking it up gives the new value; other names are
/// untouched.
pub proof fn lemma_lookup_set_entry(hs: Seq<Binding>, name: Seq<char>, value: Seq<char>, q: Seq<char>)
    ensures
        lookup(set_entry(hs, name, value), q) == if q == name {
            Some(value)
        } else {
            lookup(hs, q)
        },
    decreases hs.len(),
{
    if hs.len() == 0 {
        let one = seq![(name, value)];
        assert(one.drop_first() =~= Seq::<Binding>::empty());
        assert(lookup(one.drop_first(), q) is None);
        assert(lookup(hs, q) is None);
        assert(one[0] == (name, value));
    } else if hs[0].0 == name {
        assert(hs.update(0, (name, value)).drop_first() =~= hs.drop_first());
        assert(hs.update(0, (name, value))[0] == (name, value));
    } else {
        let rest = set_entry(hs.drop_first(), name, value);
        assert((seq![hs[0]] + rest).drop_first() =~= rest);
        assert((seq![hs[0]] + rest)[0] == hs[0]);
        lemma_lookup_set_entry(hs.drop_first(), name, value, q);
    }
}

/// Content negotiation: when the request accepts gzip, a body is sent gzipped,
/// with `Content-Encoding: gzip` and a `Content-Length` counting the gzipped
/// bytes, each header once; otherwise the body's own bytes are sent and counted, and the
/// `Content-Encoding` header is left as the response had it.
pub proof fn lemma_gzip_negotiation(req: Request, hs: Seq<Binding>, text: Seq<char>)
    requires
        unique_names(hs),
    ensures
        accepts_gzip(req) ==> {
            let body = sent_body(Some(text), true);
            &&& body == Some(gzip_of(utf8(text)))
            &&& lookup(sent_headers(hs, true, body), "Content-Encoding"@) == Some("gzip"@)
            &&& lookup(sent_headers(hs, true, body), "Content-Length"@) == Some(
                decimal(gzip_of(utf8(text)).len()),
            )
            &&& unique_names(sent_headers(hs, true, body))
        },
        !accepts_gzip(req) ==> {
            let body = sent_body(Some(text), false);
            &&& body == Some(utf8(text))
            &&& lookup(sent_headers(hs, false, body), "Content-Encoding"@) == lookup(hs, "Content-Encoding"@)
            &&& lookup(sent_headers(hs, false, body), "Content-Length"@) == Some(decimal(utf8(text).len()))
            &&& unique_names(sent_headers(hs, false, body))
        },
{
    reveal_strlit("Content-Encoding");
    reveal_strlit("Content-Length");
    assert("Content-Encoding"@ != "Content-Length"@) by {
        assert("Content-Encoding"@[8] != "Content-Length"@[8]);
    }
    let zipped = gzip_of(utf8(text));
    let with_encoding = set_entry(hs, "Content-Encoding"@, "gzip"@);
    lemma_lookup_set_entry(with_encoding, "Content-Length"@, decimal(zipped.len()), "Content-Encoding"@);
    lemma_lookup_set_entry(with_encoding, "Content-Length"@, decimal(zipped.len()), "Content-Length"@);
    lemma_lookup_set_entry(hs, "Content-Encoding"@, "gzip"@, "Content-Encoding"@);
    lemma_lookup_set_entry(hs, "Content-Length"@, decimal(utf8(text).len()), "Content-Encoding"@);
    lemma_lookup_set_entry(hs, "Content-Length"@, decimal(utf8(text).len()), "Content-Length"@);
    lemma_set_entry_unique(hs, "Content-Encoding"@, "gzip"@);
    lemma_set_entry_unique(with_encoding, "Content-Length"@, decimal(zipped.len()));
    lemma_set_entry_unique(hs, "Content-Length"@, decimal(utf8(text).len()));
}

/// The default response to an unmatched request, `Response::new()` encoded,
/// carries no body; without gzip it is the bare status line and an empty line.
pub proof fn lemma_not_found_bytes(req: Request)
    ensures
        sent_body(None, accepts_gzip(req)) is None,
        !accepts_gzip(req) ==> wire(
            404,
            "Not Found"@,
            sent_headers(seq![], false, sent_body(None, false)),
            sent_body(None, false),
        ) == utf8("HTTP/1.1 "@) + utf8("404"@) + utf8(" "@) + utf8("Not Found"@) + utf8("\r\n"@)
            + utf8("\r\n"@),
{
    reveal_strlit("404");
    assert(decimal(4) == seq!['4']);
    assert(decimal(40) =~= seq!['4', '0']);
    assert(decimal(404) =~= "404"@);
    let hs = sent_headers(seq![], false, sent_body(None, false));
    assert(hs.len() == 0);
    let w = utf8("HTTP/1.1 "@) + utf8("404"@) + utf8(" "@) + utf8("Not Found"@) + utf8("\r\n"@);
    assert(w + Seq::<u8>::empty() + Seq::<u8>::empty() =~= w);
}

} // verus!
