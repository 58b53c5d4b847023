use vstd::prelude::*;

use crate::path::{pairs_view, Binding};
use crate::request::{opt_view, Request};
use crate::response::{set_entry, set_header, unique_names};
use crate::text::{split_words, strings_view, trim, trim_whitespace, words};
use vstd::utf8::{decode_utf8, valid_utf8};

verus! {

/// Why a request could not be decoded.
#[derive(Debug, Clone, Copy, PartialEq, Eq, Structural)]
pub enum ParseError {
    /// The request line is not three whitespace-separated words.
    RequestLine,
    /// A header line has no `:`.
    HeaderLine,
}

/// Where the line that starts at `i` ends: the next newline, or the end of `s`.
pub open spec fn line_end(s: Seq<char>, i: int) -> int
    decreases s.len() - i,
{
    if i >= s.len() || i < 0 || s[i] == '\n' {
        i
    } else {
        line_end(s, i + 1)
    }
}

/// The line that starts at `i`, without its line ending (`\n` or `\r\n`).
pub open spec fn line_at(s: Seq<char>, i: int) -> Seq<char> {
    let e = line_end(s, i);
    if e < s.len() && e > i && s[e - 1] == '\r' {
        s.subrange(i, e - 1)
    } else {
        s.subrange(i, e)
    }
}

/// The position of the first `c` in `l` at or after `from`.
pub open spec fn find_char(l: Seq<char>, c: char, from: int) -> Option<int>
    decreases l.len() - from,
{
    if from >= l.len() || from < 0 {
        None
    } else if l[from] == c {
        Some(from)
    } else {
        find_char(l, c, from + 1)
    }
}

/// Reads header lines from position `i` on, adding them to `acc`, up to the
/// first empty line or the end of `s`: the headers and where the body starts,
/// or `None` at a line without `:`.
pub open spec fn parse_headers(s: Seq<char>, i: int, acc: Seq<Binding>) -> Option<(Seq<Binding>, int)>
    decreases s.len() + 1 - i via parse_headers_decreases
{
    if i >= s.len() || i < 0 {
        Some((acc, s.len() as int))
    } else {
        let l = line_at(s, i);
        if l.len() == 0 {
            Some((acc, line_end(s, i) + 1))
        } else {
            match find_char(l, ':', 0) {
                None => None,
                Some(c) => parse_headers(
                    s,
                    line_end(s, i) + 1,
                    set_entry(acc, trim(l.subrange(0, c)), trim(l.subrange(c + 1, l.len() as int))),
                ),
            }
        }
    }
}

/// A line ends at or after its start, and within the text.
proof fn lemma_line_end_bounds(s: Seq<char>, i: int)
    requires
        0 <= i <= s.len(),
    ensures
        i <= line_end(s, i) <= s.len(),
    decreases s.len() - i,
{
    if i < s.len() && s[i] != '\n' {
        lemma_line_end_bounds(s, i + 1);
    }
}

#[via_fn]
proof fn parse_headers_decreases(s: Seq<char>, i: int, acc: Seq<Binding>) {
    if 0 <= i < s.len() {
        lemma_line_end_bounds(s, i);
    }
}

/// A decoded request, as views: method, path, protocol, headers and body.
pub type RequestParts = (Seq<char>, Seq<char>, Seq<char>, Seq<Binding>, Option<Seq<char>>);

/// Decoding the text of a request.
pub open spec fn parse_request(s: Seq<char>) -> Result<RequestParts, ParseError> {
    let first = words(line_at(s, 0));
    if first.len() != 3 {
        Err(ParseError::RequestLine)
    } else {
        match parse_headers(s, line_end(s, 0) + 1, seq![]) {
            None => Err(ParseError::HeaderLine),
            Some((hs, start)) => Ok(
                (first[0], first[1], first[2], hs, if start < s.len() {
                    Some(s.subrange(start, s.len() as int))
                } else {
                    None
                }),
            ),
        }
    }
}

/// The parts of a decoded request, as views.
pub open spec fn request_parts(r: Request) -> RequestParts {
    (r.method@, r.path@, r.protocol@, pairs_view(r.headers@), opt_view(r.body))
}

/// The text that String::from_utf8_lossy makes of `b`.
pub uninterp spec fn lossy_text(b: Seq<u8>) -> Seq<char>;

/// Relies on String::from_utf8_lossy: the text of `b`, each invalid sequence
/// replaced by U+FFFD; valid UTF-8 is decoded unchanged.
#[verifier::external_body]
fn text_of_bytes(b: &[u8]) -> (r: String)
    ensures
        r@ == lossy_text(b@),
        valid_utf8(b@) ==> r@ == decode_utf8(b@),
{
    String::from_utf8_lossy(b).into_owned()
}

/// Where the line starting at `i` ends.
fn line_end_at(s: &str, n: usize, i: usize) -> (e: usize)
    requires
        n == s@.len(),
        i <= n,
    ensures
        e == line_end(s@, i as int),
        i <= e <= n,
{
    let mut e = i;
    while e < n && s.get_char(e) != '\n'
        invariant
            n == s@.len(),
            i <= e <= n,
            line_end(s@, e as int) == line_end(s@, i as int),
        decreases n - e,
    {
        e = e + 1;
    }
    e
}

/// The line starting at `i` and ending at `e`, without its line ending.
fn line_text(s: &str, n: usize, i: usize, e: usize) -> (r: &str)
    requires
        n == s@.len(),
        i <= e <= n,
        e == line_end(s@, i as int),
    ensures
        r@ == line_at(s@, i as int),
{
    if e < n && e > i && s.get_char(e - 1) == '\r' {
        s.substring_char(i, e - 1)
    } else {
        s.substring_char(i, e)
    }
}

/// The position of the first colon of `l`.
fn find_colon(l: &str) -> (r: Option<usize>)
    ensures
        r matches Some(c) ==> find_char(l@, ':', 0) == Some(c as int) && c < l@.len(),
        r is None ==> find_char(l@, ':', 0) is None,
{
    let n = l.unicode_len();
    let mut i: usize = 0;
    while i < n
        invariant
            n == l@.len(),
            i <= n,
            find_char(l@, ':', i as int) == find_char(l@, ':', 0),
        decreases n - i,
    {
        if l.get_char(i) == ':' {
            return Some(i);
        }
        i = i + 1;
    }
    None
}

impl Request {
    /// Decodes the text of a request: a request line of three words, header
    /// lines up to the first empty line, and whatever follows as the body.
    pub fn parse(text: &str) -> (r: Result<Request, ParseError>)
        ensures
            match parse_request(text@) {
                Ok(parts) => r.is_ok() && request_parts(r.unwrap()) == parts,
                Err(e) => r == Err::<Request, ParseError>(e),
            },
            r matches Ok(req) ==> unique_names(pairs_view(req.headers@)),
    {
        let n = text.unicode_len();
        let e0 = line_end_at(text, n, 0);
        let first = split_words(line_text(text, n, 0, e0));
        assert(strings_view(first@).len() == first@.len());
        if first.len() != 3 {
            return Err(ParseError::RequestLine);
        }
        let mut headers: Vec<(String, String)> = Vec::new();
        let mut i: usize = if e0 < n { e0 + 1 } else { n };
        assert(parse_headers(text@, i as int, seq![]) == parse_headers(text@, e0 + 1, seq![]));
        assert(pairs_view(headers@) =~= seq![]);
        let ghost target = parse_headers(text@, e0 + 1, seq![]);
        let mut start: usize = n;
        loop
            invariant
                n == text@.len(),
                i <= n,
                parse_headers(text@, i as int, pairs_view(headers@)) == target,
                target == parse_headers(text@, line_end(text@, 0) + 1, seq![]),
                strings_view(first@) == words(line_at(text@, 0)),
                first@.len() == 3,
                unique_names(pairs_view(headers@)),
            ensures
                start <= n + 1,
                target == Some((pairs_view(headers@), start as int)),
            decreases n - i,
        {
            if i >= n {
                start = n;
                break;
            }
            let e = line_end_at(text, n, i);
            let line = line_text(text, n, i, e);
            let len = line.unicode_len();
            if len == 0 {
                start = e + 1;
                break;
            }
            match find_colon(line) {
                None => {
                    return Err(ParseError::HeaderLine);
                },
                Some(c) => {
                    let key = trim_whitespace(line.substring_char(0, c));
                    let value = trim_whitespace(line.substring_char(c + 1, len));
                    let ghost acc = pairs_view(headers@);
                    set_header(&mut headers, key, value);
                    assert(parse_headers(text@, i as int, acc) == parse_headers(text@, e + 1, pairs_view(headers@)));
                    if e < n {
                        i = e + 1;
                    } else {
                        i = n;
                    }
                },
            }
        }
        let body = if start < n {
            Some(text.substring_char(start, n).to_owned())
        } else {
            None
        };
        Ok(
            Request {
                method: first[0].clone(),
                path: first[1].clone(),
                protocol: first[2].clone(),
                headers,
                body,
            },
        )
    }

    /// Decodes the bytes read from a connection, taken as UTF-8 with invalid
    /// sequences replaced.
    pub fn from_bytes(bytes: &[u8]) -> (r: Result<Request, ParseError>)
        ensures
            match parse_request(lossy_text(bytes@)) {
                Ok(parts) => r.is_ok() && request_parts(r.unwrap()) == parts,
                Err(e) => r == Err::<Request, ParseError>(e),
            },
            r matches Ok(req) ==> unique_names(pairs_view(req.headers@)),
    {
        let text = text_of_bytes(bytes);
        Request::parse(text.as_str())
    }
}

} // verus!
