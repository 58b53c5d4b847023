use std::io::Read;

use http_engine::{
    format_int, format_nat, get_parameters, has_substring, split_fields, str_eq_ignore_case,
    trim_whitespace, split_words, MatchedRequest, ParseError, Request, Response, Server,
};

type Handler = fn(MatchedRequest) -> Response;

fn root(_: MatchedRequest) -> Response {
    Response::new().status(200).build()
}

fn echo(m: MatchedRequest) -> Response {
    let param = m.parameter("str").unwrap().clone();
    Response::new().status(200).content_type("text/plain").body(&param).build()
}

fn user_agent(m: MatchedRequest) -> Response {
    let agent = m.header("User-Agent").unwrap().clone();
    Response::new().status(200).content_type("text/plain").body(&agent).build()
}

fn report(_: MatchedRequest) -> Response {
    Response::new().status(200).body("report").build()
}

fn named_file(m: MatchedRequest) -> Response {
    let name = m.parameter("name").unwrap().clone();
    Response::new().status(200).body(&name).build()
}

fn table() -> Server<Handler> {
    let mut server: Server<Handler> = Server::new("127.0.0.1:4221");
    server.get("/", root).get("/echo/:str", echo).get("/user-agent", user_agent);
    server
}

fn serve(server: &Server<Handler>, raw: &str) -> Vec<u8> {
    let request = Request::parse(raw).unwrap();
    let response = match server.find(&request) {
        Some((index, matched)) => (server.responder(index))(matched),
        None => Response::new(),
    };
    assert!(response.has_unique_headers());
    response.encode(&request)
}

#[test]
fn echo_scenario() {
    let server = table();
    let request = Request::parse("GET /echo/hello HTTP/1.1\r\n\r\n").unwrap();
    let (index, matched) = server.find(&request).unwrap();
    assert_eq!(index, 1);
    assert_eq!(matched.parameter("str").unwrap(), "hello");
    let bytes = serve(&server, "GET /echo/hello HTTP/1.1\r\n\r\n");
    assert_eq!(
        String::from_utf8(bytes).unwrap(),
        "HTTP/1.1 200 OK\r\nContent-Type: text/plain\r\nContent-Length: 5\r\n\r\nhello\r\n"
    );
}

#[test]
fn unknown_path_gives_not_found() {
    let server = table();
    let request = Request::parse("GET /nope HTTP/1.1\r\n\r\n").unwrap();
    assert!(server.find(&request).is_none());
    let bytes = serve(&server, "GET /nope HTTP/1.1\r\n\r\n");
    assert_eq!(String::from_utf8(bytes).unwrap(), "HTTP/1.1 404 Not Found\r\n\r\n");
}

#[test]
fn user_agent_scenario() {
    let server = table();
    let bytes = serve(&server, "GET /user-agent HTTP/1.1\r\nUser-Agent: test-client/1\r\n\r\n");
    let text = String::from_utf8(bytes).unwrap();
    assert!(text.ends_with("\r\n\r\ntest-client/1\r\n"));
    assert!(text.contains("Content-Length: 13\r\n"));
}

#[test]
fn header_lookup_ignores_case() {
    let server = table();
    let bytes = serve(&server, "GET /user-agent HTTP/1.1\r\nuser-agent: lower/2\r\n\r\n");
    assert!(String::from_utf8(bytes).unwrap().ends_with("\r\n\r\nlower/2\r\n"));
}

#[test]
fn first_registered_route_wins() {
    let mut a: Server<Handler> = Server::new("x");
    a.get("/files/:name", named_file).get("/files/report", report);
    let mut b: Server<Handler> = Server::new("x");
    b.get("/files/report", report).get("/files/:name", named_file);
    let request = Request::parse("GET /files/report HTTP/1.1\r\n\r\n").unwrap();
    let (ia, ma) = a.find(&request).unwrap();
    let (ib, mb) = b.find(&request).unwrap();
    assert_eq!(ia, 0);
    assert_eq!(ma.parameters.len(), 1);
    assert_eq!(ib, 0);
    assert_eq!(mb.parameters.len(), 0);
    let other = Request::parse("GET /files/notes HTTP/1.1\r\n\r\n").unwrap();
    assert_eq!(b.find(&other).unwrap().0, 1);
}

#[test]
fn method_must_agree() {
    let mut server: Server<Handler> = Server::new("x");
    server.post("/files/:name", named_file);
    let get = Request::parse("GET /files/a HTTP/1.1\r\n\r\n").unwrap();
    assert!(server.find(&get).is_none());
    let post = Request::parse("post /files/a HTTP/1.1\r\n\r\nbody").unwrap();
    let (_, matched) = server.find(&post).unwrap();
    assert_eq!(matched.body.as_deref(), Some("body"));
}

#[test]
fn gzip_when_accepted() {
    let server = table();
    let raw = "GET /echo/abcabcabc HTTP/1.1\r\nAccept-Encoding: deflate, gzip\r\n\r\n";
    let bytes = serve(&server, raw);
    let head_end = bytes.windows(4).position(|w| w == b"\r\n\r\n").unwrap() + 4;
    let head = String::from_utf8(bytes[..head_end].to_vec()).unwrap();
    assert!(head.contains("Content-Encoding: gzip\r\n"));
    let body = &bytes[head_end..bytes.len() - 2];
    assert!(head.contains(&format!("Content-Length: {}\r\n", body.len())));
    assert_ne!(body, b"abcabcabc");
    let mut plain = String::new();
    flate2::read::GzDecoder::new(body).read_to_string(&mut plain).unwrap();
    assert_eq!(plain, "abcabcabc");
}

#[test]
fn plain_without_gzip() {
    let server = table();
    let raw = "GET /echo/abc HTTP/1.1\r\nAccept-Encoding: br\r\n\r\n";
    let text = String::from_utf8(serve(&server, raw)).unwrap();
    assert!(!text.contains("Content-Encoding"));
    assert!(text.contains("Content-Length: 3\r\n"));
    assert!(text.ends_with("\r\n\r\nabc\r\n"));
}

#[test]
fn parse_fields_headers_and_body() {
    let r = Request::parse("POST /files/a HTTP/1.1\r\nHost:  example \r\nX-A: 1\r\nX-A: 2\r\n\r\nline one\r\nline two").unwrap();
    assert_eq!(r.method, "POST");
    assert_eq!(r.path, "/files/a");
    assert_eq!(r.protocol, "HTTP/1.1");
    assert_eq!(r.headers, vec![("Host".to_string(), "example".to_string()), ("X-A".to_string(), "2".to_string())]);
    assert_eq!(r.body.as_deref(), Some("line one\r\nline two"));
}

#[test]
fn parse_without_blank_line() {
    let r = Request::parse("GET / HTTP/1.1\nA: b").unwrap();
    assert_eq!(r.headers, vec![("A".to_string(), "b".to_string())]);
    assert!(r.body.is_none());
}

#[test]
fn bad_request_line() {
    assert_eq!(Request::parse("GET /\r\n\r\n").err(), Some(ParseError::RequestLine));
    assert_eq!(Request::parse("GET / HTTP/1.1 extra\r\n\r\n").err(), Some(ParseError::RequestLine));
    assert_eq!(Request::parse("").err(), Some(ParseError::RequestLine));
}

#[test]
fn header_without_colon() {
    assert_eq!(Request::parse("GET / HTTP/1.1\r\nbroken\r\n\r\n").err(), Some(ParseError::HeaderLine));
}

#[test]
fn from_bytes_decodes_text() {
    let r = Request::from_bytes(b"GET /x HTTP/1.1\r\n\r\n").unwrap();
    assert_eq!(r.path, "/x");
    let lossy = Request::from_bytes(b"GET /\xff HTTP/1.1\r\n\r\n").unwrap();
    assert_eq!(lossy.path, "/\u{fffd}");
}

#[test]
fn status_phrases() {
    let mut r = Response::new();
    assert_eq!(r.status_code, 404);
    assert_eq!(r.status_verb, "Not Found");
    r.status(201);
    assert_eq!(r.status_verb, "Created");
    r.status(200);
    assert_eq!(r.status_verb, "OK");
    r.status(500);
    assert_eq!(r.status_code, 500);
    assert_eq!(r.status_verb, "Unknown");
    r.status(-7);
    let request = Request::parse("GET / HTTP/1.1\r\n\r\n").unwrap();
    assert_eq!(String::from_utf8(r.encode(&request)).unwrap(), "HTTP/1.1 -7 Unknown\r\n\r\n");
}

#[test]
fn body_sets_byte_length() {
    let mut r = Response::new();
    r.body("héllo").content_type("a").content_type("b");
    assert_eq!(
        r.headers,
        vec![("Content-Length".to_string(), "6".to_string()), ("Content-Type".to_string(), "b".to_string())]
    );
}

#[test]
fn path_matching() {
    let p = get_parameters("/users/:id/posts/:post", "//users/7/posts/x/").unwrap();
    assert_eq!(p, vec![("id".to_string(), "7".to_string()), ("post".to_string(), "x".to_string())]);
    assert_eq!(get_parameters("/a/b", "/a/b").unwrap(), vec![]);
    assert!(get_parameters("/a/:x", "/a").is_none());
    assert!(get_parameters("/a/:x", "/b/c").is_none());
    assert!(get_parameters("/A", "/a").is_none());
}

#[test]
fn text_helpers() {
    assert_eq!(split_fields("/a//b/", '/'), vec!["a".to_string(), "b".to_string()]);
    assert!(split_fields("", '/').is_empty());
    assert!(str_eq_ignore_case("Accept-Encoding", "accept-ENCODING"));
    assert!(!str_eq_ignore_case("a", "b"));
    assert_eq!(trim_whitespace(" \t x y \t"), "x y");
    assert_eq!(trim_whitespace("\u{a0}b\u{3000}\r"), "b");
    assert!(has_substring("deflate, gzip", "gzip"));
    assert!(!has_substring("gz", "gzip"));
    assert_eq!(format_nat(0), "0");
    assert_eq!(format_nat(1234567890), "1234567890");
    assert_eq!(format_int(-2147483648), "-2147483648");
    assert_eq!(format_int(404), "404");
}

/// Splits response bytes as a client would: status line, header lines up to
/// the empty line, then the body up to the closing CRLF.
fn client_decode(bytes: &[u8]) -> (i32, String, Vec<(String, String)>, Vec<u8>) {
    let head_end = bytes.windows(4).position(|w| w == b"\r\n\r\n").unwrap();
    let head = String::from_utf8(bytes[..head_end].to_vec()).unwrap();
    let mut lines = head.split("\r\n");
    let status = lines.next().unwrap();
    let mut parts = status.splitn(3, ' ');
    assert_eq!(parts.next(), Some("HTTP/1.1"));
    let code: i32 = parts.next().unwrap().parse().unwrap();
    let reason = parts.next().unwrap().to_string();
    let headers = lines
        .map(|l| {
            let (k, v) = l.split_once(": ").unwrap();
            (k.to_string(), v.to_string())
        })
        .collect();
    let body = bytes[head_end + 4..bytes.len() - 2].to_vec();
    (code, reason, headers, body)
}

#[test]
fn round_trip_as_client() {
    let mut response = Response::new();
    response.status(201).content_type("text/html").body("<p>made</p>");
    let request = Request::parse("POST /files/x HTTP/1.1\r\n\r\n").unwrap();
    let (code, reason, headers, body) = client_decode(&response.encode(&request));
    assert_eq!(code, 201);
    assert_eq!(reason, "Created");
    assert_eq!(
        headers,
        vec![
            ("Content-Type".to_string(), "text/html".to_string()),
            ("Content-Length".to_string(), "11".to_string())
        ]
    );
    assert_eq!(body, b"<p>made</p>".to_vec());
}

#[test]
fn segment_count_must_agree() {
    let server = table();
    for raw in ["GET /echo HTTP/1.1\r\n\r\n", "GET /echo/a/b HTTP/1.1\r\n\r\n", "GET /user-agent/x HTTP/1.1\r\n\r\n"] {
        let request = Request::parse(raw).unwrap();
        assert!(server.find(&request).is_none());
    }
    let slashes = Request::parse("GET //echo//hi/ HTTP/1.1\r\n\r\n").unwrap();
    assert_eq!(server.find(&slashes).unwrap().1.parameter("str").unwrap(), "hi");
}

#[test]
fn request_line_splits_at_any_whitespace() {
    assert_eq!(Request::parse("a\tb c d\r\n\r\n").err(), Some(ParseError::RequestLine));
    let r = Request::parse("GET  /x\tHTTP/1.1\t\r\n\r\n").unwrap();
    assert_eq!(r.method, "GET");
    assert_eq!(r.path, "/x");
    assert_eq!(r.protocol, "HTTP/1.1");
    assert_eq!(split_words(" a\u{2003}b\t\tc "), vec!["a".to_string(), "b".to_string(), "c".to_string()]);
}

#[test]
fn header_trimmed_of_unicode_whitespace() {
    let r = Request::parse("GET / HTTP/1.1\r\n Host :\u{a0}b\u{a0}\r\n\r\n").unwrap();
    assert_eq!(r.headers, vec![("Host".to_string(), "b".to_string())]);
}

#[test]
fn duplicate_header_names_detected() {
    let mut r = Response::new();
    r.body("x");
    assert!(r.has_unique_headers());
    r.headers.push(("Content-Length".to_string(), "9".to_string()));
    assert!(!r.has_unique_headers());
}
