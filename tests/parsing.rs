use humpty::http::cookie::Cookie;
use humpty::http::mime::AcceptMime;
use humpty::http::request::{HttpVersion, RequestHead, RequestHeadParsingError, UserError};
use humpty::http::response::{write_chunk, Response};

fn parse(s: &str) -> Result<(RequestHead, usize), RequestHeadParsingError> {
  RequestHead::new(s.as_bytes(), 8192)
}

fn err(s: &str) -> RequestHeadParsingError {
  parse(s).err().unwrap()
}

#[test]
fn head_round_trips_when_unpadded() {
  let input = "GET /a%20b?x=1 HTTP/1.1\r\nHost: example.com\r\nAccept: text/html\r\n\r\nbody";
  let (head, end) = parse(input).unwrap();
  assert_eq!(end, input.len() - 4);
  assert_eq!(head.to_bytes(), input.as_bytes()[..end].to_vec());
  assert_eq!(head.path(), "/a b");
  assert_eq!(head.raw_query(), "x=1");
}

#[test]
fn parsing_twice_gives_equal_heads() {
  let input = "POST /p HTTP/1.0\r\nX:  padded  \r\n\r\n";
  let (a, ea) = parse(input).unwrap();
  let (b, eb) = parse(input).unwrap();
  assert_eq!(ea, eb);
  assert_eq!(a.to_bytes(), b.to_bytes());
  assert_eq!(a.get_header("x"), Some("padded"));
}

#[test]
fn every_parse_error_has_an_input() {
  assert_eq!(err(""), RequestHeadParsingError::EofBeforeAnyBytes);
  assert_eq!(err("GET /<> HTTP/1.1\r\n\r\n"), RequestHeadParsingError::StatusLineInvalidBytes);
  assert_eq!(err("GET / HTTP/1.1\n\r\n"), RequestHeadParsingError::StatusLineNoCRLF);
  assert_eq!(err("GET\r\n"), RequestHeadParsingError::StatusLineNoWhitespace);
  assert_eq!(err("GET / HTTP/1.1 x\r\n\r\n"), RequestHeadParsingError::StatusLineTooManyFields);
  assert_eq!(err("GET / HTTP/1.1\r\nA: \u{e9}\r\n\r\n"), RequestHeadParsingError::HeaderNotAscii);
  assert_eq!(err("GET / HTTP/1.1\r\nA: b\n\r\n"), RequestHeadParsingError::HeaderNoCRLF);
  assert_eq!(err("GET / HTTP/1.1\r\nA: b\r\n"), RequestHeadParsingError::HeaderNoCRLF);
  assert_eq!(err("GET / HTTP/1.1\r\n: b\r\n\r\n"), RequestHeadParsingError::HeaderNameEmpty);
  assert_eq!(err("GET / HTTP/1.1\r\nA:  \r\n\r\n"), RequestHeadParsingError::HeaderValueEmpty);
  assert_eq!(err("GET / HTTP/1.1\r\nA=b\r\n\r\n"), RequestHeadParsingError::HeaderValueMissing);
  assert_eq!(err("GET /%zz HTTP/1.1\r\n\r\n"), RequestHeadParsingError::PathInvalidPercentEncoding);
  assert_eq!(err("GET /%ff HTTP/1.1\r\n\r\n"), RequestHeadParsingError::PathNotUtf8);
  assert_eq!(err("GET / HTTP/2.0\r\n\r\n"), RequestHeadParsingError::UnsupportedVersion);
  assert_eq!(err("POST /\r\n"), RequestHeadParsingError::MethodNotAllowedByVersion);
  assert_eq!(
    RequestHead::new(b"GET / HTTP/1.1\r\nA: b\r\n\r\n", 10).err(),
    Some(RequestHeadParsingError::HeadTooLarge)
  );
}

#[test]
fn errors_map_to_statuses() {
  assert_eq!(RequestHeadParsingError::HeadTooLarge.status(), Some(413));
  assert_eq!(RequestHeadParsingError::UnsupportedVersion.status(), Some(505));
  assert_eq!(RequestHeadParsingError::HeaderNameEmpty.status(), Some(400));
  assert_eq!(RequestHeadParsingError::EofBeforeAnyBytes.status(), None);
}

#[test]
fn versions_read_and_print() {
  assert_eq!(HttpVersion::try_from_net_str(""), Ok(HttpVersion::Http09));
  assert_eq!(HttpVersion::try_from_net_str("HTTP/1.0"), Ok(HttpVersion::Http10));
  assert_eq!(HttpVersion::try_from_net_str("HTTP/0.9"), Err("HTTP/0.9"));
  assert_eq!(HttpVersion::try_from_str("HTTP/0.9"), Ok(HttpVersion::Http09));
  assert_eq!(HttpVersion::try_from_str("HTTP/2"), Err("HTTP/2"));
  assert_eq!(HttpVersion::Http09.as_str(), "HTTP/0.9");
  assert_eq!(HttpVersion::Http09.as_net_str(), "");
  assert_eq!(HttpVersion::Http11.as_net_str(), "HTTP/1.1");
}

#[test]
fn accept_lists_parse_with_qualities() {
  let (head, _) = parse("GET / HTTP/1.1\r\nAccept: text/html, application/*;q=0.5, */*;q=0\r\n\r\n").unwrap();
  let accept = head.get_accept();
  assert_eq!(accept.len(), 3);
  assert_eq!(accept[1], AcceptMime { mime: "application/*".to_string(), q: 500 });
  assert_eq!(accept[2].q, 0);
  let (bad, _) = parse("GET / HTTP/1.1\r\nAccept: nonsense\r\n\r\n").unwrap();
  assert_eq!(bad.get_accept(), &[AcceptMime::default()]);
  let (old, _) = parse("GET /\r\n").unwrap();
  assert_eq!(old.get_accept()[0].mime, "text/html");
  assert_eq!(AcceptMime::parse("a/b;q=1.5"), None);
  assert_eq!(
    AcceptMime::elements_to_header_value(&[AcceptMime::default(), AcceptMime { mime: "a/b".to_string(), q: 250 }]),
    "*/*, a/b;q=0.250"
  );
}

#[test]
fn framing_headers_cannot_change() {
  let (mut head, _) = parse("GET / HTTP/1.1\r\nContent-Length: 0\r\nX-A: 1\r\nx-a: 2\r\n\r\n").unwrap();
  assert_eq!(head.set_header("content-length", "5"), Err(UserError::ImmutableRequestHeaderModified));
  assert_eq!(head.add_header("Transfer-Encoding", "chunked"), Err(UserError::ImmutableRequestHeaderModified));
  assert_eq!(head.remove_header("Content-Length"), Err(UserError::ImmutableRequestHeaderRemoved));
  assert_eq!(head.get_headers("X-A"), vec!["1", "2"]);
  assert_eq!(head.set_header("x-A", "3"), Ok(()));
  assert_eq!(head.get_headers("X-A"), vec!["3"]);
  assert_eq!(head.remove_header("X-A"), Ok(()));
  assert_eq!(head.get_header("X-A"), None);
  assert_eq!(head.set_header("Accept", "bad"), Err(UserError::IllegalAcceptHeaderValueSet));
  assert_eq!(head.add_header("Accept", "text/plain"), Ok(()));
  assert_eq!(head.add_header("Accept", "text/html"), Err(UserError::MultipleAcceptHeaderValuesSet));
  assert_eq!(head.get_accept()[0].mime, "text/plain");
  assert_eq!(head.remove_header("accept"), Ok(()));
  assert_eq!(head.get_header("Accept"), Some("*/*"));
  head.set_accept(vec![AcceptMime { mime: "a/b".to_string(), q: 1000 }]);
  assert_eq!(head.get_header("Accept"), Some("a/b"));
  head.set_path("/new");
  assert_eq!(head.path(), "/new");
}

#[test]
fn cookies_are_split_and_trimmed() {
  let (head, _) = parse("GET / HTTP/1.1\r\nCookie: a=1; b = two ;junk; a=3\r\n\r\n").unwrap();
  let cookies: Vec<(String, String)> = head.get_cookies().into_iter().map(|c: Cookie| (c.name, c.value)).collect();
  assert_eq!(
    cookies,
    vec![
      ("a".to_string(), "1".to_string()),
      ("b".to_string(), "two".to_string()),
      ("a".to_string(), "3".to_string())
    ]
  );
  assert_eq!(head.get_cookie("a").map(|c| c.value), Some("1".to_string()));
  assert!(head.get_cookie("c").is_none());
}

#[test]
fn responses_frame_their_bodies() {
  let r = Response::ok(b"hi".to_vec()).with_header("Content-Type", "text/plain");
  assert_eq!(
    r.to_bytes(HttpVersion::Http11, true),
    b"HTTP/1.1 200 OK\r\nContent-Type: text/plain\r\nContent-Length: 2\r\n\r\nhi".to_vec()
  );
  assert_eq!(r.to_bytes(HttpVersion::Http09, false), b"hi".to_vec());
  assert_eq!(
    Response::empty(599).to_bytes(HttpVersion::Http10, false),
    b"HTTP/1.0 599 Unknown\r\nContent-Length: 0\r\n\r\n".to_vec()
  );
  assert_eq!(write_chunk(&[7u8; 26]).len(), 2 + 2 + 26 + 2);
  assert_eq!(&write_chunk(&[7u8; 26])[..4], b"1a\r\n");
  assert_eq!(humpty::http::response::last_chunk(), b"0\r\n\r\n".to_vec());
  assert_eq!(humpty::http::response::decimal_bytes(1234567), b"1234567".to_vec());
  assert_eq!(humpty::util::three_digit_to_utf(404), *b"404");
  assert_eq!(humpty::util::three_digit_to_utf(7), *b"007");
}

#[test]
fn redirect_sets_location() {
  let r = humpty::handlers::redirect("/there");
  assert_eq!(r.status(), 301);
  assert_eq!(r.headers().get("location"), Some("/there"));
}

#[test]
fn method_can_be_replaced() {
  let (mut head, _) = parse("GET / HTTP/1.1\r\n\r\n").unwrap();
  head.set_method(humpty::http::method::Method::Post);
  assert_eq!(head.method(), &humpty::http::method::Method::Post);
  assert_eq!(humpty::util::unwrap_some(Some(7u8)), 7);
}
