use humpty::http::method::Method;
use humpty::http::mime::AcceptMime;
use humpty::http::request::{HttpVersion, RequestHeadParsingError};
use humpty::http::response::Response;
use humpty::route::SubApp;
use humpty::server::{ConnectionError, Filter, NoFilter, RequestContext, RequestHandler, Server};
use std::cell::Cell;

struct Echo {
  calls: Cell<usize>,
}

impl RequestHandler for Echo {
  fn serve(&self, ctx: &RequestContext) -> Option<Response> {
    self.calls.set(self.calls.get() + 1);
    assert_eq!(HttpVersion::Http11, ctx.request_head().version());
    assert_eq!(String::from_utf8_lossy(ctx.request_body()), "12345");
    Some(Response::ok(b"Okay!".to_vec()))
  }
}

fn server_of<H: RequestHandler, F: Filter>(app: SubApp<H, ()>, filters: Vec<F>) -> Server<H, (), F> {
  Server { apps: vec![app], filters, head_limit: 512 }
}

fn text(b: &[u8]) -> String {
  String::from_utf8(b.to_vec()).unwrap()
}

#[test]
pub fn tc17() {
  let handler = Echo { calls: Cell::new(0) };
  let server = server_of(SubApp::new().with_route("/dummy", handler).unwrap(), Vec::<NoFilter>::new());
  let (out, exchanges, err) =
    server.serve_connection(b"GET /dummy HTTP/1.1\r\nContent-Length: 5\r\n\r\n12345", "peer");
  assert!(err.is_none());
  assert_eq!(exchanges.len(), 1);
  assert_eq!(server.apps[0].routes[0].handler.calls.get(), 1);
  assert_eq!(text(&out), "HTTP/1.1 200 OK\r\nConnection: Close\r\nContent-Length: 5\r\n\r\nOkay!");
}

struct NoContent {
  calls: Cell<usize>,
}

impl RequestHandler for NoContent {
  fn serve(&self, ctx: &RequestContext) -> Option<Response> {
    self.calls.set(self.calls.get() + 1);
    assert_eq!(ctx.request_head().get_accept()[0], AcceptMime::default());
    Some(Response::no_content())
  }
}

struct AcceptAnyAtRoot;

impl Filter for AcceptAnyAtRoot {
  fn pre_routing(&self, ctx: &mut RequestContext) -> Option<Response> {
    if ctx.request_head().path() == "/" {
      ctx.request_head_mut().set_header("Accept", "*/*").unwrap();
    }
    None
  }

  fn post_response(&self, _ctx: &RequestContext, response: Response) -> Response {
    response
  }
}

#[test]
pub fn tc32() {
  let app = SubApp::<NoContent, ()>::new().with_endpoint(
    "/*",
    Some(Method::Get),
    Vec::new(),
    vec!["text/plain".to_string()],
    NoContent { calls: Cell::new(0) },
  ).unwrap();
  let server = server_of(app, vec![AcceptAnyAtRoot]);

  let (out, _, _) = server.serve_connection(b"GET / HTTP/1.1\r\nAccept: application/json\r\n\r\n", "peer");
  assert_eq!(text(&out), "HTTP/1.1 204 No Content\r\nConnection: Close\r\nContent-Length: 0\r\n\r\n");

  let (out, _, _) = server.serve_connection(b"GET /bla HTTP/1.1\r\nAccept: application/json\r\n\r\n", "peer");
  assert_eq!(text(&out), "HTTP/1.1 406 Not Acceptable\r\nConnection: Close\r\nContent-Length: 0\r\n\r\n");
  assert_eq!(server.apps[0].routes[0].handler.calls.get(), 1);
}

struct JsonBody {
  calls: Cell<usize>,
}

impl RequestHandler for JsonBody {
  fn serve(&self, ctx: &RequestContext) -> Option<Response> {
    assert_eq!(String::from_utf8(ctx.request_body().to_vec()).unwrap(), "{}");
    self.calls.set(self.calls.get() + 1);
    assert_eq!(ctx.request_head().get_header("Content-Type"), Some("text/plain"));
    Some(Response::no_content())
  }
}

struct PlainAtRoot;

impl Filter for PlainAtRoot {
  fn pre_routing(&self, ctx: &mut RequestContext) -> Option<Response> {
    if ctx.request_head().path() == "/" {
      ctx.request_head_mut().set_header("Content-Type", "text/plain").unwrap();
    }
    None
  }

  fn post_response(&self, _ctx: &RequestContext, response: Response) -> Response {
    response
  }
}

#[test]
pub fn tc33() {
  let app = SubApp::<JsonBody, ()>::new().with_endpoint(
    "/*",
    Some(Method::Get),
    vec!["text/plain".to_string()],
    Vec::new(),
    JsonBody { calls: Cell::new(0) },
  ).unwrap();
  let server = server_of(app, vec![PlainAtRoot]);

  let (out, _, _) = server.serve_connection(
    b"GET / HTTP/1.1\r\nContent-Type: application/json\r\nContent-Length: 2\r\n\r\n{}",
    "peer",
  );
  assert_eq!(text(&out), "HTTP/1.1 204 No Content\r\nConnection: Close\r\nContent-Length: 0\r\n\r\n");

  let (out, _, _) = server.serve_connection(
    b"GET /bla HTTP/1.1\r\nContent-Type: application/json\r\nContent-Length: 2\r\n\r\n{}",
    "peer",
  );
  assert_eq!(
    text(&out),
    "HTTP/1.1 415 Unsupported Media Type\r\nConnection: Close\r\nContent-Length: 0\r\n\r\n"
  );
  assert_eq!(server.apps[0].routes[0].handler.calls.get(), 1);
}

struct Http09 {
  calls: Cell<usize>,
}

impl RequestHandler for Http09 {
  fn serve(&self, ctx: &RequestContext) -> Option<Response> {
    self.calls.set(self.calls.get() + 1);
    assert_eq!(HttpVersion::Http09, ctx.request_head().version());
    assert_eq!(ctx.request_head().get_all_headers().len(), 0);
    let hdr_clone = ctx.request_head().clone();
    assert_eq!(hdr_clone.get_all_headers().len(), 0);
    assert_eq!(hdr_clone.raw_status_line(), "GET /dummy");
    assert_eq!(hdr_clone.version(), HttpVersion::Http09);
    assert_eq!(hdr_clone.path(), "/dummy");
    assert_eq!(hdr_clone.method(), &Method::Get);
    assert_eq!(hdr_clone.raw_query().len(), 0);
    Some(Response::ok(b"Okay!".to_vec()))
  }
}

#[test]
pub fn tc1() {
  let server = server_of(
    SubApp::new().with_route("/dummy", Http09 { calls: Cell::new(0) }).unwrap(),
    Vec::<NoFilter>::new(),
  );
  let (out, _, err) = server.serve_connection(b"GET /dummy\r\n", "peer");
  assert!(err.is_none());
  assert_eq!(text(&out), "Okay!");
  assert_eq!(server.apps[0].routes[0].handler.calls.get(), 1);
}

struct Http10 {
  calls: Cell<usize>,
}

impl RequestHandler for Http10 {
  fn serve(&self, ctx: &RequestContext) -> Option<Response> {
    self.calls.set(self.calls.get() + 1);
    assert_eq!(HttpVersion::Http10, ctx.request_head().version());
    assert_eq!(ctx.request_head().get_header("Hdr"), Some("test"));
    Some(Response::ok(b"Okay!".to_vec()))
  }
}

#[test]
pub fn tc6() {
  let server = server_of(
    SubApp::new().with_route("/dummy", Http10 { calls: Cell::new(0) }).unwrap(),
    Vec::<NoFilter>::new(),
  );
  let (out, _, _) = server.serve_connection(b"GET /dummy HTTP/1.0\r\nHdr: test\r\n\r\n", "peer");
  assert_eq!(text(&out), "HTTP/1.0 200 OK\r\nContent-Length: 5\r\n\r\nOkay!");
  assert_eq!(server.apps[0].routes[0].handler.calls.get(), 1);
}

struct Unreachable;

impl RequestHandler for Unreachable {
  fn serve(&self, _ctx: &RequestContext) -> Option<Response> {
    unreachable!();
  }
}

#[test]
pub fn tc13() {
  let server = server_of(SubApp::new().with_route("/dummy", Unreachable).unwrap(), Vec::<NoFilter>::new());
  let (out, exchanges, err) = server.serve_connection(b"GET /dummy HTTP/1.1\nHdr: test\r\n\r\n", "peer");
  assert_eq!(err, Some(ConnectionError::Head(RequestHeadParsingError::StatusLineNoCRLF)));
  assert!(exchanges.is_empty());
  assert_eq!(text(&out), "");
}

#[test]
fn empty_read_writes_nothing() {
  let server = server_of(SubApp::new().with_route("/dummy", Unreachable).unwrap(), Vec::<NoFilter>::new());
  let (out, exchanges, err) = server.serve_connection(b"", "peer");
  assert_eq!(err, Some(ConnectionError::Head(RequestHeadParsingError::EofBeforeAnyBytes)));
  assert!(exchanges.is_empty());
  assert!(out.is_empty());
}

#[test]
fn oversized_head_is_answered_413_and_closed() {
  let mut request = b"GET /dummy HTTP/1.1\r\nX-Long: ".to_vec();
  request.extend(std::iter::repeat(b'a').take(600));
  request.extend_from_slice(b"\r\n\r\n");
  let server = server_of(SubApp::new().with_route("/dummy", Unreachable).unwrap(), Vec::<NoFilter>::new());
  let (out, exchanges, err) = server.serve_connection(&request, "peer");
  assert!(err.is_none());
  assert_eq!(exchanges.len(), 1);
  assert!(!exchanges[0].keep_alive);
  assert_eq!(text(&out), "HTTP/1.1 413 Payload Too Large\r\nConnection: Close\r\nContent-Length: 0\r\n\r\n");
}

struct Counting {
  calls: Cell<usize>,
}

impl RequestHandler for Counting {
  fn serve(&self, _ctx: &RequestContext) -> Option<Response> {
    self.calls.set(self.calls.get() + 1);
    Some(Response::ok(format!("#{}", self.calls.get()).into_bytes()))
  }
}

#[test]
fn keep_alive_answers_each_request_in_order() {
  let server = server_of(
    SubApp::new().with_route("/*", Counting { calls: Cell::new(0) }).unwrap(),
    Vec::<NoFilter>::new(),
  );
  let input = b"GET /a HTTP/1.1\r\n\r\nGET /b HTTP/1.1\r\n\r\nGET /c HTTP/1.1\r\n\r\n";
  let (out, exchanges, err) = server.serve_connection(input, "peer");
  assert!(err.is_none());
  assert_eq!(exchanges.len(), 3);
  assert_eq!(exchanges[0].start, 0);
  assert_eq!(exchanges[1].start, exchanges[0].end);
  assert_eq!(exchanges[2].end, input.len());
  assert_eq!(
    text(&out),
    "HTTP/1.1 200 OK\r\nContent-Length: 2\r\n\r\n#1\
     HTTP/1.1 200 OK\r\nContent-Length: 2\r\n\r\n#2\
     HTTP/1.1 200 OK\r\nConnection: Close\r\nContent-Length: 2\r\n\r\n#3"
  );
}

#[test]
fn connection_close_ends_the_connection() {
  let server = server_of(
    SubApp::new().with_route("/*", Counting { calls: Cell::new(0) }).unwrap(),
    Vec::<NoFilter>::new(),
  );
  let input = b"GET /a HTTP/1.1\r\nConnection: close\r\n\r\nGET /b HTTP/1.1\r\n\r\n";
  let (_, exchanges, _) = server.serve_connection(input, "peer");
  assert_eq!(exchanges.len(), 1);
  assert_eq!(server.apps[0].routes[0].handler.calls.get(), 1);
}

#[test]
fn unknown_path_is_404_and_chunked_body_is_read() {
  let server = server_of(SubApp::new().with_route("/dummy", Unreachable).unwrap(), Vec::<NoFilter>::new());
  let (out, _, _) = server.serve_connection(b"GET /other HTTP/1.1\r\n\r\n", "peer");
  assert_eq!(text(&out), "HTTP/1.1 404 Not Found\r\nConnection: Close\r\nContent-Length: 0\r\n\r\n");

  let server = server_of(
    SubApp::new().with_route("/*", Counting { calls: Cell::new(0) }).unwrap(),
    Vec::<NoFilter>::new(),
  );
  let input = b"POST /x HTTP/1.1\r\nTransfer-Encoding: chunked\r\n\r\n3\r\nabc\r\n0\r\n\r\n";
  let (_, exchanges, err) = server.serve_connection(input, "peer");
  assert!(err.is_none());
  assert_eq!(exchanges[0].end, input.len());
  let both = b"POST /x HTTP/1.1\r\nTransfer-Encoding: chunked\r\nContent-Length: 3\r\n\r\nabc";
  let (out, _, _) = server.serve_connection(both, "peer");
  assert_eq!(text(&out), "HTTP/1.1 400 Bad Request\r\nConnection: Close\r\nContent-Length: 0\r\n\r\n");
}

struct PathSeen;

impl RequestHandler for PathSeen {
  fn serve(&self, ctx: &RequestContext) -> Option<Response> {
    assert_eq!(ctx.request_head().path(), "/files/../secret");
    Some(Response::no_content())
  }
}

#[test]
fn encoded_dot_dot_is_routed_but_not_looked_up() {
  let server = server_of(SubApp::new().with_route("/files/*", PathSeen).unwrap(), Vec::<NoFilter>::new());
  let (out, _, _) = server.serve_connection(b"GET /files/%2e%2e/secret HTTP/1.1\r\n\r\n", "peer");
  assert_eq!(text(&out), "HTTP/1.1 204 No Content\r\nConnection: Close\r\nContent-Length: 0\r\n\r\n");
  assert!(humpty::route::try_find_path("./static", "/files/%2e%2e/secret").is_none());
  assert!(humpty::route::try_find_path("./static", "/a:b").is_none());
}

#[test]
fn preflight_is_answered_from_cors_settings() {
  let app = SubApp::<Unreachable, ()>::new()
    .with_endpoint("/api", Some(Method::Get), Vec::new(), Vec::new(), Unreachable).unwrap()
    .with_cors(humpty::route::Cors::wildcard());
  let server = server_of(app, Vec::<NoFilter>::new());
  let (out, _, _) = server.serve_connection(b"OPTIONS /api HTTP/1.1\r\nOrigin: x\r\n\r\n", "peer");
  assert_eq!(
    text(&out),
    "HTTP/1.1 204 No Content\r\nAccess-Control-Allow-Origin: *\r\nAccess-Control-Allow-Methods: *\r\n\
     Access-Control-Allow-Headers: *\r\nConnection: Close\r\nContent-Length: 0\r\n\r\n"
  );
  let app = SubApp::<Unreachable, ()>::new().with_endpoint("/api", Some(Method::Get), Vec::new(), Vec::new(), Unreachable).unwrap();
  let server = server_of(app, Vec::<NoFilter>::new());
  let (out, _, _) = server.serve_connection(b"OPTIONS /api HTTP/1.1\r\n\r\n", "peer");
  assert_eq!(text(&out), "HTTP/1.1 405 Method Not Allowed\r\nConnection: Close\r\nContent-Length: 0\r\n\r\n");
}
