use humpty::http::method::Method;
use humpty::http::mime::AcceptMime;
use humpty::route::{match_route, route_request, select_app, select_route, Cors, Route, RouteSelection, SubApp};
use humpty::http::request::RequestHead;

#[test]
fn patterns_match_segments() {
  assert!("/blog/*".to_string().route_matches("/blog/my-first-post"));
  assert!("/blog/*".to_string().route_matches("/blog"));
  assert!(!"/blog/my-first-post".to_string().route_matches("/blog/*"));
  assert!(!"/a".to_string().route_matches("/a/b"));
  let caps = match_route("/users/{id}/posts/{post}", "/users/7/posts/x").unwrap();
  assert_eq!(caps, vec![("id".to_string(), "7".to_string()), ("post".to_string(), "x".to_string())]);
  assert!(match_route("/users/{id}", "/users/").is_none());
}

fn head(s: &str) -> RequestHead {
  RequestHead::new(s.as_bytes(), 8192).unwrap().0
}

#[test]
fn selection_reports_the_first_failing_check() {
  let app = SubApp::<u8, ()>::new()
    .with_endpoint("/a", Some(Method::Post), Vec::new(), Vec::new(), 0).unwrap()
    .with_endpoint("/b", None, vec!["text/plain".to_string()], Vec::new(), 1).unwrap()
    .with_endpoint("/c", None, Vec::new(), vec!["text/html".to_string(), "application/json".to_string()], 2).unwrap()
    .with_route("/c", 3).unwrap();
  let any = [AcceptMime::default()];
  assert!(matches!(select_route(&app.routes, &Method::Get, "/z", None, &any), RouteSelection::NotFound));
  assert!(matches!(select_route(&app.routes, &Method::Get, "/a", None, &any), RouteSelection::MethodNotAllowed));
  assert!(matches!(select_route(&app.routes, &Method::Get, "/b", None, &any), RouteSelection::UnsupportedMediaType));
  assert!(matches!(
    select_route(&app.routes, &Method::Get, "/b", Some("text/plain"), &any),
    RouteSelection::Found { index: 1, .. }
  ));
  let json = [AcceptMime { mime: "text/html".to_string(), q: 200 }, AcceptMime { mime: "application/*".to_string(), q: 900 }];
  match select_route(&app.routes, &Method::Get, "/c", None, &json) {
    RouteSelection::Found { index, content_type, .. } => {
      assert_eq!(index, 2);
      assert_eq!(content_type, Some("application/json".to_string()));
    }
    _ => panic!("no route"),
  }
  let none = [AcceptMime { mime: "image/png".to_string(), q: 1000 }];
  assert!(matches!(select_route(&app.routes, &Method::Get, "/c", None, &none), RouteSelection::Found { index: 3, .. }));
  assert_eq!(RouteSelection::NotAcceptable.status(), 406);
}

#[test]
fn hosts_pick_the_longest_literal_prefix() {
  let mut a = SubApp::<u8, ()>::new();
  a.host = "*".to_string();
  let mut b = SubApp::<u8, ()>::new();
  b.host = "api.*".to_string();
  let mut c = SubApp::<u8, ()>::new();
  c.host = "api.example.com".to_string();
  let apps = vec![a, b, c];
  assert_eq!(select_app(&apps, "www.example.com"), Some(0));
  assert_eq!(select_app(&apps, "api.other.org"), Some(1));
  assert_eq!(select_app(&apps, "api.example.com"), Some(2));
  let apps = vec![SubApp::<u8, ()>::new().with_route("/x", 9).unwrap()];
  let h1 = head("GET /x HTTP/1.1\r\nHost: h\r\nX-Other: 1\r\n\r\n");
  let h2 = head("GET /x HTTP/1.1\r\nHost: h\r\nX-Other: 2\r\n\r\n");
  let r1 = route_request(&apps, &h1).unwrap();
  let r2 = route_request(&apps, &h2).unwrap();
  assert_eq!(r1.0, r2.0);
  assert!(matches!((r1.1, r2.1), (RouteSelection::Found { index: 0, .. }, RouteSelection::Found { index: 0, .. })));
}

#[test]
fn cors_applies_to_routes() {
  let app = SubApp::<u8, ()>::new().with_route("/a", 0).unwrap().with_route("/b", 1).unwrap().with_cors_config("/b", Cors::wildcard());
  assert_eq!(app.routes[0].cors, Cors::default());
  assert_eq!(app.routes[1].cors, Cors::wildcard());
  let app = app.with_cors(Cors::wildcard()).with_route("/c", 2).unwrap().with_path_aware_route("/d/*", 3).unwrap();
  assert!(app.routes.iter().all(|r| r.cors == Cors::wildcard()));
  assert!(app.routes[3].path_aware);
  let app = app.with_websocket_route("/ws", ());
  assert_eq!(app.websocket_routes.len(), 1);
}

#[test]
fn duplicate_routes_are_rejected() {
  let app = SubApp::<u8, ()>::new().with_route("/a", 0).unwrap();
  assert!(matches!(app.with_route("/a", 1), Err(humpty::route::RouteError::Duplicate)));
  let app = SubApp::<u8, ()>::new().with_endpoint("/a", Some(Method::Get), Vec::new(), Vec::new(), 0).unwrap();
  let app = app.with_endpoint("/a", Some(Method::Post), Vec::new(), Vec::new(), 1).unwrap();
  assert!(app.with_endpoint("/a", Some(Method::Get), Vec::new(), Vec::new(), 2).is_err());
}
