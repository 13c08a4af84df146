//! Routes: path patterns with `{name}` captures and a trailing `*`, and the
//! selection of the route that serves a request.
use vstd::prelude::*;
use vstd::string::StrSliceExecFns;
use crate::http::method::{name_of, str_eq, Method};

verus! {

/// The first index at or after `from` holding `c`, or `s.len()`.
pub open spec fn find_char(s: Seq<char>, from: int, c: char) -> int
    decreases s.len() - from,
{
    if from < 0 || from >= s.len() {
        s.len() as int
    } else if s[from] == c {
        from
    } else {
        find_char(s, from + 1, c)
    }
}

/// What `find_char` returns: the first occurrence, or the length.
pub proof fn lemma_find_char(s: Seq<char>, from: int, c: char)
    requires
        0 <= from <= s.len(),
    ensures
        from <= find_char(s, from, c) <= s.len(),
        find_char(s, from, c) < s.len() ==> s[find_char(s, from, c)] == c,
    decreases s.len() - from,
{
    if from < s.len() && s[from] != c {
        lemma_find_char(s, from + 1, c);
    }
}

/// The segments of a path: the pieces between its `/`s (`/a/b` has `""`, `a`, `b`).
pub open spec fn segments(s: Seq<char>) -> Seq<Seq<char>>
    decreases s.len(),
    via segments_decreases
{
    let k = find_char(s, 0, '/');
    if k >= s.len() {
        seq![s]
    } else {
        seq![s.subrange(0, k)] + segments(s.subrange(k + 1, s.len() as int))
    }
}

/// Each segment read moves past at least its `/`.
#[via_fn]
proof fn segments_decreases(s: Seq<char>) {
    lemma_find_char(s, 0, '/');
}

/// Finds `c` in `s` at or after `from`.
pub fn find_char_at(s: &str, from: usize, c: char) -> (r: usize)
    requires
        from <= s@.len(),
    ensures
        r == find_char(s@, from as int, c),
{
    let n = s.unicode_len();
    let mut i = from;
    while i < n
        invariant
            n == s@.len(),
            from <= i <= n,
            find_char(s@, from as int, c) == find_char(s@, i as int, c),
        decreases n - i,
    {
        if s.get_char(i) == c {
            return i;
        }
        i = i + 1;
    }
    i
}

/// Splits a path into its segments.
pub fn split_segments(s: &str) -> (r: Vec<String>)
    ensures
        r@.map_values(|x: String| x@) == segments(s@),
{
    let mut out: Vec<String> = Vec::new();
    let mut rest: &str = s;
    let ghost mut acc: Seq<Seq<char>> = Seq::empty();
    assert(segments(s@) =~= acc + segments(rest@));
    loop
        invariant
            out@.map_values(|x: String| x@) == acc,
            segments(s@) == acc + segments(rest@),
        decreases rest@.len(),
    {
        let n = rest.unicode_len();
        let k = find_char_at(rest, 0, '/');
        proof {
            lemma_find_char(rest@, 0, '/');
        }
        let ghost before = out@;
        if k >= n {
            out.push(rest.to_string());
            proof {
                assert(out@.map_values(|x: String| x@) =~= before.map_values(|x: String| x@).push(rest@));
                assert(acc + seq![rest@] =~= acc.push(rest@));
            }
            return out;
        }
        let head = rest.substring_char(0, k);
        let tail = rest.substring_char(k + 1, n);
        out.push(head.to_string());
        proof {
            assert(out@.map_values(|x: String| x@) =~= before.map_values(|x: String| x@).push(head@));
            assert(acc + (seq![head@] + segments(tail@)) =~= acc.push(head@) + segments(tail@));
            acc = acc.push(head@);
        }
        rest = tail;
    }
}

/// Whether a pattern segment is a capture `{name}`.
pub open spec fn is_capture(seg: Seq<char>) -> bool {
    seg.len() >= 2 && seg[0] == '{' && seg[seg.len() - 1] == '}'
}

/// Matches pattern segments from `i` against path segments from `j`: a
/// literal segment must be equal, a capture `{name}` takes one non-empty
/// segment, and a final `*` takes whatever remains. Gives the captures in order.
pub open spec fn match_segments(ps: Seq<Seq<char>>, i: int, xs: Seq<Seq<char>>, j: int) -> Option<
    Seq<(Seq<char>, Seq<char>)>,
>
    decreases ps.len() - i,
{
    if i < 0 || i >= ps.len() {
        if j >= xs.len() {
            Some(Seq::empty())
        } else {
            None
        }
    } else if i == ps.len() - 1 && ps[i] == seq!['*'] {
        Some(Seq::empty())
    } else if j < 0 || j >= xs.len() {
        None
    } else if is_capture(ps[i]) {
        if xs[j].len() == 0 {
            None
        } else {
            match match_segments(ps, i + 1, xs, j + 1) {
                None => None,
                Some(rest) => Some(seq![(ps[i].subrange(1, ps[i].len() - 1), xs[j])] + rest),
            }
        }
    } else if ps[i] == xs[j] {
        match_segments(ps, i + 1, xs, j + 1)
    } else {
        None
    }
}

/// The captures of a path under a pattern, if the pattern matches it.
pub open spec fn route_match(pattern: Seq<char>, path: Seq<char>) -> Option<Seq<(Seq<char>, Seq<char>)>> {
    match_segments(segments(pattern), 0, segments(path), 0)
}

} // verus!

verus! {

/// The captures of the match from `acc` on, after `acc` was captured already.
pub open spec fn with_captures(acc: Seq<(Seq<char>, Seq<char>)>, r: Option<Seq<(Seq<char>, Seq<char>)>>) -> Option<
    Seq<(Seq<char>, Seq<char>)>,
> {
    match r {
        None => None,
        Some(rest) => Some(acc + rest),
    }
}

/// Captures as pairs of character sequences.
pub open spec fn captures_view(v: Seq<(String, String)>) -> Seq<(Seq<char>, Seq<char>)> {
    v.map_values(|c: (String, String)| (c.0@, c.1@))
}

/// Whether a segment is a capture `{name}`.
fn is_capture_segment(seg: &str) -> (r: bool)
    ensures
        r == is_capture(seg@),
{
    let n = seg.unicode_len();
    n >= 2 && seg.get_char(0) == '{' && seg.get_char(n - 1) == '}'
}

/// Matches a path against a pattern and returns the captures, in order.
pub fn match_route(pattern: &str, path: &str) -> (r: Option<Vec<(String, String)>>)
    ensures
        match route_match(pattern@, path@) {
            None => r is None,
            Some(m) => r is Some && captures_view(r->Some_0@) == m,
        },
{
    let ps = split_segments(pattern);
    let xs = split_segments(path);
    let ghost pv = ps@.map_values(|x: String| x@);
    let ghost xv = xs@.map_values(|x: String| x@);
    let mut caps: Vec<(String, String)> = Vec::new();
    let ghost mut acc: Seq<(Seq<char>, Seq<char>)> = Seq::empty();
    let mut i: usize = 0;
    proof {
        reveal_strlit("*");
        assert("*"@ =~= seq!['*']);
        let r0 = match_segments(pv, 0, xv, 0);
        if r0 is Some {
            assert(acc + r0->Some_0 =~= r0->Some_0);
        }
        assert(captures_view(caps@) =~= acc);
    }
    loop
        invariant
            pv == ps@.map_values(|x: String| x@),
            xv == xs@.map_values(|x: String| x@),
            pv == segments(pattern@),
            xv == segments(path@),
            captures_view(caps@) == acc,
            "*"@ == seq!['*'],
            match_segments(pv, 0, xv, 0) == with_captures(acc, match_segments(pv, i as int, xv, i as int)),
        decreases ps@.len() - i,
    {
        assert(pv.len() == ps@.len() && xv.len() == xs@.len());
        if i >= ps.len() {
            if i >= xs.len() {
                assert(acc + Seq::<(Seq<char>, Seq<char>)>::empty() =~= acc);
                return Some(caps);
            }
            return None;
        }
        let seg = ps[i].as_str();
        assert(seg@ == pv[i as int]);
        if i == ps.len() - 1 && str_eq(seg, "*") {
            assert(acc + Seq::<(Seq<char>, Seq<char>)>::empty() =~= acc);
            return Some(caps);
        }
        if i >= xs.len() {
            assert(match_segments(pv, i as int, xv, i as int) is None);
            return None;
        }
        let x = xs[i].as_str();
        assert(x@ == xv[i as int]);
        if is_capture_segment(seg) {
            if x.unicode_len() == 0 {
                assert(match_segments(pv, i as int, xv, i as int) is None);
                return None;
            }
            let n = seg.unicode_len();
            let name = seg.substring_char(1, n - 1).to_string();
            let value = x.to_string();
            let ghost c = (name@, value@);
            let ghost before = caps@;
            caps.push((name, value));
            proof {
                assert(captures_view(caps@) =~= captures_view(before).push(c));
                let rest = match_segments(pv, i + 1, xv, i + 1);
                assert(match_segments(pv, i as int, xv, i as int) == match rest {
                    None => None,
                    Some(rr) => Some(seq![c] + rr),
                });
                if rest is Some {
                    assert(acc + (seq![c] + rest->Some_0) =~= acc.push(c) + rest->Some_0);
                }
                acc = acc.push(c);
            }
        } else if !str_eq(seg, x) {
            assert(match_segments(pv, i as int, xv, i as int) is None);
            return None;
        } else {
            assert(match_segments(pv, i as int, xv, i as int) == match_segments(pv, i + 1, xv, i + 1));
        }
        i = i + 1;
    }
}

/// An object that can stand for a route pattern.
pub trait Route {
    /// Whether the given path matches this pattern.
    fn route_matches(&self, route: &str) -> bool;
}

impl Route for String {
    /// Whether `route` matches this pattern: `/blog/*` matches
    /// `/blog/my-first-post`, not the other way round.
    fn route_matches(&self, route: &str) -> (r: bool)
        ensures
            r == route_match(self@, route@) is Some,
    {
        match_route(self.as_str(), route).is_some()
    }
}

} // verus!


verus! {

/// Cross-origin resource sharing settings of a route.
#[derive(Debug, Clone, Copy, PartialEq, Eq, Structural)]
pub struct Cors {
    /// Whether any origin may make requests.
    pub allow_any_origin: bool,
    /// Whether any method may be used.
    pub allow_any_method: bool,
    /// Whether any header may be sent.
    pub allow_any_header: bool,
}

impl Cors {
    /// Allows every origin, method and header.
    pub fn wildcard() -> (r: Cors)
        ensures
            r == (Cors { allow_any_origin: true, allow_any_method: true, allow_any_header: true }),
    {
        Cors { allow_any_origin: true, allow_any_method: true, allow_any_header: true }
    }
}

impl Default for Cors {
    /// Allows nothing beyond the same origin.
    fn default() -> (r: Cors)
        ensures
            r == (Cors { allow_any_origin: false, allow_any_method: false, allow_any_header: false }),
    {
        Cors { allow_any_origin: false, allow_any_method: false, allow_any_header: false }
    }
}

/// A route and its handler, with what it requires of a request.
pub struct RouteHandler<H> {
    /// The path pattern.
    pub route: String,
    /// The method the route serves, or any method.
    pub method: Option<Method>,
    /// The request content types the route takes; empty for any.
    pub consumes: Vec<String>,
    /// The media types the route can produce, in order of preference; empty for any.
    pub produces: Vec<String>,
    /// The handler to run when the route is selected.
    pub handler: H,
    /// The CORS settings of the route.
    pub cors: Cors,
    /// Whether the handler is passed the route pattern as well.
    pub path_aware: bool,
}

/// A route and its WebSocket handler.
pub struct WebsocketRouteHandler<W> {
    /// The path pattern.
    pub route: String,
    /// The handler to run when the route is matched.
    pub handler: W,
}

/// The routes served for one host pattern.
pub struct SubApp<H, W> {
    /// The host pattern: `*` for any, `prefix*`, or an exact host.
    pub host: String,
    /// The routes, in the order they are tried.
    pub routes: Vec<RouteHandler<H>>,
    /// The WebSocket routes.
    pub websocket_routes: Vec<WebsocketRouteHandler<W>>,
    /// CORS settings for every route of the sub-app, if set.
    pub cors: Option<Cors>,
}

/// The CORS settings a new route gets.
pub open spec fn inherited_cors(c: Option<Cors>) -> Cors {
    match c {
        Some(c) => c,
        None => Cors { allow_any_origin: false, allow_any_method: false, allow_any_header: false },
    }
}

impl<H, W> SubApp<H, W> {
    /// A sub-app for any host, with no routes.
    pub fn new() -> (r: SubApp<H, W>)
        ensures
            r.host@ == "*"@,
            r.routes@.len() == 0,
            r.websocket_routes@.len() == 0,
            r.cors is None,
    {
        SubApp { host: "*".to_string(), routes: Vec::new(), websocket_routes: Vec::new(), cors: None }
    }

    /// Adds a route that serves `produces` types to requests of `method`
    /// whose content type is one of `consumes` (empty lists mean any). A
    /// route equal to one present in pattern, method, consumes and produces
    /// is rejected.
    pub fn with_endpoint(
        self,
        route: &str,
        method: Option<Method>,
        consumes: Vec<String>,
        produces: Vec<String>,
        handler: H,
    ) -> (r: Result<SubApp<H, W>, RouteError>)
        ensures
            ({
                let v = parts_view(route@, method, consumes@, produces@);
                &&& (exists|i: int| 0 <= i < self.routes@.len() && #[trigger] route_view(self.routes@[i]) == v) <==> r is Err
                &&& r is Ok ==> {
                    let a = r->Ok_0;
                    let n = a.routes@.last();
                    &&& a.host == self.host
                    &&& a.cors == self.cors
                    &&& a.websocket_routes == self.websocket_routes
                    &&& a.routes@.len() == self.routes@.len() + 1
                    &&& a.routes@.subrange(0, self.routes@.len() as int) == self.routes@
                    &&& n.route@ == route@ && n.method == method && n.consumes == consumes && n.produces
                        == produces && n.handler == handler && n.cors == inherited_cors(self.cors)
                        && !n.path_aware
                }
            }),
    {
        if has_route(self.routes.as_slice(), route, &method, &consumes, &produces) {
            return Err(RouteError::Duplicate);
        }
        let mut s = self;
        let cors = match s.cors {
            Some(c) => c,
            None => Cors::default(),
        };
        s.routes.push(
            RouteHandler {
                route: route.to_string(),
                method,
                consumes,
                produces,
                handler,
                cors,
                path_aware: false,
            },
        );
        assert(s.routes@.subrange(0, self.routes@.len() as int) =~= self.routes@);
        Ok(s)
    }

    /// Adds a route for any method and media type; routes can end in a
    /// wildcard, for example `/blog/*`. A second route for the same pattern
    /// on the same terms is rejected.
    pub fn with_route(self, route: &str, handler: H) -> (r: Result<SubApp<H, W>, RouteError>)
        ensures
            ({
                let v = parts_view(route@, None, Seq::empty(), Seq::empty());
                &&& (exists|i: int| 0 <= i < self.routes@.len() && #[trigger] route_view(self.routes@[i]) == v) <==> r is Err
                &&& r is Ok ==> {
                    let a = r->Ok_0;
                    let n = a.routes@.last();
                    &&& a.host == self.host
                    &&& a.cors == self.cors
                    &&& a.websocket_routes == self.websocket_routes
                    &&& a.routes@.len() == self.routes@.len() + 1
                    &&& a.routes@.subrange(0, self.routes@.len() as int) == self.routes@
                    &&& n.route@ == route@ && n.method is None && n.consumes@.len() == 0 && n.produces@.len()
                        == 0 && n.handler == handler && n.cors == inherited_cors(self.cors) && !n.path_aware
                }
            }),
    {
        let r = self.with_endpoint(route, None, Vec::new(), Vec::new(), handler);
        proof {
            assert(Seq::<String>::empty().map_values(|c: String| c@) =~= Seq::<Seq<char>>::empty());
        }
        r
    }

    /// Adds a route whose handler is also passed the route pattern; rejected
    /// as `with_route` is.
    pub fn with_path_aware_route(self, route: &str, handler: H) -> (r: Result<SubApp<H, W>, RouteError>)
        ensures
            ({
                let v = parts_view(route@, None, Seq::empty(), Seq::empty());
                &&& (exists|i: int| 0 <= i < self.routes@.len() && #[trigger] route_view(self.routes@[i]) == v) <==> r is Err
                &&& r is Ok ==> {
                    let a = r->Ok_0;
                    let n = a.routes@.last();
                    &&& a.host == self.host
                    &&& a.cors == self.cors
                    &&& a.websocket_routes == self.websocket_routes
                    &&& a.routes@.len() == self.routes@.len() + 1
                    &&& a.routes@.subrange(0, self.routes@.len() as int) == self.routes@
                    &&& n.route@ == route@ && n.method is None && n.consumes@.len() == 0 && n.produces@.len()
                        == 0 && n.handler == handler && n.cors == inherited_cors(self.cors) && n.path_aware
                }
            }),
    {
        let mut s = match self.with_route(route, handler) {
            Err(e) => {
                return Err(e);
            },
            Ok(s) => s,
        };
        let last = s.routes.len() - 1;
        s.routes[last].path_aware = true;
        assert(s.routes@.subrange(0, self.routes@.len() as int) =~= self.routes@);
        Ok(s)
    }

    /// Adds a WebSocket route and its handler.
    pub fn with_websocket_route(self, route: &str, handler: W) -> (r: SubApp<H, W>)
        ensures
            r.host == self.host,
            r.cors == self.cors,
            r.routes == self.routes,
            r.websocket_routes@.len() == self.websocket_routes@.len() + 1,
            r.websocket_routes@.subrange(0, self.websocket_routes@.len() as int) == self.websocket_routes@,
            r.websocket_routes@.last().route@ == route@,
            r.websocket_routes@.last().handler == handler,
    {
        let mut s = self;
        s.websocket_routes.push(WebsocketRouteHandler { route: route.to_string(), handler });
        assert(s.websocket_routes@.subrange(0, self.websocket_routes@.len() as int) =~= self.websocket_routes@);
        s
    }

    /// Sets the CORS settings of the sub-app, for its routes now and later.
    pub fn with_cors(self, cors: Cors) -> (r: SubApp<H, W>)
        ensures
            r.host == self.host,
            r.cors == Some(cors),
            r.websocket_routes == self.websocket_routes,
            r.routes@.len() == self.routes@.len(),
            forall|i: int| 0 <= i < r.routes@.len() ==> #[trigger] r.routes@[i] == (RouteHandler {
                cors,
                ..self.routes@[i]
            }),
    {
        let mut s = self;
        s.cors = Some(cors);
        let mut i: usize = 0;
        while i < s.routes.len()
            invariant
                i <= s.routes@.len() == self.routes@.len(),
                s.host == self.host,
                s.cors == Some(cors),
                s.websocket_routes == self.websocket_routes,
                forall|k: int| 0 <= k < i ==> #[trigger] s.routes@[k] == (RouteHandler { cors, ..self.routes@[k] }),
                forall|k: int| i <= k < s.routes@.len() ==> #[trigger] s.routes@[k] == self.routes@[k],
            decreases self.routes@.len() - i,
        {
            s.routes[i].cors = cors;
            i = i + 1;
        }
        s
    }

    /// Sets the CORS settings of the routes whose pattern is `route`.
    pub fn with_cors_config(self, route: &str, cors: Cors) -> (r: SubApp<H, W>)
        ensures
            r.host == self.host,
            r.cors == self.cors,
            r.websocket_routes == self.websocket_routes,
            r.routes@.len() == self.routes@.len(),
            forall|i: int| 0 <= i < r.routes@.len() ==> #[trigger] r.routes@[i] == if self.routes@[i].route@
                == route@ {
                RouteHandler { cors, ..self.routes@[i] }
            } else {
                self.routes@[i]
            },
    {
        let mut s = self;
        let mut i: usize = 0;
        while i < s.routes.len()
            invariant
                i <= s.routes@.len() == self.routes@.len(),
                s.host == self.host,
                s.cors == self.cors,
                s.websocket_routes == self.websocket_routes,
                forall|k: int| 0 <= k < i ==> #[trigger] s.routes@[k] == if self.routes@[k].route@ == route@ {
                    RouteHandler { cors, ..self.routes@[k] }
                } else {
                    self.routes@[k]
                },
                forall|k: int| i <= k < s.routes@.len() ==> #[trigger] s.routes@[k] == self.routes@[k],
            decreases self.routes@.len() - i,
        {
            if str_eq(s.routes[i].route.as_str(), route) {
                s.routes[i].cors = cors;
            }
            i = i + 1;
        }
        s
    }
}

} // verus!

verus! {

/// Whether an `Accept` entry's media type covers `p`: `*/*`, `type/*` for
/// any subtype of `type`, or `p` itself.
pub open spec fn mime_covers(a: Seq<char>, p: Seq<char>) -> bool {
    ||| a == "*/*"@
    ||| a == p
    ||| (a.len() >= 2 && a[a.len() - 1] == '*' && a[a.len() - 2] == '/' && p.len() >= a.len() - 1
        && p.subrange(0, a.len() - 1) == a.subrange(0, a.len() - 1))
}

/// The highest quality any entry of `accept` gives `p`; 0 if none covers it.
pub open spec fn quality(accept: Seq<(Seq<char>, u16)>, p: Seq<char>) -> u16
    decreases accept.len(),
{
    if accept.len() == 0 {
        0
    } else {
        let q = quality(accept.drop_last(), p);
        let e = accept.last();
        if mime_covers(e.0, p) && e.1 > q {
            e.1
        } else {
            q
        }
    }
}

/// Checks whether `a` covers `p`.
pub fn mime_covers_exec(a: &str, p: &str) -> (r: bool)
    ensures
        r == mime_covers(a@, p@),
{
    proof {
        reveal_strlit("*/*");
    }
    if str_eq(a, "*/*") || str_eq(a, p) {
        return true;
    }
    let n = a.unicode_len();
    if n >= 2 && a.get_char(n - 1) == '*' && a.get_char(n - 2) == '/' && p.unicode_len() >= n - 1 {
        str_eq(a.substring_char(0, n - 1), p.substring_char(0, n - 1))
    } else {
        false
    }
}

/// The highest quality `accept` gives `p`.
pub fn quality_of(accept: &[crate::http::mime::AcceptMime], p: &str) -> (r: u16)
    ensures
        r == quality(crate::http::mime::accept_view(accept@), p@),
{
    let ghost av = crate::http::mime::accept_view(accept@);
    let mut q: u16 = 0;
    let mut i: usize = 0;
    while i < accept.len()
        invariant
            i <= accept@.len(),
            av == crate::http::mime::accept_view(accept@),
            q == quality(av.subrange(0, i as int), p@),
        decreases accept@.len() - i,
    {
        assert(av.subrange(0, i + 1).drop_last() =~= av.subrange(0, i as int));
        if mime_covers_exec(accept[i].mime.as_str(), p) && accept[i].q > q {
            q = accept[i].q;
        }
        i = i + 1;
    }
    assert(av.subrange(0, i as int) =~= av);
    q
}

/// What selection reads of a route.
pub struct RouteView {
    /// The path pattern.
    pub pattern: Seq<char>,
    /// The method's name, or none for any method.
    pub method: Option<Seq<char>>,
    /// The content types taken; empty for any.
    pub consumes: Seq<Seq<char>>,
    /// The media types produced; empty for any.
    pub produces: Seq<Seq<char>>,
}

/// What selection reads of a request.
pub struct RequestKey {
    /// The method's name.
    pub method: Seq<char>,
    /// The decoded path.
    pub path: Seq<char>,
    /// The first `Content-Type` value, if any.
    pub content_type: Option<Seq<char>>,
    /// The acceptable media types.
    pub accept: Seq<(Seq<char>, u16)>,
}

/// A route as selection sees it.
pub open spec fn route_view<H>(r: RouteHandler<H>) -> RouteView {
    RouteView {
        pattern: r.route@,
        method: match r.method {
            None => None,
            Some(m) => Some(name_of(m)),
        },
        consumes: r.consumes@.map_values(|c: String| c@),
        produces: r.produces@.map_values(|c: String| c@),
    }
}

/// A route table as selection sees it.
pub open spec fn routes_view<H>(rs: Seq<RouteHandler<H>>) -> Seq<RouteView> {
    rs.map_values(|r: RouteHandler<H>| route_view(r))
}

/// Whether a route passes the checks up to `level`: its pattern matches the
/// path (0), its method fits (1), it takes the content type (2), and it can
/// produce something acceptable (3).
pub open spec fn passes(r: RouteView, k: RequestKey, level: int) -> bool {
    &&& route_match(r.pattern, k.path) is Some
    &&& level >= 1 ==> (r.method is None || r.method == Some(k.method))
    &&& level >= 2 ==> (r.consumes.len() == 0 || (k.content_type is Some && r.consumes.contains(
        k.content_type->Some_0,
    )))
    &&& level >= 3 ==> (r.produces.len() == 0 || exists|i: int|
        0 <= i < r.produces.len() && quality(k.accept, #[trigger] r.produces[i]) > 0)
}

/// The first route at or after `from` that passes the checks up to `level`.
pub open spec fn first_passing(rs: Seq<RouteView>, k: RequestKey, level: int, from: int) -> Option<int>
    decreases rs.len() - from,
{
    if from < 0 || from >= rs.len() {
        None
    } else if passes(rs[from], k, level) {
        Some(from)
    } else {
        first_passing(rs, k, level, from + 1)
    }
}

/// The position among the first `n` produced types of the one with the
/// highest quality, the earliest on a tie.
pub open spec fn best_produce(ps: Seq<Seq<char>>, accept: Seq<(Seq<char>, u16)>, n: int) -> int
    decreases n,
{
    if n <= 1 {
        0
    } else {
        let b = best_produce(ps, accept, n - 1);
        if quality(accept, ps[n - 1]) > quality(accept, ps[b]) {
            n - 1
        } else {
            b
        }
    }
}

/// The outcome of selecting a route.
pub enum SelectionView {
    /// The route at `index` serves the request, with its captures and the
    /// content type to answer with.
    Found { index: int, params: Seq<(Seq<char>, Seq<char>)>, content_type: Option<Seq<char>> },
    /// No pattern matches the path.
    NotFound,
    /// Patterns match, but none for this method.
    MethodNotAllowed,
    /// None of the remaining routes takes the request's content type.
    UnsupportedMediaType,
    /// None of the remaining routes produces anything acceptable.
    NotAcceptable,
}

/// Selects the route for a request: the first route, in order, that passes
/// every check; else the error of the first check that no route passes.
pub open spec fn select(rs: Seq<RouteView>, k: RequestKey) -> SelectionView {
    match first_passing(rs, k, 3, 0) {
        Some(i) => SelectionView::Found {
            index: i,
            params: route_match(rs[i].pattern, k.path)->Some_0,
            content_type: if rs[i].produces.len() == 0 {
                None
            } else {
                Some(rs[i].produces[best_produce(rs[i].produces, k.accept, rs[i].produces.len() as int)])
            },
        },
        None => if first_passing(rs, k, 0, 0) is None {
            SelectionView::NotFound
        } else if first_passing(rs, k, 1, 0) is None {
            SelectionView::MethodNotAllowed
        } else if first_passing(rs, k, 2, 0) is None {
            SelectionView::UnsupportedMediaType
        } else {
            SelectionView::NotAcceptable
        },
    }
}

} // verus!

verus! {

/// The key of a request given as separate values.
pub open spec fn key_of(method: Seq<char>, path: Seq<char>, ct: Option<&str>, accept: Seq<(Seq<char>, u16)>) -> RequestKey {
    RequestKey {
        method,
        path,
        content_type: match ct {
            None => None,
            Some(c) => Some(c@),
        },
        accept,
    }
}

/// Checks whether a route passes the checks up to `level`.
fn route_passes<H>(
    r: &RouteHandler<H>,
    method: &Method,
    path: &str,
    ct: Option<&str>,
    accept: &[crate::http::mime::AcceptMime],
    level: u8,
) -> (b: bool)
    ensures
        b == passes(
            route_view(*r),
            key_of(name_of(*method), path@, ct, crate::http::mime::accept_view(accept@)),
            level as int,
        ),
{
    let ghost k = key_of(name_of(*method), path@, ct, crate::http::mime::accept_view(accept@));
    let ghost rv = route_view(*r);
    if match_route(r.route.as_str(), path).is_none() {
        return false;
    }
    if level >= 1 {
        match &r.method {
            None => {},
            Some(m) => {
                if !str_eq(m.as_str(), method.as_str()) {
                    return false;
                }
            },
        }
    }
    if level >= 2 && r.consumes.len() > 0 {
        let c = match ct {
            None => {
                return false;
            },
            Some(c) => c,
        };
        let mut found = false;
        let mut i: usize = 0;
        while i < r.consumes.len()
            invariant
                i <= r.consumes@.len(),
                rv == route_view(*r),
                found == exists|j: int| 0 <= j < i && #[trigger] rv.consumes[j] == c@,
            decreases r.consumes@.len() - i,
        {
            assert(rv.consumes[i as int] == r.consumes@[i as int]@);
            if str_eq(r.consumes[i].as_str(), c) {
                found = true;
            }
            assert(found == exists|j: int| 0 <= j < i + 1 && #[trigger] rv.consumes[j] == c@) by {
                if rv.consumes[i as int] == c@ {
                    assert(0 <= i < i + 1 && rv.consumes[i as int] == c@);
                }
            }
            i = i + 1;
        }
        if !found {
            return false;
        }
        proof {
            let j = choose|j: int| 0 <= j < i && #[trigger] rv.consumes[j] == c@;
            assert(rv.consumes.contains(c@));
        }
    }
    if level >= 3 && r.produces.len() > 0 {
        let mut found = false;
        let mut i: usize = 0;
        while i < r.produces.len()
            invariant
                i <= r.produces@.len(),
                rv == route_view(*r),
                k == key_of(name_of(*method), path@, ct, crate::http::mime::accept_view(accept@)),
                found == exists|j: int| 0 <= j < i && quality(k.accept, #[trigger] rv.produces[j]) > 0,
            decreases r.produces@.len() - i,
        {
            assert(rv.produces[i as int] == r.produces@[i as int]@);
            if quality_of(accept, r.produces[i].as_str()) > 0 {
                found = true;
            }
            assert(found == exists|j: int| 0 <= j < i + 1 && quality(k.accept, #[trigger] rv.produces[j]) > 0) by {
                if quality(k.accept, rv.produces[i as int]) > 0 {
                    assert(0 <= i < i + 1 && quality(k.accept, rv.produces[i as int]) > 0);
                }
            }
            i = i + 1;
        }
        if !found {
            return false;
        }
    }
    true
}

/// The first route that passes the checks up to `level`.
fn first_passing_route<H>(
    routes: &[RouteHandler<H>],
    method: &Method,
    path: &str,
    ct: Option<&str>,
    accept: &[crate::http::mime::AcceptMime],
    level: u8,
) -> (r: Option<usize>)
    ensures
        match first_passing(
            routes_view(routes@),
            key_of(name_of(*method), path@, ct, crate::http::mime::accept_view(accept@)),
            level as int,
            0,
        ) {
            None => r is None,
            Some(i) => r is Some && r->Some_0 as int == i,
        },
{
    let ghost rs = routes_view(routes@);
    let ghost k = key_of(name_of(*method), path@, ct, crate::http::mime::accept_view(accept@));
    let mut i: usize = 0;
    while i < routes.len()
        invariant
            i <= routes@.len() == rs.len(),
            rs == routes_view(routes@),
            k == key_of(name_of(*method), path@, ct, crate::http::mime::accept_view(accept@)),
            first_passing(rs, k, level as int, 0) == first_passing(rs, k, level as int, i as int),
        decreases routes@.len() - i,
    {
        if route_passes(&routes[i], method, path, ct, accept, level) {
            return Some(i);
        }
        i = i + 1;
    }
    None
}

/// The position of the produced type with the highest quality, the earliest on a tie.
fn best_produce_exec(ps: &Vec<String>, accept: &[crate::http::mime::AcceptMime]) -> (r: usize)
    requires
        ps@.len() > 0,
    ensures
        r as int == best_produce(ps@.map_values(|c: String| c@), crate::http::mime::accept_view(accept@), ps@.len() as int),
        r < ps@.len(),
{
    let ghost pv = ps@.map_values(|c: String| c@);
    let ghost av = crate::http::mime::accept_view(accept@);
    let mut b: usize = 0;
    let mut bq = quality_of(accept, ps[0].as_str());
    let mut n: usize = 1;
    while n < ps.len()
        invariant
            1 <= n <= ps@.len(),
            pv == ps@.map_values(|c: String| c@),
            av == crate::http::mime::accept_view(accept@),
            b < n,
            b as int == best_produce(pv, av, n as int),
            bq == quality(av, pv[b as int]),
        decreases ps@.len() - n,
    {
        let q = quality_of(accept, ps[n].as_str());
        if q > bq {
            b = n;
            bq = q;
        }
        n = n + 1;
    }
    b
}

/// The outcome of selecting a route.
pub enum RouteSelection {
    /// The route at `index` serves the request, with its captures and the
    /// content type to answer with.
    Found { index: usize, params: Vec<(String, String)>, content_type: Option<String> },
    /// No pattern matches the path: 404.
    NotFound,
    /// Patterns match, but none for this method: 405.
    MethodNotAllowed,
    /// No matching route takes the request's content type: 415.
    UnsupportedMediaType,
    /// No matching route produces anything acceptable: 406.
    NotAcceptable,
}

/// A selection as mathematical values.
pub open spec fn selection_view(s: RouteSelection) -> SelectionView {
    match s {
        RouteSelection::Found { index, params, content_type } => SelectionView::Found {
            index: index as int,
            params: captures_view(params@),
            content_type: match content_type {
                None => None,
                Some(c) => Some(c@),
            },
        },
        RouteSelection::NotFound => SelectionView::NotFound,
        RouteSelection::MethodNotAllowed => SelectionView::MethodNotAllowed,
        RouteSelection::UnsupportedMediaType => SelectionView::UnsupportedMediaType,
        RouteSelection::NotAcceptable => SelectionView::NotAcceptable,
    }
}

impl RouteSelection {
    /// The status code of a selection that found no route, or 200.
    pub fn status(&self) -> (r: u16)
        ensures
            r == match *self {
                RouteSelection::Found { .. } => 200u16,
                RouteSelection::NotFound => 404u16,
                RouteSelection::MethodNotAllowed => 405u16,
                RouteSelection::UnsupportedMediaType => 415u16,
                RouteSelection::NotAcceptable => 406u16,
            },
    {
        match self {
            RouteSelection::Found { .. } => 200,
            RouteSelection::NotFound => 404,
            RouteSelection::MethodNotAllowed => 405,
            RouteSelection::UnsupportedMediaType => 415,
            RouteSelection::NotAcceptable => 406,
        }
    }
}

/// Selects the route for a request given by its method, path, content type
/// and acceptable media types.
pub fn select_route<H>(
    routes: &[RouteHandler<H>],
    method: &Method,
    path: &str,
    ct: Option<&str>,
    accept: &[crate::http::mime::AcceptMime],
) -> (r: RouteSelection)
    ensures
        selection_view(r) == select(
            routes_view(routes@),
            key_of(name_of(*method), path@, ct, crate::http::mime::accept_view(accept@)),
        ),
{
    let ghost rs = routes_view(routes@);
    let ghost k = key_of(name_of(*method), path@, ct, crate::http::mime::accept_view(accept@));
    match first_passing_route(routes, method, path, ct, accept, 3) {
        Some(i) => {
            proof {
                lemma_first_passing(rs, k, 3, 0);
            }
            let r = &routes[i];
            assert(rs[i as int] == route_view(*r));
            let params = match match_route(r.route.as_str(), path) {
                Some(p) => p,
                None => {
                    return RouteSelection::NotFound;
                },
            };
            let content_type = if r.produces.len() == 0 {
                None
            } else {
                let b = best_produce_exec(&r.produces, accept);
                Some(r.produces[b].clone())
            };
            RouteSelection::Found { index: i, params, content_type }
        },
        None => {
            if first_passing_route(routes, method, path, ct, accept, 0).is_none() {
                RouteSelection::NotFound
            } else if first_passing_route(routes, method, path, ct, accept, 1).is_none() {
                RouteSelection::MethodNotAllowed
            } else if first_passing_route(routes, method, path, ct, accept, 2).is_none() {
                RouteSelection::UnsupportedMediaType
            } else {
                RouteSelection::NotAcceptable
            }
        },
    }
}

/// What `first_passing` returns: the first passing route, if any.
pub proof fn lemma_first_passing(rs: Seq<RouteView>, k: RequestKey, level: int, from: int)
    requires
        0 <= from,
    ensures
        first_passing(rs, k, level, from) is Some ==> {
            let i = first_passing(rs, k, level, from)->Some_0;
            from <= i < rs.len() && passes(rs[i], k, level)
        },
    decreases rs.len() - from,
{
    if from < rs.len() && !passes(rs[from], k, level) {
        lemma_first_passing(rs, k, level, from + 1);
    }
}

} // verus!

verus! {

/// Whether a host pattern covers a host: `prefix*` covers every host that
/// starts with `prefix` (so `*` covers all), any other pattern only itself.
pub open spec fn host_matches(pat: Seq<char>, host: Seq<char>) -> bool {
    if pat.len() > 0 && pat[pat.len() - 1] == '*' {
        host.len() >= pat.len() - 1 && host.subrange(0, pat.len() - 1) == pat.subrange(0, pat.len() - 1)
    } else {
        host == pat
    }
}

/// The length of a host pattern's literal part.
pub open spec fn literal_len(pat: Seq<char>) -> int {
    if pat.len() > 0 && pat[pat.len() - 1] == '*' {
        pat.len() - 1
    } else {
        pat.len() as int
    }
}

/// Among the first `n` host patterns, the one that covers `host` with the
/// longest literal part, the earliest on a tie.
pub open spec fn best_host(pats: Seq<Seq<char>>, host: Seq<char>, n: int) -> Option<int>
    decreases n,
{
    if n <= 0 {
        None
    } else {
        let b = best_host(pats, host, n - 1);
        if host_matches(pats[n - 1], host) && (b is None || literal_len(pats[n - 1]) > literal_len(
            pats[b->Some_0],
        )) {
            Some(n - 1)
        } else {
            b
        }
    }
}

/// The host patterns of the sub-apps, in order.
pub open spec fn host_patterns<H, W>(apps: Seq<SubApp<H, W>>) -> Seq<Seq<char>> {
    apps.map_values(|a: SubApp<H, W>| a.host@)
}

/// Checks whether a host pattern covers a host.
fn host_matches_exec(pat: &str, host: &str) -> (r: bool)
    ensures
        r == host_matches(pat@, host@),
{
    let n = pat.unicode_len();
    if n > 0 && pat.get_char(n - 1) == '*' {
        host.unicode_len() >= n - 1 && str_eq(host.substring_char(0, n - 1), pat.substring_char(0, n - 1))
    } else {
        str_eq(host, pat)
    }
}

/// The literal length of a host pattern.
fn literal_len_exec(pat: &str) -> (r: usize)
    ensures
        r as int == literal_len(pat@),
{
    let n = pat.unicode_len();
    if n > 0 && pat.get_char(n - 1) == '*' {
        n - 1
    } else {
        n
    }
}

/// Selects the sub-app for a host.
pub fn select_app<H, W>(apps: &[SubApp<H, W>], host: &str) -> (r: Option<usize>)
    ensures
        match best_host(host_patterns(apps@), host@, apps@.len() as int) {
            None => r is None,
            Some(i) => r is Some && r->Some_0 as int == i,
        },
        r is Some ==> r->Some_0 < apps@.len(),
{
    let ghost pats = host_patterns(apps@);
    let mut best: Option<usize> = None;
    let mut best_len: usize = 0;
    let mut n: usize = 0;
    while n < apps.len()
        invariant
            n <= apps@.len(),
            pats == host_patterns(apps@),
            match best_host(pats, host@, n as int) {
                None => best is None,
                Some(i) => best is Some && best->Some_0 as int == i && best_len as int == literal_len(pats[i])
                    && i < n,
            },
        decreases apps@.len() - n,
    {
        let pat = apps[n].host.as_str();
        assert(pat@ == pats[n as int]);
        if host_matches_exec(pat, host) {
            let l = literal_len_exec(pat);
            if best.is_none() || l > best_len {
                best = Some(n);
                best_len = l;
            }
        }
        n = n + 1;
    }
    best
}

/// The host a request names: its first `Host` header, or nothing.
pub open spec fn host_of(h: crate::http::request::RequestHeadView) -> Seq<char> {
    match crate::http::headers::first_value(h.headers, "Host"@) {
        Some(v) => v,
        None => Seq::empty(),
    }
}

/// What route selection reads of a request head.
pub open spec fn request_key(h: crate::http::request::RequestHeadView) -> RequestKey {
    RequestKey {
        method: h.method,
        path: h.path,
        content_type: crate::http::headers::first_value(h.headers, "Content-Type"@),
        accept: h.accept,
    }
}

/// Where a request goes: the sub-app for its host, and the selection among
/// that sub-app's routes.
pub open spec fn dispatch<H, W>(apps: Seq<SubApp<H, W>>, h: crate::http::request::RequestHeadView) -> Option<
    (int, SelectionView),
> {
    match best_host(host_patterns(apps), host_of(h), apps.len() as int) {
        None => None,
        Some(a) => Some((a, select(routes_view(apps[a].routes@), request_key(h)))),
    }
}

/// Routes a request: picks the sub-app for its host, then the route.
pub fn route_request<H, W>(apps: &[SubApp<H, W>], head: &crate::http::request::RequestHead) -> (r: Option<
    (usize, RouteSelection),
>)
    ensures
        match dispatch(apps@, head@) {
            None => r is None,
            Some(d) => r is Some && r->Some_0.0 as int == d.0 && selection_view(r->Some_0.1) == d.1,
        },
        r is Some ==> r->Some_0.0 < apps@.len(),
{
    let host = match head.get_header("Host") {
        Some(h) => h,
        None => "",
    };
    proof {
        reveal_strlit("");
        assert(""@ =~= Seq::<char>::empty());
    }
    assert(host@ == host_of(head@));
    let a = match select_app(apps, host) {
        None => {
            return None;
        },
        Some(a) => a,
    };
    let ct = head.get_header("Content-Type");
    let sel = select_route(apps[a].routes.as_slice(), head.method(), head.path(), ct, head.get_accept());
    proof {
        assert(key_of(head@.method, head@.path, ct, head@.accept) == request_key(head@));
    }
    Some((a, sel))
}

/// Routing is deterministic: two requests that agree on host, method, path,
/// `Content-Type` and acceptable media types go to the same sub-app and the
/// same route, with the same captures and content type.
pub proof fn lemma_routing_deterministic<H, W>(
    apps: Seq<SubApp<H, W>>,
    h1: crate::http::request::RequestHeadView,
    h2: crate::http::request::RequestHeadView,
)
    requires
        host_of(h1) == host_of(h2),
        request_key(h1) == request_key(h2),
    ensures
        dispatch(apps, h1) == dispatch(apps, h2),
{
}

} // verus!

verus! {

/// Whether `s` holds `..`.
pub open spec fn has_dot_dot(s: Seq<char>) -> bool {
    exists|i: int| 0 <= i < s.len() - 1 && #[trigger] s[i] == '.' && s[i + 1] == '.'
}

/// Whether `s` holds `:`.
pub open spec fn has_colon(s: Seq<char>) -> bool {
    exists|i: int| 0 <= i < s.len() && #[trigger] s[i] == ':'
}

/// `s` without its leading `/`s.
pub open spec fn strip_leading_slashes(s: Seq<char>) -> Seq<char>
    decreases s.len(),
{
    if s.len() > 0 && s[0] == '/' {
        strip_leading_slashes(s.subrange(1, s.len() as int))
    } else {
        s
    }
}

/// `s` without its trailing `/`s.
pub open spec fn strip_trailing_slashes(s: Seq<char>) -> Seq<char>
    decreases s.len(),
{
    if s.len() > 0 && s[s.len() - 1] == '/' {
        strip_trailing_slashes(s.subrange(0, s.len() - 1))
    } else {
        s
    }
}

/// Where a static-file lookup for a request path looks.
pub enum LocatedPath {
    /// A directory: look for index files under this prefix (it ends in `/`).
    Directory(String),
    /// A file path to look up.
    File(String),
}

/// The file path for a request path under `dir`, if it is safe: the request
/// path is percent-decoded, must be UTF-8 and must hold neither `..` nor
/// `:`; its leading `/`s and the directory's trailing `/`s go, and the two
/// are joined with `/`. A request path that is empty or ends in `/` names a
/// directory.
pub open spec fn static_lookup(dir: Seq<char>, req: Seq<char>) -> Option<(bool, Seq<char>)> {
    let dec = crate::http::parse::pct_decode(vstd::utf8::encode_utf8(req));
    let p = vstd::utf8::decode_utf8(dec);
    let r = strip_leading_slashes(p);
    if !vstd::utf8::valid_utf8(dec) || has_dot_dot(p) || has_colon(p) {
        None
    } else {
        Some((r.len() == 0 || r[r.len() - 1] == '/', strip_trailing_slashes(dir) + seq!['/'] + r))
    }
}

/// Finds the path a static-file lookup should try for a request path.
pub fn try_find_path(directory: &str, request_path: &str) -> (r: Option<LocatedPath>)
    ensures
        match static_lookup(directory@, request_path@) {
            None => r is None,
            Some((is_dir, p)) => r is Some && match r->Some_0 {
                LocatedPath::Directory(s) => is_dir && s@ == p,
                LocatedPath::File(s) => !is_dir && s@ == p,
            },
        },
{
    let dec = crate::http::parse::percent_decode(request_path.as_bytes());
    let p = match crate::http::text::utf8_string(dec.as_slice()) {
        None => {
            return None;
        },
        Some(p) => p,
    };
    let n = p.unicode_len();
    let mut i: usize = 0;
    while i < n
        invariant
            n == p@.len(),
            i <= n,
            dec@ == crate::http::parse::pct_decode(vstd::utf8::encode_utf8(request_path@)),
            vstd::utf8::valid_utf8(dec@),
            p@ == vstd::utf8::decode_utf8(dec@),
            forall|k: int| 0 <= k < i ==> #[trigger] p@[k] != ':',
            forall|k: int| 0 <= k < i && k + 1 < n ==> !(#[trigger] p@[k] == '.' && p@[k + 1] == '.'),
        decreases n - i,
    {
        let c = p.get_char(i);
        if c == ':' {
            assert(has_colon(p@)) by {
                assert(0 <= i < p@.len() && p@[i as int] == ':');
            }
            return None;
        }
        if c == '.' && i + 1 < n && p.get_char(i + 1) == '.' {
            assert(has_dot_dot(p@)) by {
                assert(0 <= i < p@.len() - 1 && p@[i as int] == '.' && p@[i + 1] == '.');
            }
            return None;
        }
        i = i + 1;
    }
    let ps = p.as_str();
    let mut lo: usize = 0;
    assert(ps@.subrange(0, n as int) =~= ps@);
    while lo < n && ps.get_char(lo) == '/'
        invariant
            lo <= n == ps@.len(),
            strip_leading_slashes(ps@) == strip_leading_slashes(ps@.subrange(lo as int, n as int)),
        decreases n - lo,
    {
        let ghost t = ps@.subrange(lo as int, n as int);
        assert(t.subrange(1, t.len() as int) =~= ps@.subrange(lo + 1, n as int));
        lo = lo + 1;
    }
    let rest = ps.substring_char(lo, n);
    let dn = directory.unicode_len();
    let mut hi = dn;
    assert(directory@.subrange(0, dn as int) =~= directory@);
    while hi > 0 && directory.get_char(hi - 1) == '/'
        invariant
            hi <= dn == directory@.len(),
            strip_trailing_slashes(directory@) == strip_trailing_slashes(directory@.subrange(0, hi as int)),
        decreases hi,
    {
        let ghost t = directory@.subrange(0, hi as int);
        assert(t.subrange(0, t.len() - 1) =~= directory@.subrange(0, hi - 1));
        hi = hi - 1;
    }
    let mut out = directory.substring_char(0, hi).to_string();
    out.append("/");
    out.append(rest);
    let rn = rest.unicode_len();
    proof {
        reveal_strlit("/");
        assert("/"@ =~= seq!['/']);
    }
    if rn == 0 || rest.get_char(rn - 1) == '/' {
        Some(LocatedPath::Directory(out))
    } else {
        Some(LocatedPath::File(out))
    }
}

} // verus!

verus! {

/// The first pattern at or after `from` that matches `path`.
pub open spec fn first_matching(patterns: Seq<Seq<char>>, path: Seq<char>, from: int) -> Option<int>
    decreases patterns.len() - from,
{
    if from < 0 || from >= patterns.len() {
        None
    } else if route_match(patterns[from], path) is Some {
        Some(from)
    } else {
        first_matching(patterns, path, from + 1)
    }
}

/// The patterns of WebSocket routes, in order.
pub open spec fn websocket_patterns<W>(rs: Seq<WebsocketRouteHandler<W>>) -> Seq<Seq<char>> {
    rs.map_values(|r: WebsocketRouteHandler<W>| r.route@)
}

/// Selects the WebSocket route for a request: only a WebSocket upgrade
/// request goes to one, the first whose pattern matches its path.
pub fn select_websocket_route<W>(
    routes: &[WebsocketRouteHandler<W>],
    head: &crate::http::request::RequestHead,
) -> (r: Option<usize>)
    ensures
        !crate::websocket::handshake::is_upgrade(head@) ==> r is None,
        crate::websocket::handshake::is_upgrade(head@) ==> match first_matching(
            websocket_patterns(routes@),
            head@.path,
            0,
        ) {
            None => r is None,
            Some(i) => r is Some && r->Some_0 as int == i,
        },
{
    if crate::websocket::handshake::websocket_key(head).is_none() {
        return None;
    }
    let ghost pats = websocket_patterns(routes@);
    let mut i: usize = 0;
    while i < routes.len()
        invariant
            i <= routes@.len() == pats.len(),
            pats == websocket_patterns(routes@),
            crate::websocket::handshake::is_upgrade(head@),
            first_matching(pats, head@.path, 0) == first_matching(pats, head@.path, i as int),
        decreases routes@.len() - i,
    {
        assert(pats[i as int] == routes@[i as int].route@);
        if match_route(routes[i].route.as_str(), head.path()).is_some() {
            return Some(i);
        }
        i = i + 1;
    }
    None
}

} // verus!

verus! {

/// Whether CORS settings allow anything beyond the same origin.
pub open spec fn cors_enabled(c: Cors) -> bool {
    c.allow_any_origin || c.allow_any_method || c.allow_any_header
}

/// The headers a preflight answer carries for CORS settings, in order.
pub open spec fn preflight_headers(c: Cors) -> Seq<(Seq<char>, Seq<char>)> {
    (if c.allow_any_origin { seq![("Access-Control-Allow-Origin"@, "*"@)] } else { Seq::empty() })
        + (if c.allow_any_method { seq![("Access-Control-Allow-Methods"@, "*"@)] } else { Seq::empty() })
        + (if c.allow_any_header { seq![("Access-Control-Allow-Headers"@, "*"@)] } else { Seq::empty() })
}

impl Cors {
    /// The `204 No Content` answer to a preflight request under these settings.
    pub fn preflight(&self) -> (r: crate::http::response::Response)
        ensures
            r@ == (crate::http::response::ResponseView {
                status: 204,
                headers: preflight_headers(*self),
                body: Seq::empty(),
            }),
    {
        let mut r = crate::http::response::Response::empty(204);
        if self.allow_any_origin {
            r = r.with_header("Access-Control-Allow-Origin", "*");
        }
        if self.allow_any_method {
            r = r.with_header("Access-Control-Allow-Methods", "*");
        }
        if self.allow_any_header {
            r = r.with_header("Access-Control-Allow-Headers", "*");
        }
        assert(r@.headers =~= preflight_headers(*self));
        r
    }
}

/// Whether a request is a CORS preflight that the router answers itself: an
/// `OPTIONS` request whose path the first matching route, of any method,
/// has CORS enabled for.
pub open spec fn preflight_route(rs: Seq<RouteView>, cors: Seq<Cors>, h: crate::http::request::RequestHeadView) -> Option<int> {
    if h.method != "OPTIONS"@ {
        None
    } else {
        match first_passing(rs, request_key(h), 0, 0) {
            None => None,
            Some(i) => if cors_enabled(cors[i]) {
                Some(i)
            } else {
                None
            },
        }
    }
}

/// The CORS settings of the routes, in order.
pub open spec fn cors_of<H>(rs: Seq<RouteHandler<H>>) -> Seq<Cors> {
    rs.map_values(|r: RouteHandler<H>| r.cors)
}

/// Answers a CORS preflight request from the matching route's settings,
/// where the router answers it (see `preflight_route`).
pub fn cors_preflight<H>(routes: &[RouteHandler<H>], head: &crate::http::request::RequestHead) -> (r: Option<
    crate::http::response::Response,
>)
    ensures
        match preflight_route(routes_view(routes@), cors_of(routes@), head@) {
            None => r is None,
            Some(i) => r is Some && r->Some_0@ == (crate::http::response::ResponseView {
                status: 204,
                headers: preflight_headers(routes@[i].cors),
                body: Seq::empty(),
            }),
        },
{
    if !str_eq(head.method().as_str(), "OPTIONS") {
        return None;
    }
    let ct = head.get_header("Content-Type");
    match first_passing_route(routes, head.method(), head.path(), ct, head.get_accept(), 0) {
        None => None,
        Some(i) => {
            proof {
                lemma_first_passing(routes_view(routes@), request_key(head@), 0, 0);
                assert(key_of(head@.method, head@.path, ct, head@.accept) == request_key(head@));
            }
            let c = routes[i].cors;
            if c.allow_any_origin || c.allow_any_method || c.allow_any_header {
                Some(c.preflight())
            } else {
                None
            }
        },
    }
}

} // verus!

verus! {

/// Why a route cannot be added.
#[derive(Debug, Clone, Copy, PartialEq, Eq, Structural)]
pub enum RouteError {
    /// A route with the same pattern, method, consumes and produces exists.
    Duplicate,
}

/// The view of a route given by its parts.
pub open spec fn parts_view(route: Seq<char>, method: Option<Method>, consumes: Seq<String>, produces: Seq<String>) -> RouteView {
    RouteView {
        pattern: route,
        method: match method {
            None => None,
            Some(m) => Some(name_of(m)),
        },
        consumes: consumes.map_values(|c: String| c@),
        produces: produces.map_values(|c: String| c@),
    }
}

/// Whether two lists of strings hold the same strings in the same order.
fn same_strings(a: &Vec<String>, b: &Vec<String>) -> (r: bool)
    ensures
        r == (a@.map_values(|c: String| c@) == b@.map_values(|c: String| c@)),
{
    let ghost av = a@.map_values(|c: String| c@);
    let ghost bv = b@.map_values(|c: String| c@);
    if a.len() != b.len() {
        assert(av.len() != bv.len());
        return false;
    }
    let mut i: usize = 0;
    while i < a.len()
        invariant
            i <= a@.len() == b@.len(),
            av == a@.map_values(|c: String| c@),
            bv == b@.map_values(|c: String| c@),
            forall|k: int| 0 <= k < i ==> #[trigger] av[k] == bv[k],
        decreases a@.len() - i,
    {
        if !str_eq(a[i].as_str(), b[i].as_str()) {
            assert(av[i as int] != bv[i as int]);
            return false;
        }
        i = i + 1;
    }
    assert(av =~= bv);
    true
}

/// Whether a route with these parts is among `routes`.
fn has_route<H>(routes: &[RouteHandler<H>], route: &str, method: &Option<Method>, consumes: &Vec<String>, produces: &Vec<String>) -> (r: bool)
    ensures
        r == exists|i: int| 0 <= i < routes@.len() && #[trigger] route_view(routes@[i]) == parts_view(
            route@,
            *method,
            consumes@,
            produces@,
        ),
{
    let ghost v = parts_view(route@, *method, consumes@, produces@);
    let mut i: usize = 0;
    while i < routes.len()
        invariant
            i <= routes@.len(),
            v == parts_view(route@, *method, consumes@, produces@),
            forall|k: int| 0 <= k < i ==> #[trigger] route_view(routes@[k]) != v,
        decreases routes@.len() - i,
    {
        let r = &routes[i];
        let same_method = match (&r.method, method) {
            (None, None) => true,
            (Some(a), Some(b)) => str_eq(a.as_str(), b.as_str()),
            _ => false,
        };
        if str_eq(r.route.as_str(), route) && same_method && same_strings(&r.consumes, consumes)
            && same_strings(&r.produces, produces) {
            assert(route_view(routes@[i as int]) == v);
            return true;
        }
        assert(route_view(routes@[i as int]) != v);
        i = i + 1;
    }
    false
}

} // verus!
