//! The connection driver: reads one request at a time from the bytes of a
//! connection, routes it, runs its handler and frames the response.
use vstd::prelude::*;
use crate::http::body::{body_framing, body_of, framing_of, keep_alive_requested, read_body, wants_keep_alive};
use crate::http::parse::copy_range;
use crate::http::request::{model_view, parse_head, HttpVersion, RequestHead, RequestHeadParsingError, RequestHeadView};
use crate::http::response::{response_bytes, Response, ResponseView};
use crate::route::{
    cors_of, cors_preflight, dispatch, preflight_headers, preflight_route, route_request, routes_view,
    RouteSelection, SelectionView, SubApp,
};

verus! {

/// Everything a handler sees of one request.
pub struct RequestContext {
    head: RequestHead,
    body: Vec<u8>,
    params: Vec<(String, String)>,
    content_type: Option<String>,
    peer: String,
}

impl RequestContext {
    /// A context for a request head and body from a peer.
    pub fn new(head: RequestHead, body: Vec<u8>, peer: String) -> (r: RequestContext)
        ensures
            r.request_head_view() == head@,
            r.body_view() == body@,
            r.params_view() == Seq::<(Seq<char>, Seq<char>)>::empty(),
            r.content_type_view() is None,
            r.peer_view() == peer@,
    {
        let r = RequestContext { head, body, params: Vec::new(), content_type: None, peer };
        assert(r.params_view() =~= Seq::<(Seq<char>, Seq<char>)>::empty());
        r
    }

    /// The head, as a view.
    pub closed spec fn request_head_view(&self) -> RequestHeadView {
        self.head@
    }

    /// The body, as a view.
    pub closed spec fn body_view(&self) -> Seq<u8> {
        self.body@
    }

    /// The request head.
    pub fn request_head(&self) -> (r: &RequestHead)
        ensures
            r@ == self.request_head_view(),
    {
        &self.head
    }

    /// The request head, for filters that rewrite it.
    pub fn request_head_mut(&mut self) -> (r: &mut RequestHead)
        ensures
            r@ == old(self).request_head_view(),
            final(self).request_head_view() == final(r)@,
            final(self).body_view() == old(self).body_view(),
    {
        &mut self.head
    }

    /// The request body.
    pub fn request_body(&self) -> (r: &[u8])
        ensures
            r@ == self.body_view(),
    {
        self.body.as_slice()
    }

    /// The captures, as a view.
    pub closed spec fn params_view(&self) -> Seq<(Seq<char>, Seq<char>)> {
        crate::route::captures_view(self.params@)
    }

    /// The negotiated content type, as a view.
    pub closed spec fn content_type_view(&self) -> Option<Seq<char>> {
        match self.content_type {
            None => None,
            Some(c) => Some(c@),
        }
    }

    /// The peer's address, as a view.
    pub closed spec fn peer_view(&self) -> Seq<char> {
        self.peer@
    }

    /// The captures of the route's pattern, in order.
    pub fn params(&self) -> (r: &Vec<(String, String)>)
        ensures
            crate::route::captures_view(r@) == self.params_view(),
    {
        &self.params
    }

    /// The content type negotiated for the response, if the route declared any.
    pub fn content_type(&self) -> (r: Option<&String>)
        ensures
            match self.content_type_view() {
                None => r is None,
                Some(c) => r is Some && r->Some_0@ == c,
            },
    {
        self.content_type.as_ref()
    }

    /// The address of the peer.
    pub fn peer_address(&self) -> (r: &str)
        ensures
            r@ == self.peer_view(),
    {
        self.peer.as_str()
    }
}

/// A handler of requests. `None` stands for a failure and is answered with
/// `500 Internal Server Error`.
pub trait RequestHandler {
    /// Produces the response to a request.
    fn serve(&self, ctx: &RequestContext) -> Option<Response>;
}

/// A filter that runs before routing and may answer the request itself, and
/// after the handler and may rewrite the response.
pub trait Filter {
    /// Inspects or rewrites the request before routing; a response ends the request there.
    fn pre_routing(&self, ctx: &mut RequestContext) -> Option<Response>;

    /// Inspects or rewrites a response.
    fn post_response(&self, ctx: &RequestContext, response: Response) -> Response;
}

/// A server: its sub-apps, its filters, and the largest head it reads.
pub struct Server<H, W, F> {
    /// The sub-apps, tried by host.
    pub apps: Vec<SubApp<H, W>>,
    /// The filters, in order.
    pub filters: Vec<F>,
    /// The most bytes a request head may span.
    pub head_limit: usize,
}

/// The status a head that does not parse is answered with; none where the
/// client sent nothing or no line at all.
pub open spec fn error_status(e: RequestHeadParsingError) -> Option<u16> {
    match e {
        RequestHeadParsingError::EofBeforeAnyBytes => None,
        RequestHeadParsingError::StatusLineNoCRLF => None,
        RequestHeadParsingError::HeadTooLarge => Some(413u16),
        RequestHeadParsingError::UnsupportedVersion => Some(505u16),
        _ => Some(400u16),
    }
}

impl RequestHeadParsingError {
    /// The status this error is answered with, if any.
    pub fn status(&self) -> (r: Option<u16>)
        ensures
            r == error_status(*self),
    {
        match self {
            RequestHeadParsingError::EofBeforeAnyBytes => None,
            RequestHeadParsingError::StatusLineNoCRLF => None,
            RequestHeadParsingError::HeadTooLarge => Some(413),
            RequestHeadParsingError::UnsupportedVersion => Some(505),
            _ => Some(400),
        }
    }
}

/// Why a connection ended without a response to its last bytes.
#[derive(Debug, Clone, Copy, PartialEq, Eq, Structural)]
pub enum ConnectionError {
    /// The head did not parse and is not answered (see `error_status`).
    Head(RequestHeadParsingError),
    /// The connection ended before the body the head declared.
    BodyIncomplete,
}

/// One request answered on a connection.
pub struct Exchange {
    /// The response.
    pub response: Response,
    /// The version it is written in.
    pub version: HttpVersion,
    /// Whether the connection stays open after it.
    pub keep_alive: bool,
    /// Where the request starts in the connection's bytes.
    pub start: usize,
    /// Where the request ends in the connection's bytes.
    pub end: usize,
}

/// The bytes of an exchange on the wire.
#[verifier::opaque]
pub open spec fn exchange_bytes(e: Exchange) -> Seq<u8> {
    response_bytes(e.response@, e.version, e.keep_alive)
}

/// The bytes of a number of exchanges, one after the other.
pub open spec fn exchanges_bytes(es: Seq<Exchange>) -> Seq<u8>
    decreases es.len(),
{
    if es.len() == 0 {
        Seq::empty()
    } else {
        exchanges_bytes(es.drop_last()) + exchange_bytes(es.last())
    }
}

} // verus!

verus! {

/// The outcome of reading one request from a connection.
pub enum Step {
    /// The request was answered.
    Answered(Exchange),
    /// The connection ends without an answer.
    Closed(ConnectionError),
}

/// An empty response with a status.
pub open spec fn status_only(status: u16) -> ResponseView {
    ResponseView { status, headers: Seq::empty(), body: Seq::empty() }
}

/// The response that routing alone decides for a head, if it decides one:
/// a CORS preflight answer, or the status of a selection that found no route
/// (404, 405, 415, 406). None where a route's handler is to run.
pub open spec fn unrouted_response<H, W>(apps: Seq<SubApp<H, W>>, h: RequestHeadView) -> Option<ResponseView> {
    match dispatch(apps, h) {
        None => Some(status_only(404)),
        Some(d) => {
            let routes = apps[d.0].routes@;
            match preflight_route(routes_view(routes), cors_of(routes), h) {
                Some(i) => Some(
                    ResponseView { status: 204, headers: preflight_headers(routes[i].cors), body: Seq::empty() },
                ),
                None => match d.1 {
                    SelectionView::Found { .. } => None,
                    SelectionView::NotFound => Some(status_only(404)),
                    SelectionView::MethodNotAllowed => Some(status_only(405)),
                    SelectionView::UnsupportedMediaType => Some(status_only(415)),
                    SelectionView::NotAcceptable => Some(status_only(406)),
                },
            }
        },
    }
}

/// What the bytes of a connection decide about the request at `pos`,
/// whatever the handler does.
pub enum StepShape {
    /// The connection ends without an answer.
    Closed(ConnectionError),
    /// The request is answered in `version`, spans up to `end`, leaves the
    /// connection open or not, and gets `fixed` where that is decided already.
    Answered { version: HttpVersion, end: int, keep_alive: bool, fixed: Option<ResponseView> },
}

/// What a step at `pos` does: a head that does not parse closes the
/// connection or is answered with its error's status; a rejected body
/// framing is answered `400`; a body that the bytes do not hold closes the
/// connection; otherwise the request is answered, ending with its body, and
/// the connection stays open where the client asks for it unless the bytes
/// end with this request and `at_eof` says no more come. Without filters, a
/// request that routing alone answers gets that answer.
#[verifier::opaque]
pub open spec fn step_shape<H, W>(
    apps: Seq<SubApp<H, W>>,
    no_filters: bool,
    limit: int,
    input: Seq<u8>,
    pos: int,
    at_eof: bool,
) -> StepShape {
    match parse_head(input.subrange(pos, input.len() as int), limit) {
        Err(e) => match error_status(e) {
            None => StepShape::Closed(ConnectionError::Head(e)),
            Some(s) => StepShape::Answered {
                version: HttpVersion::Http11,
                end: input.len() as int,
                keep_alive: false,
                fixed: Some(status_only(s)),
            },
        },
        Ok(m) => {
            let h = model_view(m);
            match framing_of(h) {
                Err(_) => StepShape::Answered {
                    version: m.line.version,
                    end: input.len() as int,
                    keep_alive: false,
                    fixed: Some(status_only(400)),
                },
                Ok(f) => match body_of(input, pos + m.end, f) {
                    None => StepShape::Closed(ConnectionError::BodyIncomplete),
                    Some(b) => StepShape::Answered {
                        version: m.line.version,
                        end: b.1,
                        keep_alive: wants_keep_alive(h) && (!at_eof || b.1 < input.len()),
                        fixed: if no_filters {
                            unrouted_response(apps, h)
                        } else {
                            None
                        },
                    },
                },
            }
        },
    }
}

/// Whether an exchange is the answer a step shape describes.
pub open spec fn exchange_fits(e: Exchange, pos: int, s: StepShape) -> bool {
    match s {
        StepShape::Closed(_) => false,
        StepShape::Answered { version, end, keep_alive, fixed } => {
            &&& e.start == pos
            &&& e.version == version
            &&& e.end == end
            &&& e.keep_alive == keep_alive
            &&& fixed is Some ==> e.response@ == fixed->Some_0
        },
    }
}

/// Whether a step is what a step shape describes.
pub open spec fn step_fits(r: Step, pos: int, s: StepShape) -> bool {
    match s {
        StepShape::Closed(e) => r == Step::Closed(e),
        StepShape::Answered { .. } => r is Answered && exchange_fits(r->Answered_0, pos, s),
    }
}

/// What routing decided for a request.
pub enum Decision {
    /// A pre-routing filter answered; routing did not run.
    Filtered(Response),
    /// Routing answered without a handler.
    Respond(Response),
    /// The handler of route `index` of sub-app `app` is to answer.
    Dispatch { app: usize, index: usize },
}

/// Turns what a handler returned into the response: its own, or `500` for a failure.
pub fn finish(handled: Option<Response>) -> (r: Response)
    ensures
        match handled {
            Some(x) => r == x,
            None => r@ == status_only(500),
        },
{
    match handled {
        Some(x) => x,
        None => Response::empty(500),
    }
}

impl<H: RequestHandler, W, F: Filter> Server<H, W, F> {
    /// Runs the pre-routing filters in order, stopping at the first that
    /// answers, then routes the request as the filters left it. A found
    /// route's captures and content type are put in the context.
    pub fn route_decision(&self, ctx: &mut RequestContext) -> (r: Decision)
        ensures
            r is Filtered ==> self.filters@.len() > 0,
            self.filters@.len() == 0 ==> final(ctx).request_head_view() == old(ctx).request_head_view()
                && final(ctx).body_view() == old(ctx).body_view(),
            !(r is Filtered) ==> match unrouted_response(self.apps@, final(ctx).request_head_view()) {
                Some(v) => r is Respond && r->Respond_0@ == v,
                None => r is Dispatch && match dispatch(self.apps@, final(ctx).request_head_view()) {
                    Some(d) => match d.1 {
                        SelectionView::Found { index, params, content_type } => {
                            &&& r->Dispatch_app as int == d.0
                            &&& r->Dispatch_index as int == index
                            &&& r->Dispatch_app < self.apps@.len()
                            &&& r->Dispatch_index < self.apps@[d.0].routes@.len()
                            &&& final(ctx).params_view() == params
                            &&& final(ctx).content_type_view() == content_type
                        },
                        _ => false,
                    },
                    None => false,
                },
            },
    {
        let ghost start = *ctx;
        let mut i: usize = 0;
        while i < self.filters.len()
            invariant
                i <= self.filters@.len(),
                self.filters@.len() == 0 ==> *ctx == start,
            decreases self.filters@.len() - i,
        {
            match self.filters[i].pre_routing(ctx) {
                Some(resp) => {
                    return Decision::Filtered(resp);
                },
                None => {},
            }
            i = i + 1;
        }
        let ghost routed = ctx.request_head_view();
        let (a, sel) = match route_request(self.apps.as_slice(), &ctx.head) {
            None => {
                return Decision::Respond(Response::empty(404));
            },
            Some(found) => found,
        };
        proof {
            crate::route::lemma_first_passing(
                routes_view(self.apps@[a as int].routes@),
                crate::route::request_key(routed),
                3,
                0,
            );
        }
        match cors_preflight(self.apps[a].routes.as_slice(), &ctx.head) {
            Some(resp) => {
                return Decision::Respond(resp);
            },
            None => {},
        }
        match sel {
            RouteSelection::Found { index, params, content_type } => {
                ctx.params = params;
                ctx.content_type = content_type;
                Decision::Dispatch { app: a, index }
            },
            other => Decision::Respond(Response::empty(other.status())),
        }
    }

    /// Answers a request: routing, then the route's handler if one is to
    /// run (a failure becomes `500`), then the response filters in order.
    /// Without filters, what routing alone decides is the answer, and a
    /// found route's captures and content type are in the context.
    pub fn respond(&self, ctx: &mut RequestContext) -> (r: Response)
        ensures
            self.filters@.len() == 0 ==> {
                &&& final(ctx).request_head_view() == old(ctx).request_head_view()
                &&& final(ctx).body_view() == old(ctx).body_view()
                &&& match unrouted_response(self.apps@, old(ctx).request_head_view()) {
                    Some(v) => r@ == v,
                    None => match dispatch(self.apps@, old(ctx).request_head_view()) {
                        Some(d) => match d.1 {
                            SelectionView::Found { params, content_type, .. } => final(ctx).params_view()
                                == params && final(ctx).content_type_view() == content_type,
                            _ => true,
                        },
                        None => true,
                    },
                }
            },
    {
        let decision = self.route_decision(ctx);
        let mut response = match decision {
            Decision::Filtered(x) => x,
            Decision::Respond(x) => x,
            Decision::Dispatch { app, index } => finish(self.apps[app].routes[index].handler.serve(ctx)),
        };
        let ghost chosen = response;
        let mut j: usize = 0;
        while j < self.filters.len()
            invariant
                self.filters@.len() == 0 ==> response == chosen,
            decreases self.filters@.len() - j,
        {
            response = self.filters[j].post_response(ctx, response);
            j = j + 1;
        }
        response
    }

    /// Reads the request that starts at `pos` in the bytes of a connection and
    /// answers it, as `step_shape` says; the handler's answer fills in what
    /// the bytes leave open.
    pub fn handle_request(&self, input: &[u8], pos: usize, peer: &str, at_eof: bool) -> (r: Step)
        requires
            pos <= input@.len(),
        ensures
            step_fits(
                r,
                pos as int,
                step_shape(self.apps@, self.filters@.len() == 0, self.head_limit as int, input@, pos as int, at_eof),
            ),
            r is Answered ==> {
                let e = r->Answered_0;
                &&& e.start == pos
                &&& pos < e.end <= input@.len()
                &&& e.keep_alive && at_eof ==> e.end < input@.len()
            },
    {
        proof {
            reveal(step_shape);
        }
        let rest = copy_range(input, pos, input.len());
        let (head, end) = match RequestHead::new(rest.as_slice(), self.head_limit) {
            Err(e) => {
                return match e.status() {
                    None => Step::Closed(ConnectionError::Head(e)),
                    Some(s) => Step::Answered(
                        Exchange {
                            response: Response::empty(s),
                            version: HttpVersion::Http11,
                            keep_alive: false,
                            start: pos,
                            end: input.len(),
                        },
                    ),
                };
            },
            Ok(p) => p,
        };
        let ghost m = parse_head(rest@, self.head_limit as int)->Ok_0;
        proof {
            crate::http::request::lemma_head_span(rest@, self.head_limit as int);
            crate::http::request::lemma_model_view(head@, m);
        }
        let version = head.version();
        let head_end = pos + end;
        let framing = match body_framing(&head) {
            Err(_) => {
                return Step::Answered(
                    Exchange {
                        response: Response::empty(400),
                        version,
                        keep_alive: false,
                        start: pos,
                        end: input.len(),
                    },
                );
            },
            Ok(f) => f,
        };
        let (body, req_end) = match read_body(input, head_end, framing) {
            None => {
                return Step::Closed(ConnectionError::BodyIncomplete);
            },
            Some(d) => d,
        };
        let keep_alive = keep_alive_requested(&head) && (!at_eof || req_end < input.len());
        let mut ctx = RequestContext::new(head, body, peer.to_string());
        let response = self.respond(&mut ctx);
        Step::Answered(Exchange { response, version, keep_alive, start: pos, end: req_end })
    }
}

/// Writes an exchange's response.
pub fn exchange_to_bytes(e: &Exchange) -> (r: Vec<u8>)
    ensures
        r@ == exchange_bytes(*e),
{
    proof {
        reveal(exchange_bytes);
    }
    e.response.to_bytes(e.version, e.keep_alive)
}

/// Where the step after the given exchanges starts.
pub open spec fn next_start(es: Seq<Exchange>) -> int {
    if es.len() == 0 {
        0
    } else {
        es.last().end as int
    }
}

impl<H: RequestHandler, W, F: Filter> Server<H, W, F> {
    /// Serves every request in the bytes a connection delivered, one after
    /// the other, as `handle_request` answers each: the first starts at 0,
    /// each next one where the one before ended, every exchange but the last
    /// keeps the connection open, and the loop stops at an exchange that
    /// closes it or at a step that closes without an answer, which is then
    /// the error returned. What is written is the responses, whole and in order.
    pub fn serve_connection(&self, input: &[u8], peer: &str) -> (r: (Vec<u8>, Vec<Exchange>, Option<ConnectionError>))
        ensures
            r.0@ == exchanges_bytes(r.1@),
            r.1@.len() > 0 ==> r.1@[0].start == 0,
            forall|i: int| 0 < i < r.1@.len() ==> #[trigger] r.1@[i].start == r.1@[i - 1].end,
            forall|i: int| 0 <= i < r.1@.len() ==> exchange_fits(
                #[trigger] r.1@[i],
                r.1@[i].start as int,
                step_shape(self.apps@, self.filters@.len() == 0, self.head_limit as int, input@, r.1@[i].start as int, true),
            ),
            forall|i: int| 0 <= i < r.1@.len() - 1 ==> (#[trigger] r.1@[i]).keep_alive,
            forall|i: int| 0 <= i < r.1@.len() ==> (#[trigger] r.1@[i]).start < r.1@[i].end <= input@.len(),
            match r.2 {
                Some(e) => (r.1@.len() == 0 || r.1@.last().keep_alive) && step_shape(
                    self.apps@,
                    self.filters@.len() == 0,
                    self.head_limit as int,
                    input@,
                    next_start(r.1@),
                    true,
                ) == StepShape::Closed(e),
                None => r.1@.len() > 0 && !r.1@.last().keep_alive,
            },
    {
        let mut out: Vec<u8> = Vec::new();
        let mut exchanges: Vec<Exchange> = Vec::new();
        let mut pos: usize = 0;
        loop
            invariant
                pos <= input@.len(),
                pos == next_start(exchanges@),
                out@ == exchanges_bytes(exchanges@),
                exchanges@.len() > 0 ==> exchanges@[0].start == 0,
                exchanges@.len() > 0 ==> exchanges@.last().keep_alive,
                forall|i: int| 0 < i < exchanges@.len() ==> #[trigger] exchanges@[i].start == exchanges@[i - 1].end,
                forall|i: int| 0 <= i < exchanges@.len() ==> exchange_fits(
                    #[trigger] exchanges@[i],
                    exchanges@[i].start as int,
                    step_shape(self.apps@, self.filters@.len() == 0, self.head_limit as int, input@, exchanges@[i].start as int, true),
                ),
                forall|i: int| 0 <= i < exchanges@.len() ==> (#[trigger] exchanges@[i]).keep_alive,
                forall|i: int| 0 <= i < exchanges@.len() ==> (#[trigger] exchanges@[i]).start < exchanges@[i].end <= input@.len(),
            decreases input@.len() - pos,
        {
            let step = self.handle_request(input, pos, peer, true);
            let ghost shape = step_shape(self.apps@, self.filters@.len() == 0, self.head_limit as int, input@, pos as int, true);
            match step {
                Step::Closed(e) => {
                    assert(shape == StepShape::Closed(e)) by {
                        match shape {
                            StepShape::Closed(_) => {},
                            StepShape::Answered { .. } => {},
                        }
                    }
                    return (out, exchanges, Some(e));
                },
                Step::Answered(ex) => {
                    let bytes = exchange_to_bytes(&ex);
                    crate::http::response::append_bytes(&mut out, bytes.as_slice());
                    let keep = ex.keep_alive;
                    let next = ex.end;
                    let ghost before = exchanges@;
                    exchanges.push(ex);
                    proof {
                        assert(exchanges@.drop_last() =~= before);
                        assert(exchanges@.last().start == pos);
                        assert(forall|i: int| 0 <= i < before.len() ==> exchanges@[i] == before[i]);
                    }
                    if !keep {
                        return (out, exchanges, None);
                    }
                    pos = next;
                },
            }
        }
    }
}

} // verus!

verus! {

/// A filter that lets every request and response through unchanged.
pub struct NoFilter;

impl Filter for NoFilter {
    fn pre_routing(&self, ctx: &mut RequestContext) -> (r: Option<Response>) {
        None
    }

    fn post_response(&self, ctx: &RequestContext, response: Response) -> (r: Response) {
        response
    }
}

} // verus!
