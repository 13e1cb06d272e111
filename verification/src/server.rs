//! Routing requests to handlers, through middleware.

use crate::api::{self, Response};
use crate::auth::AuthContext;
use crate::config::ServerConfig;
use crate::http::{self, Method};
use crate::text;
use crate::text_map::{self, TextMap};
use vstd::prelude::*;

pub use crate::middleware::{
    AuthMiddleware, CompressionMiddleware, CorsMiddleware, LoggingMiddleware, RateLimitMiddleware,
    RequestSizeMiddleware, SecurityHeadersMiddleware, TimeoutMiddleware,
};

verus! {

// ---------------------------------------------------------------------------------------------
// Patterns
// ---------------------------------------------------------------------------------------------

/// A piece of the pattern of a route: one that the path has to repeat, or one that stands for
/// whatever the path has in its place.
#[derive(Debug)]
pub enum Segment {
    Literal(String),
    Param(String),
}

/// The contents of a segment.
pub enum SegmentView {
    Literal(Seq<char>),
    Param(Seq<char>),
}

impl View for Segment {
    type V = SegmentView;

    open spec fn view(&self) -> SegmentView {
        match self {
            Segment::Literal(s) => SegmentView::Literal(s@),
            Segment::Param(s) => SegmentView::Param(s@),
        }
    }
}

/// The pieces of a path or of a pattern: what stands between the slashes, where anything does.
pub open spec fn path_pieces(path: Seq<char>) -> Seq<Seq<char>> {
    text::non_empty(text::split(path, '/'))
}

/// The segment that a piece of a pattern makes: a parameter where it begins with a colon.
pub open spec fn segment_of(piece: Seq<char>) -> SegmentView {
    if piece.len() > 0 && piece[0] == ':' {
        SegmentView::Param(piece.skip(1))
    } else {
        SegmentView::Literal(piece)
    }
}

/// The segments of a pattern.
pub open spec fn pattern_segments(pattern: Seq<char>) -> Seq<SegmentView> {
    path_pieces(pattern).map_values(|piece: Seq<char>| segment_of(piece))
}

/// The contents of a list of segments.
pub open spec fn segment_views(segments: Seq<Segment>) -> Seq<SegmentView> {
    segments.map_values(|s: Segment| s@)
}

/// Takes a pattern apart.
pub fn parse_pattern(pattern: &str) -> (r: Vec<Segment>)
    ensures
        segment_views(r@) == pattern_segments(pattern@),
{
    let pieces = text::split_non_empty(pattern, '/');
    let ghost all = text::texts(pieces@);
    let mut segments: Vec<Segment> = Vec::new();
    proof {
        reveal_strlit(":");
    }
    let mut i: usize = 0;
    while i < pieces.len()
        invariant
            i <= pieces@.len(),
            all == text::texts(pieces@),
            ":"@ == seq![':'],
            segments@.len() == i,
            forall|j: int| 0 <= j < i ==> (#[trigger] segments@[j])@ == segment_of(all[j]),
        decreases pieces@.len() - i,
    {
        let piece = pieces[i].as_str();
        let ghost text = all[i as int];
        proof {
            assert(text == piece@);
            if text.len() > 0 {
                assert(text.take(1) =~= seq![text[0]]);
                assert(seq![text[0]] == seq![':'] ==> seq![text[0]][0] == ':');
            }
        }
        let segment = if text::has_prefix(piece, ":") {
            Segment::Param(text::after(piece, 1))
        } else {
            Segment::Literal(pieces[i].clone())
        };
        segments.push(segment);
        i = i + 1;
    }
    proof {
        assert(segment_views(segments@) =~= pattern_segments(pattern@));
    }
    segments
}

/// Whether the pieces of a path fit the segments of a pattern: there are as many, and each literal
/// is repeated.
pub open spec fn fits(segments: Seq<SegmentView>, pieces: Seq<Seq<char>>) -> bool {
    &&& segments.len() == pieces.len()
    &&& forall|i: int|
        0 <= i < segments.len() ==> (#[trigger] segments[i] matches SegmentView::Literal(s) ==> s
            == pieces[i])
}

/// What the parameters of a pattern stand for in a path. Of two parameters with the same name the
/// later one counts.
pub open spec fn bindings(segments: Seq<SegmentView>, pieces: Seq<Seq<char>>) -> Map<
    Seq<char>,
    Seq<char>,
>
    decreases segments.len(),
{
    if segments.len() == 0 {
        Map::empty()
    } else {
        let before = bindings(segments.drop_last(), pieces.drop_last());
        match segments.last() {
            SegmentView::Param(name) => before.insert(name, pieces.last()),
            SegmentView::Literal(_) => before,
        }
    }
}

proof fn lemma_bound(
    segments: Seq<SegmentView>,
    pieces: Seq<Seq<char>>,
    at: int,
    name: Seq<char>,
)
    requires
        segments.len() == pieces.len(),
        0 <= at < segments.len(),
        segments[at] == SegmentView::Param(name),
        forall|j: int|
            0 <= j < segments.len() && #[trigger] segments[j] == SegmentView::Param(name) ==> j
                == at,
    ensures
        bindings(segments, pieces).contains_key(name),
        bindings(segments, pieces)[name] == pieces[at],
    decreases segments.len(),
{
    if at < segments.len() - 1 {
        let s = segments.drop_last();
        assert(s[at] == segments[at]);
        assert forall|j: int| 0 <= j < s.len() && #[trigger] s[j] == SegmentView::Param(
            name,
        ) implies j == at by {
            assert(s[j] == segments[j]);
        }
        lemma_bound(s, pieces.drop_last(), at, name);
        assert(segments[segments.len() - 1] != SegmentView::Param(name));
    }
}

/// The pieces of a path that repeats a pattern, with a text in place of each parameter.
pub open spec fn filled_in(segments: Seq<SegmentView>, values: Seq<Seq<char>>) -> Seq<Seq<char>> {
    Seq::new(
        segments.len(),
        |i: int|
            match segments[i] {
                SegmentView::Literal(s) => s,
                SegmentView::Param(_) => values[i],
            },
    )
}

/// The path with given pieces: each after a slash.
pub open spec fn path_of(pieces: Seq<Seq<char>>) -> Seq<char> {
    text::join(seq![Seq::<char>::empty()] + pieces, seq!['/'])
}

/// A path that repeats a pattern, with a text in place of each parameter, fits the pattern, and each
/// parameter whose name occurs once stands for its text. The texts hold characters, and none of
/// them a slash.
pub proof fn parameters_are_read_back(
    segments: Seq<SegmentView>,
    values: Seq<Seq<char>>,
    at: int,
    name: Seq<char>,
)
    requires
        forall|i: int|
            0 <= i < segments.len() ==> (#[trigger] filled_in(segments, values)[i]).len() > 0
                && !filled_in(segments, values)[i].contains('/'),
        0 <= at < segments.len(),
        segments[at] == SegmentView::Param(name),
        forall|j: int|
            0 <= j < segments.len() && #[trigger] segments[j] == SegmentView::Param(name) ==> j
                == at,
    ensures
        fits(segments, path_pieces(path_of(filled_in(segments, values)))),
        bindings(segments, path_pieces(path_of(filled_in(segments, values)))).contains_key(name),
        bindings(segments, path_pieces(path_of(filled_in(segments, values))))[name] == values[at],
{
    let pieces = filled_in(segments, values);
    let led = seq![Seq::<char>::empty()] + pieces;
    assert forall|i: int| 0 <= i < led.len() implies !(#[trigger] led[i]).contains('/') by {
        if i > 0 {
            assert(led[i] == pieces[i - 1]);
        }
    }
    text::join_splits_back(led, '/');
    text::non_empty_keeps_all(pieces);
    assert(path_pieces(path_of(pieces)) == pieces);
    lemma_bound(segments, pieces, at, name);
}

/// A route: the method and the pattern of the requests that it is for, and their handler.
pub struct Route<H> {
    method: Method,
    pattern: String,
    segments: Vec<Segment>,
    handler: H,
}

impl<H> Route<H> {
    #[verifier::type_invariant]
    spec fn segments_are_those_of_the_pattern(self) -> bool {
        segment_views(self.segments@) == pattern_segments(self.pattern@)
    }

    /// The method that the route is for.
    pub closed spec fn spec_method(&self) -> Method {
        self.method
    }

    /// The pattern of the paths that the route is for.
    pub closed spec fn spec_pattern(&self) -> Seq<char> {
        self.pattern@
    }

    /// The handler.
    pub closed spec fn spec_handler(&self) -> H {
        self.handler
    }

    /// Whether a path fits the pattern.
    pub open spec fn fits(&self, path: Seq<char>) -> bool {
        fits(pattern_segments(self.spec_pattern()), path_pieces(path))
    }

    /// What the parameters of the pattern stand for in a path.
    pub open spec fn bindings(&self, path: Seq<char>) -> Map<Seq<char>, Seq<char>> {
        bindings(pattern_segments(self.spec_pattern()), path_pieces(path))
    }

    pub fn new(method: Method, pattern: &str, handler: H) -> (r: Route<H>)
        ensures
            r.spec_method() == method,
            r.spec_pattern() == pattern@,
            r.spec_handler() == handler,
    {
        let segments = parse_pattern(pattern);
        Route { method, pattern: pattern.to_owned(), segments, handler }
    }

    pub fn method(&self) -> (r: Method)
        ensures
            r == self.spec_method(),
    {
        self.method
    }

    pub fn handler(&self) -> (r: &H)
        ensures
            *r == self.spec_handler(),
    {
        &self.handler
    }

    /// What the parameters of the pattern stand for in a path, if the path fits the pattern.
    pub fn matches(&self, path: &str) -> (r: Option<TextMap<String>>)
        ensures
            match r {
                Some(params) => self.fits(path@) && text_map::text_values(params@)
                    == self.bindings(path@),
                None => !self.fits(path@),
            },
    {
        proof {
            use_type_invariant(self);
        }
        let pieces = text::split_non_empty(path, '/');
        let ghost p = text::texts(pieces@);
        let ghost s = segment_views(self.segments@);
        if pieces.len() != self.segments.len() {
            return None;
        }
        let mut params: TextMap<String> = TextMap::new();
        proof {
            assert(text_map::text_values(params@) =~= bindings(s.take(0), p.take(0)));
        }
        let mut i: usize = 0;
        while i < self.segments.len()
            invariant
                i <= self.segments@.len(),
                p == text::texts(pieces@),
                s == segment_views(self.segments@),
                s.len() == p.len(),
                s == pattern_segments(self.pattern@),
                p == path_pieces(path@),
                text_map::text_values(params@) == bindings(s.take(i as int), p.take(i as int)),
                forall|j: int|
                    0 <= j < i ==> (#[trigger] s[j] matches SegmentView::Literal(t) ==> t == p[j]),
            decreases self.segments@.len() - i,
        {
            proof {
                assert(s.take(i + 1).drop_last() =~= s.take(i as int));
                assert(p.take(i + 1).drop_last() =~= p.take(i as int));
                assert(s[i as int] == self.segments@[i as int]@);
                assert(p[i as int] == pieces@[i as int]@);
            }
            match &self.segments[i] {
                Segment::Literal(literal) => if !text::same(literal.as_str(), pieces[i].as_str()) {
                    proof {
                        assert(!fits(s, p));
                    }
                    return None;
                },
                Segment::Param(name) => {
                    let ghost before = params@;
                    let piece = pieces[i].clone();
                    params.insert(name.clone(), piece);
                    proof {
                        assert(text_map::text_values(params@) =~= text_map::text_values(
                            before,
                        ).insert(name@, piece@));
                    }
                },
            }
            i = i + 1;
        }
        proof {
            assert(s.take(s.len() as int) =~= s);
            assert(p.take(p.len() as int) =~= p);
        }
        Some(params)
    }
}

// ---------------------------------------------------------------------------------------------
// The router
// ---------------------------------------------------------------------------------------------

/// The routes of a service, and the middleware that every request goes through before its handler.
pub struct Router<H, M> {
    routes: Vec<Route<H>>,
    middlewares: Vec<M>,
}

/// Whether routes can be registered for a method.
pub open spec fn is_routable(method: Method) -> bool {
    method == Method::Get || method == Method::Post || method == Method::Put || method
        == Method::Delete
}

/// Whether a route is for a method and a path.
pub open spec fn is_for<H>(route: Route<H>, method: Method, path: Seq<char>) -> bool {
    route.spec_method() == method && route.fits(path)
}

/// Whether a list of routes begins with those of another list and goes on with one more.
pub open spec fn route_added<H>(
    before: Seq<Route<H>>,
    after: Seq<Route<H>>,
    method: Method,
    pattern: Seq<char>,
    handler: H,
) -> bool {
    &&& after.len() == before.len() + 1
    &&& after.drop_last() == before
    &&& after.last().spec_method() == method
    &&& after.last().spec_pattern() == pattern
    &&& after.last().spec_handler() == handler
}

impl<H, M> Router<H, M> {
    #[verifier::type_invariant]
    spec fn methods_are_routable(self) -> bool {
        forall|i: int|
            0 <= i < self.routes@.len() ==> is_routable((#[trigger] self.routes@[i]).spec_method())
    }

    /// The routes, in the order in which they were registered.
    pub closed spec fn spec_routes(&self) -> Seq<Route<H>> {
        self.routes@
    }

    /// The middleware, in the order in which it was added.
    pub closed spec fn spec_middlewares(&self) -> Seq<M> {
        self.middlewares@
    }

    pub fn new() -> (r: Router<H, M>)
        ensures
            r.spec_routes().len() == 0,
            r.spec_middlewares().len() == 0,
    {
        Router { routes: Vec::new(), middlewares: Vec::new() }
    }

    /// Adds middleware after that which is there.
    pub fn add_middleware(&mut self, middleware: M)
        ensures
            final(self).spec_routes() == old(self).spec_routes(),
            final(self).spec_middlewares() == old(self).spec_middlewares().push(middleware),
    {
        proof {
            use_type_invariant(&*self);
        }
        let mut middlewares: Vec<M> = Vec::new();
        std::mem::swap(&mut middlewares, &mut self.middlewares);
        middlewares.push(middleware);
        self.middlewares = middlewares;
    }

    /// Registers a handler for the requests to read what a pattern names.
    pub fn get(&mut self, path: &str, handler: H)
        ensures
            route_added(old(self).spec_routes(), final(self).spec_routes(), Method::Get, path@, handler),
            final(self).spec_middlewares() == old(self).spec_middlewares(),
    {
        self.add_route(Method::Get, path, handler);
    }

    /// Registers a handler for the requests to add to what a pattern names.
    pub fn post(&mut self, path: &str, handler: H)
        ensures
            route_added(
                old(self).spec_routes(),
                final(self).spec_routes(),
                Method::Post,
                path@,
                handler,
            ),
            final(self).spec_middlewares() == old(self).spec_middlewares(),
    {
        self.add_route(Method::Post, path, handler);
    }

    /// Registers a handler for the requests to replace what a pattern names.
    pub fn put(&mut self, path: &str, handler: H)
        ensures
            route_added(old(self).spec_routes(), final(self).spec_routes(), Method::Put, path@, handler),
            final(self).spec_middlewares() == old(self).spec_middlewares(),
    {
        self.add_route(Method::Put, path, handler);
    }

    /// Registers a handler for the requests to remove what a pattern names.
    pub fn delete(&mut self, path: &str, handler: H)
        ensures
            route_added(
                old(self).spec_routes(),
                final(self).spec_routes(),
                Method::Delete,
                path@,
                handler,
            ),
            final(self).spec_middlewares() == old(self).spec_middlewares(),
    {
        self.add_route(Method::Delete, path, handler);
    }

    fn add_route(&mut self, method: Method, path_pattern: &str, handler: H)
        requires
            is_routable(method),
        ensures
            route_added(
                old(self).spec_routes(),
                final(self).spec_routes(),
                method,
                path_pattern@,
                handler,
            ),
            final(self).spec_middlewares() == old(self).spec_middlewares(),
    {
        proof {
            use_type_invariant(&*self);
        }
        let route = Route::new(method, path_pattern, handler);
        let mut routes: Vec<Route<H>> = Vec::new();
        std::mem::swap(&mut routes, &mut self.routes);
        routes.push(route);
        proof {
            assert(routes@.drop_last() =~= old(self).routes@);
        }
        self.routes = routes;
    }

    /// The routes.
    pub fn routes(&self) -> (r: &Vec<Route<H>>)
        ensures
            r@ == self.spec_routes(),
    {
        &self.routes
    }

    /// The middleware.
    pub fn middlewares(&self) -> (r: &Vec<M>)
        ensures
            r@ == self.spec_middlewares(),
    {
        &self.middlewares
    }

    /// The first route that is for a method and a path, with what its parameters stand for.
    pub fn find(&self, method: Method, path: &str) -> (r: Option<(usize, TextMap<String>)>)
        ensures
            match r {
                Some((at, params)) => {
                    &&& at < self.spec_routes().len()
                    &&& is_for(self.spec_routes()[at as int], method, path@)
                    &&& forall|i: int|
                        0 <= i < at ==> !is_for(#[trigger] self.spec_routes()[i], method, path@)
                    &&& text_map::text_values(params@) == self.spec_routes()[at as int].bindings(
                        path@,
                    )
                    &&& is_routable(method)
                },
                None => forall|i: int|
                    0 <= i < self.spec_routes().len() ==> !is_for(
                        #[trigger] self.spec_routes()[i],
                        method,
                        path@,
                    ),
            },
    {
        proof {
            use_type_invariant(self);
        }
        let mut i: usize = 0;
        while i < self.routes.len()
            invariant
                i <= self.routes@.len(),
                self.methods_are_routable(),
                forall|j: int| 0 <= j < i ==> !is_for(#[trigger] self.routes@[j], method, path@),
            decreases self.routes@.len() - i,
        {
            if self.routes[i].method() == method {
                match self.routes[i].matches(path) {
                    Some(params) => {
                        assert(is_routable(self.routes@[i as int].spec_method()));
                        return Some((i, params));
                    },
                    None => {},
                }
            }
            i = i + 1;
        }
        None
    }

    /// Begins to handle a request: with the first route that is for it, or with the answer that
    /// there is none.
    pub fn handle_request(&self, method: &str, path: &str) -> (r: Result<
        (Exchange, TextMap<String>),
        Response,
    >)
        ensures
            match r {
                Ok((exchange, params)) => {
                    let at = exchange.route;
                    &&& at < self.spec_routes().len()
                    &&& is_for(self.spec_routes()[at as int], http::method_named(method@), path@)
                    &&& forall|i: int|
                        0 <= i < at ==> !is_for(
                            #[trigger] self.spec_routes()[i],
                            http::method_named(method@),
                            path@,
                        )
                    &&& text_map::text_values(params@) == self.spec_routes()[at as int].bindings(
                        path@,
                    )
                    &&& exchange.passed == 0
                },
                Err(response) => {
                    &&& response.is_error(404, "Route not found"@)
                    &&& forall|i: int|
                        0 <= i < self.spec_routes().len() ==> !is_for(
                            #[trigger] self.spec_routes()[i],
                            http::method_named(method@),
                            path@,
                        )
                },
            },
    {
        match self.find(Method::from_name(method), path) {
            Some((route, params)) => Ok((Exchange { route, passed: 0 }, params)),
            None => Err(Response::not_found("Route not found")),
        }
    }

    /// What is to be asked next about a request: the middleware that has not been asked, in its
    /// order, and after it the handler of the route.
    pub fn next_call(&self, exchange: &Exchange) -> (r: Call)
        ensures
            r == next_call(self.spec_middlewares().len(), *exchange),
    {
        if exchange.passed < self.middlewares.len() {
            Call::Middleware(exchange.passed)
        } else {
            Call::Handler(exchange.route)
        }
    }

    /// Goes on after middleware was asked: where it let the request through, with what comes after
    /// it, and else with its answer.
    pub fn apply_middleware(&self, exchange: Exchange, result: MiddlewareResult) -> (r: Result<
        Exchange,
        Response,
    >)
        requires
            exchange.passed < self.spec_middlewares().len(),
        ensures
            match result {
                MiddlewareResult::Continue => r == Ok::<_, Response>(advanced(exchange)),
                MiddlewareResult::Response(response) => r matches Err(sent) && cors_added(
                    response,
                    sent,
                ),
            },
    {
        let total: usize = self.middlewares.len();
        assert(exchange.passed < total);
        match result {
            MiddlewareResult::Continue => Ok(
                Exchange { route: exchange.route, passed: exchange.passed + 1 },
            ),
            MiddlewareResult::Response(response) => Err(add_cors(response)),
        }
    }

    /// Ends a request that its handler has answered.
    pub fn finish(&self, response: Response) -> (r: Response)
        ensures
            cors_added(response, r),
    {
        add_cors(response)
    }
}

/// A request on its way: the route that is for it, and how much of the middleware has let it
/// through.
#[derive(Debug, Clone, Copy, PartialEq, Eq, Structural)]
pub struct Exchange {
    pub route: usize,
    pub passed: usize,
}

/// What is to be asked about a request: middleware, or the handler of a route.
#[derive(Debug, Clone, Copy, PartialEq, Eq, Structural)]
pub enum Call {
    Middleware(usize),
    Handler(usize),
}

/// What middleware says of a request: it may go on, or this is the answer.
#[derive(Debug)]
pub enum MiddlewareResult {
    Continue,
    Response(Response),
}

/// What is to be asked next about a request, with so much middleware.
pub open spec fn next_call(middlewares: nat, exchange: Exchange) -> Call {
    if exchange.passed < middlewares {
        Call::Middleware(exchange.passed)
    } else {
        Call::Handler(exchange.route)
    }
}

/// A request that more middleware has let through.
pub open spec fn advanced(exchange: Exchange) -> Exchange {
    Exchange { route: exchange.route, passed: (exchange.passed + 1) as usize }
}

/// A header map with the headers that let other sites in.
pub open spec fn cors_values(before: Map<Seq<char>, Seq<Seq<u8>>>) -> Map<
    Seq<char>,
    Seq<Seq<u8>>,
> {
    before.insert("access-control-allow-origin"@, seq![vstd::utf8::encode_utf8("*"@)]).insert(
        "access-control-allow-methods"@,
        seq![vstd::utf8::encode_utf8("GET, POST, PUT, DELETE, OPTIONS"@)],
    ).insert(
        "access-control-allow-headers"@,
        seq![vstd::utf8::encode_utf8("Content-Type, Authorization"@)],
    )
}

/// The headers that let other sites in.
pub open spec fn cors_headers() -> Seq<(Seq<char>, Seq<char>)> {
    seq![
        ("access-control-allow-origin"@, "*"@),
        ("access-control-allow-methods"@, "GET, POST, PUT, DELETE, OPTIONS"@),
        ("access-control-allow-headers"@, "Content-Type, Authorization"@),
    ]
}

/// Whether a response is another one with the headers that let other sites in. In a response with
/// more headers than a header map is sure to take in, each of them is set or left.
pub open spec fn cors_added(before: Response, after: Response) -> bool {
    &&& after.code() == before.code()
    &&& after.body_text() == before.body_text()
    &&& before.header_map().dom().finite()
    &&& before.header_map().dom().len() + 3 <= http::HEADER_ROOM ==> after.header_map()
        == cors_values(before.header_map())
    &&& api::all_attempted(before.header_map(), after.header_map(), cors_headers())
}

pub(crate) fn add_cors(response: Response) -> (r: Response)
    ensures
        cors_added(response, r),
{
    proof {
        http::lemma_cors_headers();
    }
    let ghost before = response.header_map();
    let first = response.with_header("access-control-allow-origin", "*");
    let ghost one = first.header_map();
    let second = first.with_header("access-control-allow-methods", "GET, POST, PUT, DELETE, OPTIONS");
    let ghost two = second.header_map();
    let third = second.with_header("access-control-allow-headers", "Content-Type, Authorization");
    proof {
        let all = cors_headers();
        let none = Seq::<(Seq<char>, Seq<char>)>::empty();
        api::lemma_nothing_attempted(before);
        api::lemma_one_more_attempted(before, before, one, none, all[0].0, all[0].1);
        let first = none.push(all[0]);
        api::lemma_one_more_attempted(before, one, two, first, all[1].0, all[1].1);
        let second = first.push(all[1]);
        api::lemma_one_more_attempted(before, two, third.header_map(), second, all[2].0, all[2].1);
        assert(second.push(all[2]) =~= all);
    }
    third
}

/// What is answered to a request when the middleware says one thing after the other and the handler
/// answers: the first answer among those of the middleware, else that of the handler.
pub open spec fn first_answer(results: Seq<MiddlewareResult>, handled: Response) -> Response
    decreases results.len(),
{
    if results.len() == 0 {
        handled
    } else {
        match results[0] {
            MiddlewareResult::Continue => first_answer(results.skip(1), handled),
            MiddlewareResult::Response(response) => response,
        }
    }
}

/// What is answered to a request that goes its way call by call, each middleware saying what a list
/// has in its place. The answer is that before the headers for other sites are added.
pub open spec fn answer_by_calls(
    middlewares: nat,
    exchange: Exchange,
    results: Seq<MiddlewareResult>,
    handled: Response,
) -> Response
    decreases middlewares - exchange.passed,
{
    match next_call(middlewares, exchange) {
        Call::Handler(_) => handled,
        Call::Middleware(i) => match results[i as int] {
            MiddlewareResult::Response(response) => response,
            MiddlewareResult::Continue => if exchange.passed < usize::MAX {
                answer_by_calls(middlewares, advanced(exchange), results, handled)
            } else {
                handled
            },
        },
    }
}

/// The middleware is asked in its order, the first that answers ends the request, and the handler
/// is asked only where all of it let the request through.
pub proof fn middleware_comes_in_order(
    middlewares: nat,
    exchange: Exchange,
    results: Seq<MiddlewareResult>,
    handled: Response,
)
    requires
        results.len() == middlewares,
        exchange.passed <= middlewares,
        middlewares <= usize::MAX,
    ensures
        answer_by_calls(middlewares, exchange, results, handled) == first_answer(
            results.skip(exchange.passed as int),
            handled,
        ),
    decreases middlewares - exchange.passed,
{
    let rest = results.skip(exchange.passed as int);
    if exchange.passed < middlewares {
        assert(rest.skip(1) =~= results.skip(exchange.passed + 1));
        middleware_comes_in_order(middlewares, advanced(exchange), results, handled);
    }
}

// ---------------------------------------------------------------------------------------------
// The server
// ---------------------------------------------------------------------------------------------

/// A server that is ready to run: where it listens, what it serves and what it offers to handlers.
pub struct Server<H, M, D, R> {
    pub config: ServerConfig,
    pub router: Router<H, M>,
    pub db_pool: Option<D>,
    pub auth: Option<AuthContext>,
    pub task_runner: Option<R>,
}

/// The address that a server listens on.
pub open spec fn listen_address(config: ServerConfig) -> Seq<char> {
    config.host@ + seq![':'] + text::decimal(config.port as nat)
}

impl<H, M, D, R> Server<H, M, D, R> {
    pub fn new(
        config: ServerConfig,
        router: Router<H, M>,
        db_pool: Option<D>,
        auth: Option<AuthContext>,
        task_runner: Option<R>,
    ) -> (r: Server<H, M, D, R>)
        ensures
            r.config == config,
            r.router == router,
            r.db_pool == db_pool,
            r.auth == auth,
            r.task_runner == task_runner,
    {
        Server { config, router, db_pool, auth, task_runner }
    }

    /// The address that the server listens on.
    pub fn address(&self) -> (r: String)
        ensures
            r@ == listen_address(self.config),
    {
        let mut address = self.config.host.clone();
        address.push(':');
        let port = text::u64_text(self.config.port as u64);
        address.append(port.as_str());
        proof {
            assert(address@ =~= listen_address(self.config));
        }
        address
    }
}

// ---------------------------------------------------------------------------------------------
// What routing comes to
// ---------------------------------------------------------------------------------------------

/// A path is cut at each of its slashes, and nothing stands between two slashes in a row: the pieces
/// of a path are those before a slash and those after it, and a path without a slash is one piece
/// unless it is empty.
pub proof fn slashes_cut_a_path(a: Seq<char>, b: Seq<char>)
    ensures
        path_pieces(a.push('/') + b) == path_pieces(a) + path_pieces(b),
        a.len() > 0 && !a.contains('/') ==> path_pieces(a) == seq![a],
        path_pieces(Seq::empty()) == Seq::<Seq<char>>::empty(),
{
    text::a_separator_cuts(a, b, '/');
    text::non_empty_of_two(text::split(a, '/'), text::split(b, '/'));
    if a.len() > 0 && !a.contains('/') {
        let one = seq![a];
        text::non_empty_keeps_all(one);
    }
    let empty = Seq::<char>::empty();
    let pieces = seq![empty];
    assert(text::split(empty, '/') =~= pieces);
    reveal_with_fuel(text::non_empty, 2);
    assert(pieces.drop_last().len() == 0);
    assert(path_pieces(empty) =~= Seq::<Seq<char>>::empty());
}

/// A route is for the requests with its method whose path repeats its pattern, and for no others:
/// the path has as many pieces as the pattern, and each piece is the one of the pattern unless that
/// begins with a colon.
pub proof fn a_route_is_for_what_repeats_its_pattern<H>(
    route: Route<H>,
    method: Method,
    path: Seq<char>,
)
    ensures
        is_for(route, method, path) <==> {
            &&& route.spec_method() == method
            &&& path_pieces(path).len() == path_pieces(route.spec_pattern()).len()
            &&& forall|i: int|
                0 <= i < path_pieces(path).len() ==> {
                    ||| #[trigger] path_pieces(path)[i] == path_pieces(route.spec_pattern())[i]
                    ||| text::begins_with(path_pieces(route.spec_pattern())[i], seq![':'])
                }
        },
        route.fits(path) <==> path_pieces(path) == filled_in(
            pattern_segments(route.spec_pattern()),
            path_pieces(path),
        ),
{
    let pattern = path_pieces(route.spec_pattern());
    let segments = pattern_segments(route.spec_pattern());
    let pieces = path_pieces(path);
    let colon = seq![':'];
    assert forall|i: int| 0 <= i < pattern.len() implies (text::begins_with(pattern[i], colon) <==> (
    #[trigger] segments[i]) is Param) && (segments[i] is Literal ==> segments[i]
        == SegmentView::Literal(pattern[i])) by {
        if pattern[i].len() > 0 {
            assert(pattern[i].take(1) =~= seq![pattern[i][0]]);
            if text::begins_with(pattern[i], colon) {
                assert(pattern[i].take(1)[0] == colon[0]);
            }
        }
    }
    if route.fits(path) {
        assert forall|i: int| 0 <= i < pieces.len() implies {
            ||| #[trigger] pieces[i] == pattern[i]
            ||| text::begins_with(pattern[i], colon)
        } by {
            assert(segments[i] is Param || segments[i] is Literal);
        }
        assert(pieces =~= filled_in(segments, pieces));
    }
    if pieces.len() == pattern.len() && forall|i: int|
        0 <= i < pieces.len() ==> {
            ||| #[trigger] pieces[i] == pattern[i]
            ||| text::begins_with(pattern[i], colon)
        } {
        assert forall|i: int| 0 <= i < segments.len() implies (
        #[trigger] segments[i] matches SegmentView::Literal(s) ==> s == pieces[i]) by {
            assert(pieces[i] == pattern[i] || text::begins_with(pattern[i], colon));
        }
    }
    if pieces == filled_in(segments, pieces) {
        assert forall|i: int| 0 <= i < segments.len() implies (
        #[trigger] segments[i] matches SegmentView::Literal(s) ==> s == pieces[i]) by {
            assert(pieces[i] == filled_in(segments, pieces)[i]);
        }
    }
}

/// What is bound in a path that fits a pattern: each name that stands behind a colon in the pattern,
/// to the piece of the path in its last place there, and nothing else.
pub proof fn parameters_stand_for_their_pieces<H>(route: Route<H>, path: Seq<char>)
    requires
        route.fits(path),
    ensures
        forall|i: int|
            0 <= i < path_pieces(path).len() && text::begins_with(
                #[trigger] path_pieces(route.spec_pattern())[i],
                seq![':'],
            ) && (forall|j: int|
                i < j < path_pieces(path).len() ==> #[trigger] path_pieces(route.spec_pattern())[j]
                    != path_pieces(route.spec_pattern())[i]) ==> {
                &&& route.bindings(path).contains_key(
                    path_pieces(route.spec_pattern())[i].skip(1),
                )
                &&& route.bindings(path)[path_pieces(route.spec_pattern())[i].skip(1)]
                    == path_pieces(path)[i]
            },
        forall|name: Seq<char>| #[trigger]
            route.bindings(path).contains_key(name) ==> path_pieces(
                route.spec_pattern(),
            ).contains(seq![':'] + name),
{
    let pattern = path_pieces(route.spec_pattern());
    let pieces = path_pieces(path);
    lemma_bindings_of_pieces(pattern, pieces);
    assert(pattern_segments(route.spec_pattern()) == pattern.map_values(
        |piece: Seq<char>| segment_of(piece),
    ));
}

proof fn lemma_bindings_of_pieces(pattern: Seq<Seq<char>>, pieces: Seq<Seq<char>>)
    requires
        pattern.len() == pieces.len(),
    ensures
        ({
            let bound = bindings(pattern.map_values(|piece: Seq<char>| segment_of(piece)), pieces);
            &&& forall|i: int|
                0 <= i < pieces.len() && text::begins_with(#[trigger] pattern[i], seq![':']) && (
                forall|j: int|
                    i < j < pieces.len() ==> #[trigger] pattern[j] != pattern[i])
                    ==> bound.contains_key(pattern[i].skip(1)) && bound[pattern[i].skip(1)]
                    == pieces[i]
            &&& forall|name: Seq<char>| #[trigger]
                bound.contains_key(name) ==> pattern.contains(seq![':'] + name)
        }),
    decreases pattern.len(),
{
    let colon = seq![':'];
    let segments = pattern.map_values(|piece: Seq<char>| segment_of(piece));
    let bound = bindings(segments, pieces);
    if pattern.len() > 0 {
        let fewer = pattern.drop_last();
        let front = pieces.drop_last();
        lemma_bindings_of_pieces(fewer, front);
        let before = bindings(fewer.map_values(|piece: Seq<char>| segment_of(piece)), front);
        assert(segments.drop_last() =~= fewer.map_values(|piece: Seq<char>| segment_of(piece)));
        let last = pattern[pattern.len() - 1];
        assert(segments.last() == segment_of(last));
        if last.len() > 0 && last[0] == ':' {
            assert(last =~= colon + last.skip(1));
        }
        assert forall|i: int|
            0 <= i < pieces.len() && text::begins_with(#[trigger] pattern[i], colon) && (forall|
                j: int,
            |
                i < j < pieces.len() ==> #[trigger] pattern[j] != pattern[i])
            implies bound.contains_key(pattern[i].skip(1)) && bound[pattern[i].skip(1)]
            == pieces[i] by {
            let piece = pattern[i];
            assert(piece.take(1)[0] == colon[0]);
            assert(piece =~= colon + piece.skip(1));
            if i < fewer.len() {
                assert(fewer[i] == piece);
                assert forall|j: int| i < j < front.len() implies #[trigger] fewer[j]
                    != fewer[i] by {
                    assert(pattern[j] != pattern[i]);
                }
                assert(before.contains_key(piece.skip(1)) && before[piece.skip(1)] == front[i]);
                assert(pattern[pattern.len() - 1] != piece);
            }
        }
        assert forall|name: Seq<char>| #[trigger] bound.contains_key(name) implies pattern.contains(
            colon + name,
        ) by {
            if before.contains_key(name) {
                let k = choose|k: int| 0 <= k < fewer.len() && fewer[k] == colon + name;
                assert(pattern[k] == colon + name);
            } else {
                assert(pattern[pattern.len() - 1] == colon + name);
            }
        }
    }
}

/// The answer to a request is that of the first middleware that has one, in the order in which the
/// middleware was added, and that of the handler where none has.
pub proof fn the_first_answer_counts(
    middlewares: nat,
    route: usize,
    results: Seq<MiddlewareResult>,
    handled: Response,
    at: int,
)
    requires
        results.len() == middlewares,
        middlewares <= usize::MAX,
        0 <= at <= results.len(),
        forall|i: int| 0 <= i < at ==> (#[trigger] results[i]) is Continue,
        at < results.len() ==> results[at] is Response,
    ensures
        answer_by_calls(middlewares, Exchange { route, passed: 0 }, results, handled) == if at
            < results.len() {
            results[at]->Response_0
        } else {
            handled
        },
{
    lemma_calls_from(middlewares, Exchange { route, passed: 0 }, results, handled, at);
}

proof fn lemma_calls_from(
    middlewares: nat,
    exchange: Exchange,
    results: Seq<MiddlewareResult>,
    handled: Response,
    at: int,
)
    requires
        results.len() == middlewares,
        middlewares <= usize::MAX,
        exchange.passed <= at <= results.len(),
        forall|i: int| 0 <= i < at ==> (#[trigger] results[i]) is Continue,
        at < results.len() ==> results[at] is Response,
    ensures
        answer_by_calls(middlewares, exchange, results, handled) == if at < results.len() {
            results[at]->Response_0
        } else {
            handled
        },
    decreases at - exchange.passed,
{
    if exchange.passed < at {
        assert(results[exchange.passed as int] is Continue);
        lemma_calls_from(middlewares, advanced(exchange), results, handled, at);
    }
}

/// Headers with which other sites are let in say so under three names, and say the same as before
/// under any other.
pub proof fn headers_let_other_sites_in(before: Map<Seq<char>, Seq<Seq<u8>>>, name: Seq<char>)
    ensures
        http::first_text(cors_values(before), "access-control-allow-origin"@) == Some(Some("*"@)),
        http::first_text(cors_values(before), "access-control-allow-methods"@) == Some(
            Some("GET, POST, PUT, DELETE, OPTIONS"@),
        ),
        http::first_text(cors_values(before), "access-control-allow-headers"@) == Some(
            Some("Content-Type, Authorization"@),
        ),
        name != "access-control-allow-origin"@ && name != "access-control-allow-methods"@ && name
            != "access-control-allow-headers"@ ==> {
            &&& cors_values(before).contains_key(name) == before.contains_key(name)
            &&& before.contains_key(name) ==> cors_values(before)[name] == before[name]
        },
{
    http::lemma_cors_headers();
    reveal_strlit("access-control-allow-origin");
    reveal_strlit("access-control-allow-methods");
    reveal_strlit("access-control-allow-headers");
    reveal_strlit("*");
    reveal_strlit("GET, POST, PUT, DELETE, OPTIONS");
    reveal_strlit("Content-Type, Authorization");
    let origin = "access-control-allow-origin"@;
    let methods = "access-control-allow-methods"@;
    let headers = "access-control-allow-headers"@;
    assert(origin[21] == 'o' && methods[21] == 'm' && headers[21] == 'h');
    let first = http::with_value(before, origin, "*"@);
    let second = http::with_value(first, methods, "GET, POST, PUT, DELETE, OPTIONS"@);
    let third = http::with_value(second, headers, "Content-Type, Authorization"@);
    assert(cors_values(before) =~= third);
    http::headers_are_read_back(before, origin, origin, "*"@);
    http::headers_are_read_back(first, methods, methods, "GET, POST, PUT, DELETE, OPTIONS"@);
    http::headers_are_read_back(second, headers, headers, "Content-Type, Authorization"@);
}

/// A response that other sites are let in by has the status and the body that it had, and its headers
/// say so.
pub proof fn other_sites_are_let_in(before: Response, after: Response)
    requires
        cors_added(before, after),
        before.header_map().dom().len() + 3 <= http::HEADER_ROOM,
    ensures
        after.code() == before.code(),
        after.body_text() == before.body_text(),
        http::first_text(after.header_map(), "access-control-allow-origin"@) == Some(Some("*"@)),
        http::first_text(after.header_map(), "access-control-allow-methods"@) == Some(
            Some("GET, POST, PUT, DELETE, OPTIONS"@),
        ),
        http::first_text(after.header_map(), "access-control-allow-headers"@) == Some(
            Some("Content-Type, Authorization"@),
        ),
{
    headers_let_other_sites_in(before.header_map(), Seq::empty());
}

/// The address that a server listens on is its host, a colon and its port in decimal.
pub proof fn an_address_names_host_and_port(config: ServerConfig)
    ensures
        text::begins_with(listen_address(config), config.host@),
        listen_address(config).len() > config.host@.len(),
        listen_address(config)[config.host@.len() as int] == ':',
        text::unsigned_value(listen_address(config).skip(config.host@.len() as int + 1)) == Some(
            config.port as nat,
        ),
{
    text::decimals_are_read_back(config.port as nat);
    let address = listen_address(config);
    assert(address.take(config.host@.len() as int) =~= config.host@);
    assert(address.skip(config.host@.len() as int + 1) =~= text::decimal(config.port as nat));
}

/// Routes can be registered for reading, adding, replacing and removing, and for nothing else.
pub proof fn four_methods_can_be_routed(method: Method)
    ensures
        is_routable(method) <==> method != Method::Options && method != Method::Other,
{
}

/// Adding a route leaves the routes that were there in their places and puts the new one behind them,
/// so that an earlier route for the same requests is found first.
pub proof fn a_new_route_comes_last<H>(
    before: Seq<Route<H>>,
    after: Seq<Route<H>>,
    method: Method,
    pattern: Seq<char>,
    handler: H,
    path: Seq<char>,
)
    requires
        route_added(before, after, method, pattern, handler),
    ensures
        after.len() == before.len() + 1,
        forall|i: int| 0 <= i < before.len() ==> #[trigger] after[i] == before[i],
        after[before.len() as int].spec_method() == method,
        after[before.len() as int].spec_pattern() == pattern,
        after[before.len() as int].spec_handler() == handler,
        forall|i: int|
            0 <= i < before.len() ==> is_for(#[trigger] after[i], method, path) == is_for(
                before[i],
                method,
                path,
            ),
{
    assert forall|i: int| 0 <= i < before.len() implies #[trigger] after[i] == before[i] by {
        assert(after.drop_last()[i] == after[i]);
    }
}

/// A request is handed to one middleware after the other and then to the handler of its route.
pub proof fn calls_go_in_turn(middlewares: nat, exchange: Exchange)
    ensures
        exchange.passed < middlewares ==> next_call(middlewares, exchange) == Call::Middleware(
            exchange.passed,
        ),
        exchange.passed >= middlewares ==> next_call(middlewares, exchange) == Call::Handler(
            exchange.route,
        ),
        exchange.passed < usize::MAX ==> advanced(exchange).passed == exchange.passed + 1,
        advanced(exchange).route == exchange.route,
{
}

} // verus!
