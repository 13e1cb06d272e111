//! Middleware that comes with the service.

use crate::api::{self, Request, Response};
use crate::auth::{self, AuthContext, AuthError, Claims};
use crate::http::{self, Method, StatusCode};
use crate::json::{self, JsonField, ObjectWriter, Scalar};
use crate::server::{self, MiddlewareResult};
use crate::text;
use crate::text_map::TextMap;
use crate::window;
use vstd::prelude::*;

verus! {

// ---------------------------------------------------------------------------------------------
// Other sites
// ---------------------------------------------------------------------------------------------

/// Answers the question of a browser whether another site may send a request.
pub struct CorsMiddleware;

impl CorsMiddleware {
    pub fn handle<D, R, X>(&self, request: &Request<D, R, X>) -> (r: MiddlewareResult)
        ensures
            if http::method_named(request.method@) == Method::Options {
                r matches MiddlewareResult::Response(response) && {
                    &&& response.code() == 204
                    &&& response.header_map() == server::cors_values(http::no_values())
                    &&& response.body_text() == Seq::<char>::empty()
                }
            } else {
                r is Continue
            },
    {
        if request.method() == Method::Options {
            MiddlewareResult::Response(server::add_cors(Response::no_content()))
        } else {
            MiddlewareResult::Continue
        }
    }
}

// ---------------------------------------------------------------------------------------------
// Logging
// ---------------------------------------------------------------------------------------------

/// Logs each request.
pub struct LoggingMiddleware;

/// The address that a request came from, as far as it is known.
pub open spec fn address_of(remote_addr: Option<String>) -> Seq<char> {
    match remote_addr {
        Some(addr) => addr@,
        None => "unknown"@,
    }
}

impl LoggingMiddleware {
    /// The line that is logged of a request: method, path and address.
    pub fn line<D, R, X>(&self, request: &Request<D, R, X>) -> (r: String)
        ensures
            r@ == request.method@ + seq![' '] + request.path@ + seq![' '] + address_of(
                request.remote_addr,
            ),
    {
        let mut line = request.method.clone();
        line.push(' ');
        line.append(request.path.as_str());
        line.push(' ');
        match &request.remote_addr {
            Some(addr) => line.append(addr.as_str()),
            None => line.append("unknown"),
        }
        proof {
            assert(line@ =~= request.method@ + seq![' '] + request.path@ + seq![' '] + address_of(
                request.remote_addr,
            ));
        }
        line
    }

    pub fn handle<D, R, X>(&self, _request: &Request<D, R, X>) -> (r: MiddlewareResult)
        ensures
            r is Continue,
    {
        MiddlewareResult::Continue
    }
}

// ---------------------------------------------------------------------------------------------
// Tokens
// ---------------------------------------------------------------------------------------------

/// Lets only requests with a valid token through, where that is required.
pub struct AuthMiddleware {
    required: bool,
    jwt_secret: String,
}

/// What is said of a request whose token was checked.
pub open spec fn token_answered(outcome: Result<Claims, String>, r: MiddlewareResult) -> bool {
    match outcome {
        Ok(_) => r is Continue,
        Err(reason) => r matches MiddlewareResult::Response(response) && response.is_error(
            401,
            "Authentication failed: "@ + reason@,
        ),
    }
}

/// Whether an outcome is right for validating a token under a secret: what comes of checking it,
/// with the reason put into words.
pub open spec fn token_validated(
    token: Seq<char>,
    secret: Seq<char>,
    r: Result<Claims, String>,
) -> bool {
    exists|outcome: Result<Claims, AuthError>| #[trigger]
        auth::checked(token, secret, outcome) && match outcome {
            Ok(claims) => r == Ok::<_, String>(claims),
            Err(e) => r matches Err(reason) && reason@ == "Invalid token: "@ + e.spec_message(),
        }
}

impl AuthMiddleware {
    /// Whether a token is required.
    pub closed spec fn required(&self) -> bool {
        self.required
    }

    /// The secret that tokens are checked under.
    pub closed spec fn secret(&self) -> Seq<char> {
        self.jwt_secret@
    }

    pub fn new(required: bool, jwt_secret: String) -> (r: AuthMiddleware)
        ensures
            r.required() == required,
            r.secret() == jwt_secret@,
    {
        AuthMiddleware { required, jwt_secret }
    }

    /// The token of a request.
    pub fn extract_token<D, R, X>(&self, request: &Request<D, R, X>) -> (r: Option<String>)
        ensures
            text::optional_text(r) == api::bearer_token(request.header_map()),
    {
        api::read_bearer_token(&request.headers)
    }

    /// Checks a token.
    pub fn validate_token(&self, token: &str) -> (r: Result<Claims, String>)
        ensures
            token_validated(token@, self.secret(), r),
    {
        match auth::verify(token, self.jwt_secret.as_str()) {
            Ok(claims) => {
                assert(auth::checked(token@, self.secret(), Ok(claims)));
                Ok(claims)
            },
            Err(e) => {
                let reason = e.message();
                assert(auth::checked(token@, self.secret(), Err(e)));
                Err(text::concat("Invalid token: ", reason.as_str()))
            },
        }
    }

    /// Decides on a request whose token was checked.
    pub fn conclude(outcome: Result<Claims, String>) -> (r: MiddlewareResult)
        ensures
            token_answered(outcome, r),
    {
        match outcome {
            Ok(_) => MiddlewareResult::Continue,
            Err(reason) => {
                let message = text::concat("Authentication failed: ", reason.as_str());
                MiddlewareResult::Response(Response::unauthorized(message.as_str()))
            },
        }
    }

    pub fn handle<D, R, X>(&self, request: &Request<D, R, X>) -> (r: MiddlewareResult)
        ensures
            !self.required() ==> r is Continue,
            self.required() ==> match api::bearer_token(request.header_map()) {
                None => r matches MiddlewareResult::Response(response) && response.is_error(
                    401,
                    "Missing or invalid Authorization header"@,
                ),
                Some(token) => exists|outcome: Result<Claims, String>|
                    token_validated(token, self.secret(), outcome) && #[trigger] token_answered(
                        outcome,
                        r,
                    ),
            },
    {
        if !self.required {
            return MiddlewareResult::Continue;
        }
        match self.extract_token(request) {
            Some(token) => {
                let outcome = self.validate_token(token.as_str());
                AuthMiddleware::conclude(outcome)
            },
            None => MiddlewareResult::Response(
                Response::unauthorized("Missing or invalid Authorization header"),
            ),
        }
    }
}

// ---------------------------------------------------------------------------------------------
// Limiting the rate
// ---------------------------------------------------------------------------------------------

/// The points in time at which the requests of one client were let through, as far as they still
/// count.
pub struct ClientRateLimit {
    requests: Vec<u64>,
}

impl View for ClientRateLimit {
    type V = Seq<u64>;

    closed spec fn view(&self) -> Seq<u64> {
        self.requests@
    }
}

/// Whether a request that comes now is let through.
pub open spec fn is_let_through(before: Seq<u64>, max: nat, window: nat, now: u64) -> bool {
    window::recent(before, now, window).len() < max
}

/// What counts of the requests that were let through, once a request has come.
pub open spec fn limit_after(before: Seq<u64>, max: nat, window: nat, now: u64) -> Seq<u64> {
    let kept = window::recent(before, now, window);
    if is_let_through(before, max, window, now) {
        kept.push(now)
    } else {
        kept
    }
}

impl ClientRateLimit {
    pub fn new() -> (r: ClientRateLimit)
        ensures
            r@ == Seq::<u64>::empty(),
    {
        ClientRateLimit { requests: Vec::new() }
    }

    /// Tells whether a request that comes now is let through, and counts it if so. Only what was
    /// let through within the window counts: it is let through where that is fewer than the limit.
    pub fn check_and_record(&mut self, max_requests: usize, window_seconds: u64, now: u64) -> (r:
        bool)
        ensures
            r == is_let_through(
                old(self)@,
                max_requests as nat,
                window::seconds_window(window_seconds),
                now,
            ),
            final(self)@ == limit_after(
                old(self)@,
                max_requests as nat,
                window::seconds_window(window_seconds),
                now,
            ),
            r <==> old(self)@.filter(|t: u64| t + window_seconds * 1_000_000_000 > now).len()
                < max_requests,
            final(self)@ == if r {
                old(self)@.filter(|t: u64| t + window_seconds * 1_000_000_000 > now).push(now)
            } else {
                old(self)@.filter(|t: u64| t + window_seconds * 1_000_000_000 > now)
            },
    {
        proof {
            window::recent_are_those_within(self@, now, window_seconds);
        }
        let length = window::window_of(window_seconds);
        proof {
            assert(length <= u64::MAX * window::NANOS_PER_SECOND) by (nonlinear_arith)
                requires
                    length == window_seconds * window::NANOS_PER_SECOND,
                    window_seconds <= u64::MAX,
                    window::NANOS_PER_SECOND == 1_000_000_000,
            ;
        }
        self.requests = window::keep_recent(&self.requests, now, length);
        if self.requests.len() >= max_requests {
            return false;
        }
        self.requests.push(now);
        true
    }
}

/// What counts once requests have come at some points in time, one after the other.
pub open spec fn limit_state(arrivals: Seq<u64>, max: nat, window: nat) -> Seq<u64>
    decreases arrivals.len(),
{
    if arrivals.len() == 0 {
        Seq::empty()
    } else {
        limit_after(limit_state(arrivals.drop_last(), max, window), max, window, arrivals.last())
    }
}

/// The points in time at which a request was let through, of all at which one came.
pub open spec fn let_through(arrivals: Seq<u64>, max: nat, window: nat) -> Seq<u64>
    decreases arrivals.len(),
{
    if arrivals.len() == 0 {
        Seq::empty()
    } else {
        let before = arrivals.drop_last();
        if is_let_through(limit_state(before, max, window), max, window, arrivals.last()) {
            let_through(before, max, window).push(arrivals.last())
        } else {
            let_through(before, max, window)
        }
    }
}

proof fn lemma_limit_state(arrivals: Seq<u64>, max: nat, window: nat)
    requires
        window::in_order(arrivals),
    ensures
        window::in_order(let_through(arrivals, max, window)),
        arrivals.len() > 0 ==> (forall|i: int|
            0 <= i < let_through(arrivals, max, window).len() ==> #[trigger] let_through(
                arrivals,
                max,
                window,
            )[i] <= arrivals.last()),
        arrivals.len() == 0 ==> let_through(arrivals, max, window).len() == 0 && limit_state(
            arrivals,
            max,
            window,
        ).len() == 0,
        forall|later: u64|
            arrivals.len() > 0 && later >= arrivals.last() ==> #[trigger] window::recent(
                limit_state(arrivals, max, window),
                later,
                window,
            ) == window::recent(let_through(arrivals, max, window), later, window),
    decreases arrivals.len(),
{
    if arrivals.len() > 0 {
        let before = arrivals.drop_last();
        let now = arrivals.last();
        lemma_limit_state(before, max, window);
        let passed = let_through(before, max, window);
        let state = limit_state(before, max, window);
        let all = let_through(arrivals, max, window);
        if before.len() > 0 {
            assert(before.last() <= now) by {
                assert(arrivals[arrivals.len() - 2] <= arrivals[arrivals.len() - 1]);
            }
        }
        assert(window::recent(state, now, window) == window::recent(passed, now, window)) by {
            if before.len() == 0 {
                assert(state =~= passed);
            }
        }
        assert(window::in_order(all)) by {
            assert forall|i: int, j: int| 0 <= i <= j < all.len() implies #[trigger] all[i]
                <= #[trigger] all[j] by {
                if j < passed.len() {
                    assert(passed[i] <= passed[j]);
                } else if i < passed.len() {
                    assert(passed[i] <= before.last());
                }
            }
        }
        assert forall|later: u64| later >= now implies #[trigger] window::recent(
            limit_state(arrivals, max, window),
            later,
            window,
        ) == window::recent(all, later, window) by {
            lemma_recent_twice(passed, now, later, window);
            let kept = window::recent(passed, now, window);
            if is_let_through(state, max, window, now) {
                assert(kept.push(now).drop_last() =~= kept);
                assert(passed.push(now).drop_last() =~= passed);
            }
        }
        assert forall|i: int| 0 <= i < all.len() implies #[trigger] all[i] <= now by {
            if i < passed.len() {
                assert(passed[i] <= before.last());
            }
        }
    }
}

/// What lies within a window that ends later is found among what lies within one that ends
/// earlier.
proof fn lemma_recent_twice(times: Seq<u64>, now: u64, later: u64, window: nat)
    requires
        now <= later,
    ensures
        window::recent(window::recent(times, now, window), later, window) == window::recent(
            times,
            later,
            window,
        ),
{
    window::recent_twice(times, now, later, window);
}

/// However the requests of a client come, no more of them than the limit are let through within a
/// window: from one that is let through to the one that is let through so many later, at least
/// the length of the window goes by.
pub proof fn the_rate_is_limited(arrivals: Seq<u64>, max: nat, window: nat, i: int)
    requires
        window::in_order(arrivals),
        0 <= i,
        i + max < let_through(arrivals, max, window).len(),
    ensures
        let_through(arrivals, max, window)[i] + window <= let_through(arrivals, max, window)[i
            + max],
    decreases arrivals.len(),
{
    let before = arrivals.drop_last();
    let now = arrivals.last();
    let passed = let_through(before, max, window);
    let state = limit_state(before, max, window);
    let all = let_through(arrivals, max, window);
    lemma_limit_state(before, max, window);
    if i + max < passed.len() {
        the_rate_is_limited(before, max, window, i);
        assert(all[i] == passed[i] && all[i + max] == passed[i + max]);
    } else {
        assert(is_let_through(state, max, window, now));
        assert(i + max == passed.len() && all[i + max] == now);
        if before.len() > 0 {
            assert(arrivals[arrivals.len() - 2] <= arrivals[arrivals.len() - 1]);
        } else {
            assert(state =~= passed);
        }
        assert(window::recent(state, now, window) == window::recent(passed, now, window));
        window::recent_are_the_last(passed, now, window);
        if max > 0 {
            assert(all[i] == passed[i]);
            assert(!window::within(passed[i], now, window));
        }
    }
}

/// Whether a request is let through is decided by those that were let through before it, when the
/// requests come one after the other: it is where there were fewer than the limit in all, or where
/// the one that was let through so many before lies the length of the window back.
pub proof fn who_is_let_through(arrivals: Seq<u64>, max: nat, window: nat, now: u64)
    requires
        window::in_order(arrivals.push(now)),
        max > 0,
    ensures
        ({
            let passed = let_through(arrivals, max, window);
            let_through(arrivals.push(now), max, window) == if passed.len() < max || passed[(
            passed.len() - max) as int] + window <= now {
                passed.push(now)
            } else {
                passed
            }
        }),
{
    let all = arrivals.push(now);
    let passed = let_through(arrivals, max, window);
    let state = limit_state(arrivals, max, window);
    assert(all.drop_last() =~= arrivals);
    assert forall|i: int, j: int| 0 <= i <= j < arrivals.len() implies #[trigger] arrivals[i]
        <= #[trigger] arrivals[j] by {
        assert(all[i] <= all[j]);
    }
    lemma_limit_state(arrivals, max, window);
    if arrivals.len() > 0 {
        assert(all[arrivals.len() - 1] <= all[arrivals.len() as int]);
    } else {
        assert(state =~= passed);
    }
    assert(window::recent(state, now, window) == window::recent(passed, now, window));
    window::recent_are_the_last(passed, now, window);
    let recent = window::recent(passed, now, window);
    if passed.len() >= max {
        let k = passed.len() - max;
        assert(window::within(passed[k], now, window) <==> k >= passed.len() - recent.len());
    }
}

/// Where no one is let through, no one is.
pub proof fn a_limit_of_none_lets_none_through(arrivals: Seq<u64>, window: nat)
    ensures
        let_through(arrivals, 0, window).len() == 0,
    decreases arrivals.len(),
{
    if arrivals.len() > 0 {
        a_limit_of_none_lets_none_through(arrivals.drop_last(), window);
    }
}

/// The first requests of a client, as many as the limit, are all let through.
pub proof fn the_first_are_let_through(arrivals: Seq<u64>, max: nat, window: nat)
    requires
        window::in_order(arrivals),
        arrivals.len() <= max,
    ensures
        let_through(arrivals, max, window) == arrivals,
    decreases arrivals.len(),
{
    if arrivals.len() > 0 {
        let before = arrivals.drop_last();
        assert(before.push(arrivals.last()) =~= arrivals);
        the_first_are_let_through(before, max, window);
        who_is_let_through(before, max, window, arrivals.last());
    }
}

/// A client of whom nothing was let through for the length of the window is let through again,
/// unless no one is.
pub proof fn waiting_helps(before: Seq<u64>, max: nat, window: nat, now: u64)
    requires
        max > 0,
        forall|i: int| 0 <= i < before.len() ==> #[trigger] before[i] + window <= now,
    ensures
        is_let_through(before, max, window, now),
    decreases before.len(),
{
    if before.len() > 0 {
        assert(before[before.len() - 1] + window <= now);
        assert forall|i: int| 0 <= i < before.drop_last().len() implies #[trigger] before.drop_last()[i]
            + window <= now by {
            assert(before[i] + window <= now);
        }
        waiting_helps(before.drop_last(), max, window, now);
    }
}

/// Lets only so many requests of a client through within a time window.
pub struct RateLimitMiddleware {
    max_requests: usize,
    window_seconds: u64,
    clients: TextMap<ClientRateLimit>,
}

/// The text by which a client is told from others: the first address of those that the request was
/// forwarded for, else the address that it came from.
pub open spec fn client_key(
    headers: Map<Seq<char>, Seq<Seq<u8>>>,
    remote_addr: Option<String>,
) -> Seq<char> {
    match http::first_text(headers, "X-Forwarded-For"@) {
        Some(Some(forwarded)) => text::trim(text::split(forwarded, ',')[0]),
        _ => address_of(remote_addr),
    }
}

/// The body that refuses a request for now.
pub open spec fn rate_limit_body(window_seconds: u64) -> Seq<char> {
    json::object_text(
        seq![
            ("error"@, JsonField::Text("Rate limit exceeded"@)),
            ("retry_after_seconds"@, JsonField::Unsigned(window_seconds)),
        ],
    )
}

/// Whether a response refuses a request for now.
pub open spec fn refuses_for_now(response: Response, window_seconds: u64) -> bool {
    &&& response.code() == 429
    &&& response.header_map() == http::no_values().insert(
        "retry-after"@,
        seq![vstd::utf8::encode_utf8(text::decimal(window_seconds as nat))],
    )
    &&& response.body_text() == rate_limit_body(window_seconds)
}

proof fn lemma_decimal_is_header_value(n: nat)
    ensures
        http::is_header_value(text::decimal(n)),
    decreases n,
{
    if n >= 10 {
        lemma_decimal_is_header_value(n / 10);
    }
}

/// The requests that count for a client.
pub open spec fn counted(limits: Map<Seq<char>, Seq<u64>>, key: Seq<char>) -> Seq<u64> {
    if limits.contains_key(key) {
        limits[key]
    } else {
        Seq::empty()
    }
}

impl RateLimitMiddleware {
    /// The number of requests that a client has within the window.
    pub closed spec fn max(&self) -> nat {
        self.max_requests as nat
    }

    /// The length of the window, in seconds.
    pub closed spec fn seconds(&self) -> u64 {
        self.window_seconds
    }

    /// What counts of the requests of each client.
    pub closed spec fn limits(&self) -> Map<Seq<char>, Seq<u64>> {
        self.clients@.map_values(|c: ClientRateLimit| c@)
    }

    pub fn new(max_requests: usize, window_seconds: u64) -> (r: RateLimitMiddleware)
        ensures
            r.max() == max_requests,
            r.seconds() == window_seconds,
            r.limits() == Map::<Seq<char>, Seq<u64>>::empty(),
    {
        let r = RateLimitMiddleware { max_requests, window_seconds, clients: TextMap::new() };
        proof {
            assert(r.limits() =~= Map::<Seq<char>, Seq<u64>>::empty());
        }
        r
    }

    /// The text by which the client of a request is told from others.
    pub fn get_client_key<D, R, X>(&self, request: &Request<D, R, X>) -> (r: String)
        ensures
            r@ == client_key(request.header_map(), request.remote_addr),
    {
        match http::header_text(&request.headers, "X-Forwarded-For") {
            Some(Some(forwarded)) => {
                let parts = text::split_text(forwarded.as_str(), ',');
                proof {
                    text::split_joins_back(forwarded@, ',');
                    assert(text::texts(parts@)[0] == parts@[0]@);
                }
                return text::trim_text(parts[0].as_str());
            },
            _ => {},
        }
        match &request.remote_addr {
            Some(addr) => addr.clone(),
            None => "unknown".to_owned(),
        }
    }

    /// Tells whether a request that comes now is let through, and counts it for its client if so.
    /// Other clients are not concerned.
    pub fn handle<D, R, X>(&mut self, request: &Request<D, R, X>, now: u64) -> (r:
        MiddlewareResult)
        ensures
            final(self).max() == old(self).max(),
            final(self).seconds() == old(self).seconds(),
            ({
                let key = client_key(request.header_map(), request.remote_addr);
                let window = window::seconds_window(old(self).seconds());
                let before = counted(old(self).limits(), key);
                &&& final(self).limits() == old(self).limits().insert(
                    key,
                    limit_after(before, old(self).max(), window, now),
                )
                &&& if is_let_through(before, old(self).max(), window, now) {
                    r is Continue
                } else {
                    r matches MiddlewareResult::Response(response) && refuses_for_now(
                        response,
                        old(self).seconds(),
                    )
                }
            }),
    {
        let key = self.get_client_key(request);
        let ghost clients_before = self.clients@;
        let mut limit = match self.clients.remove(key.as_str()) {
            Some(limit) => limit,
            None => ClientRateLimit::new(),
        };
        let ghost counted_before = limit@;
        let allowed = limit.check_and_record(self.max_requests, self.window_seconds, now);
        let ghost counted_after = limit@;
        let ghost text = key@;
        self.clients.insert(key, limit);
        proof {
            assert(counted_before == counted(old(self).limits(), text));
            assert(self.limits() =~= old(self).limits().insert(text, counted_after));
        }
        if allowed {
            return MiddlewareResult::Continue;
        }
        let seconds = text::u64_text(self.window_seconds);
        proof {
            lemma_decimal_is_header_value(self.window_seconds as nat);
            http::lemma_header_names();
        }
        let writer = ObjectWriter::new().member("error", json::text_scalar("Rate limit exceeded")).member(
            "retry_after_seconds",
            Scalar::Unsigned(self.window_seconds),
        );
        proof {
            assert(writer.members() =~= seq![
                ("error"@, JsonField::Text("Rate limit exceeded"@)),
                ("retry_after_seconds"@, JsonField::Unsigned(self.window_seconds)),
            ]);
        }
        let body = writer.finish();
        let response = Response::new(StatusCode::new(429)).with_header(
            "retry-after",
            seconds.as_str(),
        ).with_body(body);
        MiddlewareResult::Response(response)
    }
}

/// What counts for each client once requests of several clients have come, one after the other.
pub open spec fn limits_after(arrivals: Seq<(Seq<char>, u64)>, max: nat, window: nat) -> Map<
    Seq<char>,
    Seq<u64>,
>
    decreases arrivals.len(),
{
    if arrivals.len() == 0 {
        Map::empty()
    } else {
        let before = limits_after(arrivals.drop_last(), max, window);
        let (key, now) = arrivals.last();
        before.insert(key, limit_after(counted(before, key), max, window, now))
    }
}

/// The points in time at which the requests of one client came.
pub open spec fn arrivals_of(arrivals: Seq<(Seq<char>, u64)>, key: Seq<char>) -> Seq<u64>
    decreases arrivals.len(),
{
    if arrivals.len() == 0 {
        Seq::empty()
    } else {
        let before = arrivals_of(arrivals.drop_last(), key);
        if arrivals.last().0 == key {
            before.push(arrivals.last().1)
        } else {
            before
        }
    }
}

/// Each client has its own limit: what counts for it depends only on its own requests.
pub proof fn clients_are_limited_apart(
    arrivals: Seq<(Seq<char>, u64)>,
    max: nat,
    window: nat,
    key: Seq<char>,
)
    ensures
        counted(limits_after(arrivals, max, window), key) == limit_state(
            arrivals_of(arrivals, key),
            max,
            window,
        ),
    decreases arrivals.len(),
{
    if arrivals.len() > 0 {
        let front = arrivals.drop_last();
        clients_are_limited_apart(front, max, window, key);
        if arrivals.last().0 == key {
            let times = arrivals_of(arrivals, key);
            assert(times.drop_last() =~= arrivals_of(front, key));
        }
    }
}

// ---------------------------------------------------------------------------------------------
// Time and size
// ---------------------------------------------------------------------------------------------

/// Names the time that a request may take.
pub struct TimeoutMiddleware {
    timeout_seconds: u64,
}

impl TimeoutMiddleware {
    /// The time that a request may take, in seconds.
    pub closed spec fn seconds(&self) -> u64 {
        self.timeout_seconds
    }

    pub fn new(timeout_seconds: u64) -> (r: TimeoutMiddleware)
        ensures
            r.seconds() == timeout_seconds,
    {
        TimeoutMiddleware { timeout_seconds }
    }

    /// The time that a request may take, in seconds.
    pub fn timeout_seconds(&self) -> (r: u64)
        ensures
            r == self.seconds(),
    {
        self.timeout_seconds
    }

    pub fn handle<D, R, X>(&self, _request: &Request<D, R, X>) -> (r: MiddlewareResult)
        ensures
            r is Continue,
    {
        MiddlewareResult::Continue
    }
}

/// Refuses requests that say that they are too large.
pub struct RequestSizeMiddleware {
    max_size: usize,
}

/// The length that a request says its body has, if it says one that can be told.
pub open spec fn stated_length(headers: Map<Seq<char>, Seq<Seq<u8>>>) -> Option<nat> {
    match http::first_text(headers, "content-length"@) {
        Some(Some(value)) => match text::unsigned_value(value) {
            Some(n) => if n <= usize::MAX {
                Some(n)
            } else {
                None
            },
            None => None,
        },
        _ => None,
    }
}

/// The message of a request that is too large.
pub open spec fn too_large_message(max_size: nat) -> Seq<char> {
    "Request size exceeds maximum of "@ + text::decimal(max_size) + " bytes"@
}

impl RequestSizeMiddleware {
    /// The size that a request may have.
    pub closed spec fn max(&self) -> nat {
        self.max_size as nat
    }

    pub fn new(max_size_bytes: usize) -> (r: RequestSizeMiddleware)
        ensures
            r.max() == max_size_bytes,
    {
        RequestSizeMiddleware { max_size: max_size_bytes }
    }

    pub fn handle<D, R, X>(&self, request: &Request<D, R, X>) -> (r: MiddlewareResult)
        ensures
            match stated_length(request.header_map()) {
                Some(length) => if length > self.max() {
                    r matches MiddlewareResult::Response(response) && response.is_error(
                        413,
                        too_large_message(self.max()),
                    )
                } else {
                    r is Continue
                },
                None => r is Continue,
            },
    {
        let value = match http::header_text(&request.headers, "content-length") {
            Some(Some(value)) => value,
            _ => return MiddlewareResult::Continue,
        };
        match text::parse_usize(value.as_str()) {
            Some(length) => if length > self.max_size {
                let mut message = "Request size exceeds maximum of ".to_owned();
                let limit = text::u64_text(self.max_size as u64);
                message.append(limit.as_str());
                message.append(" bytes");
                MiddlewareResult::Response(
                    Response::error(StatusCode::new(413), message.as_str()),
                )
            } else {
                MiddlewareResult::Continue
            },
            None => MiddlewareResult::Continue,
        }
    }
}

// ---------------------------------------------------------------------------------------------
// Security headers and compression
// ---------------------------------------------------------------------------------------------

/// Lets every request through.
pub struct SecurityHeadersMiddleware;

impl SecurityHeadersMiddleware {
    pub fn handle<D, R, X>(&self, _request: &Request<D, R, X>) -> (r: MiddlewareResult)
        ensures
            r is Continue,
    {
        MiddlewareResult::Continue
    }
}

/// Takes note of the clients that understand compressed responses.
pub struct CompressionMiddleware {
    min_size: usize,
}

/// Whether a client says that it understands compressed responses.
pub open spec fn understands_compression(headers: Map<Seq<char>, Seq<Seq<u8>>>) -> bool {
    match http::first_text(headers, "accept-encoding"@) {
        Some(Some(value)) => text::holds(value, "gzip"@) || text::holds(value, "deflate"@),
        _ => false,
    }
}

impl CompressionMiddleware {
    /// The size from which on a response is worth compressing.
    pub closed spec fn min(&self) -> nat {
        self.min_size as nat
    }

    pub fn new(min_size_bytes: usize) -> (r: CompressionMiddleware)
        ensures
            r.min() == min_size_bytes,
    {
        CompressionMiddleware { min_size: min_size_bytes }
    }

    /// Whether the client of a request understands compressed responses.
    pub fn is_supported<D, R, X>(&self, request: &Request<D, R, X>) -> (r: bool)
        ensures
            r == understands_compression(request.header_map()),
    {
        match http::header_text(&request.headers, "accept-encoding") {
            Some(Some(value)) => text::has_part(value.as_str(), "gzip") || text::has_part(
                value.as_str(),
                "deflate",
            ),
            _ => false,
        }
    }

    pub fn handle<D, R, X>(&self, _request: &Request<D, R, X>) -> (r: MiddlewareResult)
        ensures
            r is Continue,
    {
        MiddlewareResult::Continue
    }
}

// ---------------------------------------------------------------------------------------------
// What the headers of a request come to
// ---------------------------------------------------------------------------------------------

/// A client is told from others by the first of the addresses that its request was forwarded for,
/// without the white space around it, and where none is named by the address that it came from.
pub proof fn the_first_address_names_the_client(
    headers: Map<Seq<char>, Seq<Seq<u8>>>,
    remote_addr: Option<String>,
    first: Seq<char>,
    others: Seq<char>,
)
    requires
        !first.contains(','),
    ensures
        http::first_text(headers, "X-Forwarded-For"@) == Some(Some(first)) ==> client_key(
            headers,
            remote_addr,
        ) == text::trim(first),
        http::first_text(headers, "X-Forwarded-For"@) == Some(Some(first.push(',') + others))
            ==> client_key(headers, remote_addr) == text::trim(first),
        !(http::first_text(headers, "X-Forwarded-For"@) matches Some(Some(_))) ==> match remote_addr {
            Some(address) => client_key(headers, remote_addr) == address@,
            None => client_key(headers, remote_addr) == "unknown"@,
        },
{
    text::a_separator_cuts(first, others, ',');
}

/// A request that is refused for now is told in how many seconds to come again.
pub proof fn a_refused_client_is_told_when_to_come_again(response: Response, window_seconds: u64)
    requires
        refuses_for_now(response, window_seconds),
    ensures
        response.code() == 429,
        http::first_text(response.header_map(), "retry-after"@) == Some(
            Some(text::decimal(window_seconds as nat)),
        ),
        exists|members: Seq<(Seq<char>, JsonField)>|
            {
                &&& response.body_text() == #[trigger] json::object_text(members)
                &&& members.len() == 2
                &&& members[0] == ("error"@, JsonField::Text("Rate limit exceeded"@))
                &&& members[1] == ("retry_after_seconds"@, JsonField::Unsigned(window_seconds))
            },
{
    http::lemma_header_names();
    text::decimals_are_read_back(window_seconds as nat);
    let value = text::decimal(window_seconds as nat);
    let name = "retry-after"@;
    assert forall|i: int| 0 <= i < value.len() implies (' ' <= #[trigger] value[i] <= '~')
        || value[i] == '\t' by {
        assert('0' <= value[i] <= '9');
    }
    http::headers_are_read_back(http::no_values(), name, name, value);
    assert(response.header_map() =~= http::with_value(http::no_values(), name, value));
    let members = seq![
        ("error"@, JsonField::Text("Rate limit exceeded"@)),
        ("retry_after_seconds"@, JsonField::Unsigned(window_seconds)),
    ];
    assert(response.body_text() == json::object_text(members));
}

/// A request that says in decimal how long its body is says just that, as far as the number can be
/// told; one that says nothing, or no number, says no length.
pub proof fn a_stated_length_is_read(headers: Map<Seq<char>, Seq<Seq<u8>>>, length: nat)
    ensures
        http::first_text(headers, "content-length"@) == Some(Some(text::decimal(length)))
            ==> stated_length(headers) == if length <= usize::MAX {
            Some(length)
        } else {
            None
        },
        !(http::first_text(headers, "content-length"@) matches Some(Some(_))) ==> stated_length(
            headers,
        ) is None,
        forall|value: Seq<char>|
            http::first_text(headers, "content-length"@) == Some(Some(value)) && (exists|i: int|
                0 < i < value.len() && !('0' <= #[trigger] value[i] <= '9')) ==> stated_length(
                headers,
            ) is None,
{
    text::decimals_are_read_back(length);
    assert forall|value: Seq<char>|
        http::first_text(headers, "content-length"@) == Some(Some(value)) && (exists|i: int|
            0 < i < value.len() && !('0' <= #[trigger] value[i] <= '9')) implies stated_length(
        headers,
    ) is None by {
        let i = choose|i: int| 0 < i < value.len() && !('0' <= #[trigger] value[i] <= '9');
        let digits = text::unsigned_digits(value);
        if value[0] == '+' {
            assert(digits[i - 1] == value[i]);
            assert(!text::is_digit(digits[i - 1]));
        } else {
            assert(!text::is_digit(digits[i]));
        }
    }
}

/// A client understands compression where one of the two kinds is named anywhere in what it accepts,
/// and only there.
pub proof fn compression_is_named(
    headers: Map<Seq<char>, Seq<Seq<u8>>>,
    before: Seq<char>,
    after: Seq<char>,
)
    ensures
        http::first_text(headers, "accept-encoding"@) == Some(Some(before + "gzip"@ + after))
            ==> understands_compression(headers),
        http::first_text(headers, "accept-encoding"@) == Some(Some(before + "deflate"@ + after))
            ==> understands_compression(headers),
        understands_compression(headers) ==> exists|a: Seq<char>, b: Seq<char>|
            http::first_text(headers, "accept-encoding"@) == Some(
                Some(#[trigger] (a + "gzip"@ + b)),
            ) || http::first_text(headers, "accept-encoding"@) == Some(
                Some(a + "deflate"@ + b),
            ),
{
    text::a_part_is_held(before, "gzip"@, after);
    text::a_part_is_held(before, "deflate"@, after);
    if understands_compression(headers) {
        let value = http::first_text(headers, "accept-encoding"@)->0->0;
        if text::holds(value, "gzip"@) {
            let (a, b) = text::what_is_held_is_a_part(value, "gzip"@);
            assert(value == a + "gzip"@ + b);
        } else {
            let (a, b) = text::what_is_held_is_a_part(value, "deflate"@);
            assert(value == a + "deflate"@ + b);
            let other = a + "gzip"@ + b;
        }
    }
}

/// A request whose token holds goes on, and any other is told why it does not.
pub proof fn only_a_valid_token_goes_on(outcome: Result<Claims, String>, r: MiddlewareResult)
    requires
        token_answered(outcome, r),
    ensures
        r is Continue <==> outcome is Ok,
        r is Response ==> r->Response_0.is_error(
            401,
            "Authentication failed: "@ + outcome->Err_0@,
        ),
{
}

/// Validating a token that was issued gives what it says for as long as it is good, and says that it
/// has expired from then on.
pub proof fn issued_tokens_are_validated(
    token: Seq<char>,
    secret: Seq<char>,
    made: crate::claims::ClaimsView,
    r: Result<Claims, String>,
)
    requires
        token_validated(token, secret, r),
        auth::issued(token, secret, made),
    ensures
        r is Ok ==> r->Ok_0@ == made,
        r is Err ==> exists|reason: Seq<char>| r->Err_0@ == #[trigger] ("Invalid token: "@ + reason),
{
    let outcome = choose|outcome: Result<Claims, AuthError>| #[trigger]
        auth::checked(token, secret, outcome) && match outcome {
            Ok(claims) => r == Ok::<_, String>(claims),
            Err(e) => r matches Err(reason) && reason@ == "Invalid token: "@ + e.spec_message(),
        };
    let now = choose|now: u64| #[trigger] auth::checked_at(token, secret, now, outcome);
    auth::tokens_give_their_claims_back(token, secret, made, now, outcome);
    match outcome {
        Ok(_) => {},
        Err(e) => {
            assert(r->Err_0@ == "Invalid token: "@ + e.spec_message());
        },
    }
}

/// A token that cannot be read is not validated, and the reason is named.
pub proof fn other_tokens_are_not_validated(
    token: Seq<char>,
    secret: Seq<char>,
    reason: Seq<char>,
    r: Result<Claims, String>,
)
    requires
        token_validated(token, secret, r),
        auth::jwt_read(token, secret, None) == Err::<Seq<char>, Seq<char>>(reason),
    ensures
        r is Err,
        r->Err_0@ == "Invalid token: "@ + reason,
{
}

/// A request that is too large is told the limit: the message names it in decimal, between a text of
/// 32 characters and one of six.
pub proof fn the_limit_is_named(max_size: nat)
    ensures
        ({
            let message = too_large_message(max_size);
            &&& message.len() > 38
            &&& message.take(32) == "Request size exceeds maximum of "@
            &&& message.skip(message.len() - 6) == " bytes"@
            &&& text::unsigned_value(message.subrange(32, message.len() - 6)) == Some(max_size)
        }),
{
    reveal_strlit("Request size exceeds maximum of ");
    reveal_strlit(" bytes");
    let message = too_large_message(max_size);
    text::decimals_are_read_back(max_size);
    assert(message.take(32) =~= "Request size exceeds maximum of "@);
    assert(message.skip(message.len() - 6) =~= " bytes"@);
    assert(message.subrange(32, message.len() - 6) =~= text::decimal(max_size));
}

/// One more request of a client counts for that client from the moment in which it is let through;
/// one that is refused counts for no one.
pub proof fn one_more_request_is_decided(before: Seq<u64>, max: nat, seconds: u64, now: u64)
    ensures
        ({
            let window = window::seconds_window(seconds);
            let kept = before.filter(|t: u64| t + seconds * 1_000_000_000 > now);
            &&& is_let_through(before, max, window, now) <==> kept.len() < max
            &&& kept.len() < max ==> limit_after(before, max, window, now) == kept.push(now)
            &&& kept.len() >= max ==> limit_after(before, max, window, now) == kept
        }),
{
    window::recent_are_those_within(before, now, seconds);
}

/// A client of which no request was counted yet starts without any, whatever others did.
pub proof fn a_new_client_starts_afresh(
    limits: Map<Seq<char>, Seq<u64>>,
    key: Seq<char>,
    other: Seq<char>,
    times: Seq<u64>,
)
    ensures
        !limits.contains_key(key) ==> counted(limits, key) == Seq::<u64>::empty(),
        counted(limits.insert(key, times), key) == times,
        other != key ==> counted(limits.insert(key, times), other) == counted(limits, other),
{
}

} // verus!
