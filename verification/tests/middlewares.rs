use lime::api::Request;
use lime::auth::AuthContext;
use lime::middleware::ClientRateLimit;
use lime::server::{
    AuthMiddleware, CompressionMiddleware, CorsMiddleware, LoggingMiddleware, MiddlewareResult,
    RateLimitMiddleware, RequestSizeMiddleware, SecurityHeadersMiddleware, TimeoutMiddleware,
};
use lime::text_map::TextMap;
use lime::Response;

type PlainRequest = Request<(), (), ()>;

const SECOND: u64 = 1_000_000_000;

fn request(method: &str, headers: Vec<(&'static str, String)>, addr: Option<&str>) -> PlainRequest {
    let mut map = hyper::HeaderMap::new();
    for (name, value) in headers {
        map.append(name, value.parse::<hyper::header::HeaderValue>().unwrap());
    }
    Request::from_parts(
        method,
        "/p",
        None,
        map,
        addr.map(|a| a.to_string()),
        TextMap::new(),
        TextMap::new(),
        None,
        None,
        None,
    )
}

fn answer(result: MiddlewareResult) -> Option<Response> {
    match result {
        MiddlewareResult::Continue => None,
        MiddlewareResult::Response(response) => Some(response),
    }
}

fn goes_on(result: MiddlewareResult) -> bool {
    answer(result).is_none()
}

#[test]
fn a_preflight_is_answered() {
    let response = answer(CorsMiddleware.handle(&request("OPTIONS", vec![], None))).unwrap();
    assert_eq!(response.status().as_u16(), 204);
    assert_eq!(response.body(), "");
    assert_eq!(response.header("access-control-allow-origin"), Some("*".to_string()));
    assert!(goes_on(CorsMiddleware.handle(&request("GET", vec![], None))));
}

#[test]
fn a_line_is_logged() {
    let logged = LoggingMiddleware.line(&request("PATCH", vec![], Some("1.2.3.4:5")));
    assert_eq!(logged, "PATCH /p 1.2.3.4:5");
    assert_eq!(LoggingMiddleware.line(&request("GET", vec![], None)), "GET /p unknown");
    assert!(goes_on(LoggingMiddleware.handle(&request("GET", vec![], None))));
}

#[test]
fn tokens_are_required_where_that_is_asked() {
    let open = AuthMiddleware::new(false, "secret".to_string());
    assert!(goes_on(open.handle(&request("GET", vec![], None))));

    let closed = AuthMiddleware::new(true, "secret".to_string());
    let missing = answer(closed.handle(&request("GET", vec![], None))).unwrap();
    assert_eq!(missing.status().as_u16(), 401);
    assert_eq!(
        missing.body(),
        "{\"error\":\"Missing or invalid Authorization header\",\"status\":401}"
    );

    let token = AuthContext::new("secret").unwrap().create_token(9, None, "user", 600).unwrap();
    let bearer = vec![("authorization", format!("Bearer {}", token))];
    assert!(goes_on(closed.handle(&request("GET", bearer, None))));
    assert_eq!(closed.validate_token(&token).unwrap().sub, 9);

    let bearer = vec![("authorization", "Bearer nonsense".to_string())];
    let refused = answer(closed.handle(&request("GET", bearer, None))).unwrap();
    assert_eq!(refused.status().as_u16(), 401);
    assert_eq!(
        refused.body(),
        "{\"error\":\"Authentication failed: Invalid token: InvalidToken\",\"status\":401}"
    );
}

#[test]
fn a_decision_follows_the_outcome() {
    let claims =
        lime::auth::Claims { sub: 1, email: None, role: "user".to_string(), exp: 1, iat: 0 };
    assert!(goes_on(AuthMiddleware::conclude(Ok(claims))));
    let refused = answer(AuthMiddleware::conclude(Err("why".to_string()))).unwrap();
    assert_eq!(refused.body(), "{\"error\":\"Authentication failed: why\",\"status\":401}");
}

#[test]
fn a_client_is_limited_within_the_window() {
    let mut limit = ClientRateLimit::new();
    assert!(limit.check_and_record(2, 10, 0));
    assert!(limit.check_and_record(2, 10, SECOND));
    assert!(!limit.check_and_record(2, 10, 2 * SECOND));
    assert!(!limit.check_and_record(2, 10, 10 * SECOND - 1));
    assert!(limit.check_and_record(2, 10, 10 * SECOND));
    assert!(!limit.check_and_record(2, 10, 11 * SECOND - 1));
    assert!(limit.check_and_record(2, 10, 11 * SECOND));
    assert!(!ClientRateLimit::new().check_and_record(0, 10, 5));
}

#[test]
fn clients_do_not_share_a_limit() {
    let mut limiter = RateLimitMiddleware::new(1, 60);
    let one = request("GET", vec![], Some("1.1.1.1:1"));
    let two = request("GET", vec![], Some("2.2.2.2:2"));
    assert!(goes_on(limiter.handle(&one, 0)));
    assert!(goes_on(limiter.handle(&two, 0)));
    assert!(!goes_on(limiter.handle(&one, SECOND)));
    assert!(goes_on(limiter.handle(&one, 60 * SECOND)));

    let mut limiter = RateLimitMiddleware::new(1, 60);
    assert!(goes_on(limiter.handle(&one, 0)));
    let refused = answer(limiter.handle(&one, SECOND)).unwrap();
    assert_eq!(refused.status().as_u16(), 429);
    assert_eq!(refused.header("Retry-After"), Some("60".to_string()));
    assert_eq!(refused.header("content-type"), None);
    assert_eq!(
        refused.body(),
        "{\"error\":\"Rate limit exceeded\",\"retry_after_seconds\":60}"
    );
}

#[test]
fn a_client_is_known_by_its_first_address() {
    let limiter = RateLimitMiddleware::new(1, 1);
    let key = |value: &str, addr: Option<&str>| {
        limiter.get_client_key(&request("GET", vec![("x-forwarded-for", value.to_string())], addr))
    };
    assert_eq!(key(" 9.9.9.9 , 8.8.8.8", None), "9.9.9.9");
    assert_eq!(key("7.7.7.7", Some("1.1.1.1:1")), "7.7.7.7");
    assert_eq!(key("", Some("1.1.1.1:1")), "");
    assert_eq!(limiter.get_client_key(&request("GET", vec![], Some("1.1.1.1:1"))), "1.1.1.1:1");
    assert_eq!(limiter.get_client_key(&request("GET", vec![], None)), "unknown");
}

#[test]
fn large_requests_are_refused() {
    let limit = RequestSizeMiddleware::new(100);
    let says = |length: &str| {
        answer(limit.handle(&request("POST", vec![("content-length", length.to_string())], None)))
    };
    assert!(says("100").is_none());
    assert!(says("+100").is_none());
    assert!(says("many").is_none());
    assert!(says("99999999999999999999999").is_none());
    let refused = says("101").unwrap();
    assert_eq!(refused.status().as_u16(), 413);
    assert_eq!(
        refused.body(),
        "{\"error\":\"Request size exceeds maximum of 100 bytes\",\"status\":413}"
    );
    assert!(goes_on(limit.handle(&request("POST", vec![], None))));
}

#[test]
fn other_middleware_lets_requests_through() {
    let gzip = request("GET", vec![("accept-encoding", "br, gzip".to_string())], None);
    let deflate = request("GET", vec![("accept-encoding", "deflate".to_string())], None);
    let plain = request("GET", vec![("accept-encoding", "identity".to_string())], None);
    let compression = CompressionMiddleware::new(1024);
    assert!(compression.is_supported(&gzip));
    assert!(compression.is_supported(&deflate));
    assert!(!compression.is_supported(&plain));
    assert!(goes_on(compression.handle(&gzip)));
    assert!(goes_on(SecurityHeadersMiddleware.handle(&plain)));
    let timeout = TimeoutMiddleware::new(30);
    assert_eq!(timeout.timeout_seconds(), 30);
    assert!(goes_on(timeout.handle(&plain)));
}
