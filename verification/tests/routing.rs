use lime::api::{Request, Response};
use lime::http::{Method, StatusCode};
use lime::server::{parse_pattern, Call, MiddlewareResult, Router, Segment};
use lime::text_map::TextMap;

type PlainRequest = Request<(), (), ()>;
type Handler = fn(&PlainRequest) -> Response;
type Asked = fn(&PlainRequest) -> MiddlewareResult;

fn serve(router: &Router<Handler, Asked>, method: &str, target: &str) -> Response {
    let (path, query) = match target.split_once('?') {
        Some((path, query)) => (path, Some(query)),
        None => (target, None),
    };
    let (mut exchange, params) = match router.handle_request(method, path) {
        Ok(found) => found,
        Err(response) => return response,
    };
    let request = Request::from_parts(
        method,
        path,
        query,
        hyper::HeaderMap::new(),
        None,
        params,
        TextMap::new(),
        None,
        None,
        None,
    );
    loop {
        match router.next_call(&exchange) {
            Call::Middleware(i) => {
                let result = (router.middlewares()[i])(&request);
                match router.apply_middleware(exchange, result) {
                    Ok(next) => exchange = next,
                    Err(response) => return response,
                }
            }
            Call::Handler(i) => return router.finish((router.routes()[i].handler())(&request)),
        }
    }
}

fn ok(_request: &PlainRequest) -> Response {
    Response::ok()
}

fn block(request: &PlainRequest) -> MiddlewareResult {
    if request.path() == "/blocked" {
        MiddlewareResult::Response(Response::forbidden("Blocked by middleware"))
    } else {
        MiddlewareResult::Continue
    }
}

fn never(_request: &PlainRequest) -> MiddlewareResult {
    MiddlewareResult::Response(Response::service_unavailable("closed"))
}

fn user_id(request: &PlainRequest) -> Response {
    let id = request.param("id").unwrap();
    Response::json(StatusCode::new(200), Some(format!("{{\"user_id\":\"{}\"}}", id)))
}

fn product(request: &PlainRequest) -> Response {
    let category = request.param("category").unwrap();
    let id = request.param("id").unwrap();
    Response::json(
        StatusCode::new(200),
        Some(format!("{{\"category\":\"{}\",\"id\":\"{}\"}}", category, id)),
    )
}

fn search(request: &PlainRequest) -> Response {
    let query = request.query_param("q").unwrap_or("default");
    let page = request.query_param("page").unwrap_or("1");
    Response::json(
        StatusCode::new(200),
        Some(format!("{{\"query\":\"{}\",\"page\":\"{}\"}}", query, page)),
    )
}

fn json_of(response: &Response) -> serde_json::Value {
    serde_json::from_str(response.body()).unwrap()
}

#[test]
fn test_route_matching() {
    let mut router: Router<&str, ()> = Router::new();

    router.get("/users/:id", "user");

    router.get("/products/:category/:id", "product");

    // Test matching
    let routes = router.routes();

    // Test first route
    let route = &routes[0];
    let params = route.matches("/users/123").unwrap();
    assert_eq!(params.get("id").unwrap(), "123");

    // Test second route
    let route = &routes[1];
    let params = route.matches("/products/electronics/456").unwrap();
    assert_eq!(params.get("category").unwrap(), "electronics");
    assert_eq!(params.get("id").unwrap(), "456");

    // Test non-matching
    let params = route.matches("/users/123");
    assert!(params.is_none());
}

#[test]
fn test_router_with_middleware() {
    let mut router: Router<Handler, Asked> = Router::new();
    router.add_middleware(block);

    router.get("/allowed", ok);

    router.get("/blocked", ok);

    assert_eq!(serve(&router, "GET", "/allowed").status().as_u16(), 200);
    let blocked = serve(&router, "GET", "/blocked");
    assert_eq!(blocked.status().as_u16(), 403);
    assert_eq!(json_of(&blocked)["error"], "Blocked by middleware");
}

#[test]
fn test_router_path_params() {
    let mut router: Router<Handler, Asked> = Router::new();
    router.get("/users/:id", user_id);
    router.get("/products/:category/:id", product);

    // Test path parameters
    let response = serve(&router, "GET", "/users/123");
    assert_eq!(response.status().as_u16(), 200);
    let body = json_of(&response);
    assert_eq!(body["user_id"], "123");

    // Test multiple path parameters
    let response = serve(&router, "GET", "/products/electronics/456");
    assert_eq!(response.status().as_u16(), 200);
    let body = json_of(&response);
    assert_eq!(body["category"], "electronics");
    assert_eq!(body["id"], "456");
}

#[test]
fn test_query_parameters() {
    let mut router: Router<Handler, Asked> = Router::new();
    router.get("/search", search);

    // Test query parameters
    let response = serve(&router, "GET", "/search?q=rust&page=2");
    assert_eq!(response.status().as_u16(), 200);
    let body = json_of(&response);
    assert_eq!(body["query"], "rust");
    assert_eq!(body["page"], "2");

    // Test with missing parameters
    let response = serve(&router, "GET", "/search");
    let body = json_of(&response);
    assert_eq!(body["query"], "default");
    assert_eq!(body["page"], "1");
}

#[test]
fn patterns_are_taken_apart() {
    let segments = parse_pattern("//users/:id/:/a:b/");
    assert_eq!(segments.len(), 4);
    assert!(matches!(&segments[0], Segment::Literal(s) if s == "users"));
    assert!(matches!(&segments[1], Segment::Param(s) if s == "id"));
    assert!(matches!(&segments[2], Segment::Param(s) if s.is_empty()));
    assert!(matches!(&segments[3], Segment::Literal(s) if s == "a:b"));
    assert!(parse_pattern("/").is_empty());
}

#[test]
fn slashes_do_not_count_twice() {
    let mut router: Router<&str, ()> = Router::new();
    router.get("/a/:x", "ax");
    let route = &router.routes()[0];
    assert_eq!(route.matches("//a///b/").unwrap().get("x").unwrap(), "b");
    assert!(route.matches("/a").is_none());
    assert!(route.matches("/a/b/c").is_none());
    assert!(route.matches("/A/b").is_none());
}

#[test]
fn of_two_equal_names_the_later_counts() {
    let mut router: Router<&str, ()> = Router::new();
    router.get("/:x/:x", "xx");
    let params = router.routes()[0].matches("/1/2").unwrap();
    assert_eq!(params.len(), 1);
    assert_eq!(params.get("x").unwrap(), "2");
}

#[test]
fn the_first_route_that_fits_is_taken() {
    let mut router: Router<&str, ()> = Router::new();
    router.post("/users/me", "post");
    router.get("/users/:id", "param");
    router.get("/users/me", "me");
    let (at, params) = router.find(Method::Get, "/users/me").unwrap();
    assert_eq!(*router.routes()[at].handler(), "param");
    assert_eq!(params.get("id").unwrap(), "me");
    let (at, _) = router.find(Method::Post, "/users/me").unwrap();
    assert_eq!(*router.routes()[at].handler(), "post");
    assert!(router.find(Method::Put, "/users/me").is_none());
    assert!(router.find(Method::Other, "/users/me").is_none());
    assert!(router.find(Method::Options, "/users/me").is_none());
}

#[test]
fn without_a_route_there_is_a_plain_error() {
    let mut router: Router<Handler, Asked> = Router::new();
    router.add_middleware(never);
    router.put("/a", ok);
    router.delete("/a", ok);
    let missing = serve(&router, "GET", "/a");
    assert_eq!(missing.status().as_u16(), 404);
    assert_eq!(missing.body(), "{\"error\":\"Route not found\",\"status\":404}");
    assert_eq!(missing.header("access-control-allow-origin"), None);
    assert_eq!(serve(&router, "PATCH", "/a").status().as_u16(), 404);
    assert_eq!(serve(&router, "get", "/a").status().as_u16(), 404);
}

#[test]
fn answers_let_other_sites_in() {
    let mut router: Router<Handler, Asked> = Router::new();
    router.add_middleware(block);
    router.get("/allowed", ok);
    router.get("/blocked", ok);
    for path in vec!["/allowed", "/blocked"] {
        let response = serve(&router, "GET", path);
        assert_eq!(response.header("Access-Control-Allow-Origin"), Some("*".to_string()));
        assert_eq!(
            response.header("Access-Control-Allow-Methods"),
            Some("GET, POST, PUT, DELETE, OPTIONS".to_string())
        );
        assert_eq!(
            response.header("Access-Control-Allow-Headers"),
            Some("Content-Type, Authorization".to_string())
        );
    }
}

#[test]
fn middleware_is_asked_in_order() {
    let mut router: Router<Handler, Asked> = Router::new();
    router.add_middleware(block);
    router.add_middleware(never);
    router.get("/blocked", ok);
    router.get("/allowed", ok);
    assert_eq!(serve(&router, "GET", "/blocked").status().as_u16(), 403);
    assert_eq!(serve(&router, "GET", "/allowed").status().as_u16(), 503);
}
