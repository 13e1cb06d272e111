use lime::api::{health_handler, parse_query, Request, RequestExt, Response, ResponseBuilder};
use lime::clock::Timestamp;
use lime::http::StatusCode;
use lime::text_map::TextMap;

type PlainRequest = Request<u8, u8, u8>;

fn request(
    query: Option<&str>,
    headers: Vec<(&'static str, &'static [u8])>,
    pool: Option<u8>,
    runner: Option<u8>,
) -> PlainRequest {
    let mut map = hyper::HeaderMap::new();
    for (name, value) in headers {
        map.append(name, hyper::header::HeaderValue::from_bytes(value).unwrap());
    }
    Request::from_parts(
        "GET",
        "/search",
        query,
        map,
        Some("10.0.0.1:9".to_string()),
        TextMap::new(),
        TextMap::new(),
        pool,
        None,
        runner,
    )
}

#[test]
fn an_error_names_its_message_and_status() {
    let r = Response::error(StatusCode::new(418), "tea \"pot\"\n\\ \u{1} \u{e9}");
    assert_eq!(r.status().as_u16(), 418);
    assert_eq!(r.header("Content-Type"), Some("application/json".to_string()));
    assert_eq!(
        r.body(),
        "{\"error\":\"tea \\\"pot\\\"\\n\\\\ \\u0001 \u{e9}\",\"status\":418}"
    );
}

#[test]
fn each_helper_has_its_status() {
    assert_eq!(Response::ok().status().as_u16(), 200);
    assert_eq!(Response::created().status().as_u16(), 201);
    assert_eq!(Response::no_content().status().as_u16(), 204);
    assert_eq!(Response::bad_request("m").status().as_u16(), 400);
    assert_eq!(Response::unauthorized("m").status().as_u16(), 401);
    assert_eq!(Response::forbidden("m").status().as_u16(), 403);
    assert_eq!(Response::not_found("m").status().as_u16(), 404);
    assert_eq!(Response::internal_error("m").status().as_u16(), 500);
    assert_eq!(Response::service_unavailable("m").status().as_u16(), 503);
    assert_eq!(Response::not_found("m").body(), "{\"error\":\"m\",\"status\":404}");
    assert_eq!(Response::ok().body(), "");
    assert_eq!(Response::ok().header("content-type"), None);
}

#[test]
fn bodies_have_their_content_type() {
    let text = Response::text(StatusCode::new(200), "hi");
    assert_eq!(text.header("content-type"), Some("text/plain".to_string()));
    assert_eq!(text.body(), "hi");
    let html = Response::html(StatusCode::new(200), "<p>");
    assert_eq!(html.header("content-type"), Some("text/html; charset=utf-8".to_string()));
    let json = Response::json(StatusCode::new(201), Some("[1]".to_string()));
    assert_eq!(json.status().as_u16(), 201);
    assert_eq!(json.body(), "[1]");
    let failed = Response::json(StatusCode::new(201), None);
    assert_eq!(failed.status().as_u16(), 500);
    assert_eq!(failed.body(), "{\"error\":\"Failed to serialize response\",\"status\":500}");
}

#[test]
fn headers_are_set_where_they_are_well_formed() {
    let r = Response::ok().with_header("X-One", "1").with_header("x-one", "2");
    assert_eq!(r.header("X-ONE"), Some("2".to_string()));
    let r = r.with_header("bad name", "1").with_header("x-two", "line\nbreak");
    assert_eq!(r.header("x-two"), None);
    let (status, headers, body) = r.into_parts();
    assert_eq!(status.as_u16(), 200);
    assert_eq!(headers.len(), 1);
    assert_eq!(body, "");
}

#[test]
fn cookies_and_redirects_are_headers() {
    let r = Response::ok().with_cookie("sid", "abc", Some(60));
    assert_eq!(
        r.header("Set-Cookie"),
        Some("sid=abc; Max-Age=60; Path=/; HttpOnly; SameSite=Lax".to_string())
    );
    let r = Response::ok().with_cookie("sid", "abc", None);
    assert_eq!(
        r.header("set-cookie"),
        Some("sid=abc; Path=/; HttpOnly; SameSite=Lax".to_string())
    );
    let r = Response::ok().with_cookie("sid", "abc", Some(-5));
    assert_eq!(
        r.header("set-cookie"),
        Some("sid=abc; Max-Age=-5; Path=/; HttpOnly; SameSite=Lax".to_string())
    );
    let r = Response::redirect("/login");
    assert_eq!(r.status().as_u16(), 302);
    assert_eq!(r.header("Location"), Some("/login".to_string()));
}

#[test]
fn a_builder_puts_its_headers_on_top() {
    let r = ResponseBuilder::new(StatusCode::new(202))
        .header("X-A", "1")
        .header("X-A", "2")
        .header("content-type", "application/problem+json")
        .json(Some("{}".to_string()));
    assert_eq!(r.status().as_u16(), 202);
    assert_eq!(r.header("x-a"), Some("2".to_string()));
    assert_eq!(r.header("content-type"), Some("application/problem+json".to_string()));
    let r = ResponseBuilder::new(StatusCode::new(200)).header("X-B", "3").text("t");
    assert_eq!(r.header("x-b"), Some("3".to_string()));
    assert_eq!(r.body(), "t");
    let r = ResponseBuilder::new(StatusCode::new(200)).html("<b>");
    assert_eq!(r.header("content-type"), Some("text/html; charset=utf-8".to_string()));
    let r = ResponseBuilder::new(StatusCode::new(200)).header("X-C", "4").json(None);
    assert_eq!(r.status().as_u16(), 500);
    assert_eq!(r.header("x-c"), Some("4".to_string()));
}

#[test]
fn status_codes_have_three_digits() {
    assert!(StatusCode::from_u16(99).is_none());
    assert!(StatusCode::from_u16(1000).is_none());
    assert_eq!(StatusCode::from_u16(100).unwrap().as_u16(), 100);
    assert_eq!(StatusCode::from_u16(999).unwrap().as_u16(), 999);
}

#[test]
fn queries_are_read() {
    let q = parse_query("q=rust&page=2&q=verus&flag&e=&x=a=b&s=%20%C3%A9&bad=%ff&t=1+1");
    assert_eq!(q.get("q").unwrap(), "verus");
    assert_eq!(q.get("page").unwrap(), "2");
    assert!(q.get("flag").is_none());
    assert_eq!(q.get("e").unwrap(), "");
    assert_eq!(q.get("x").unwrap(), "a=b");
    assert_eq!(q.get("s").unwrap(), " \u{e9}");
    assert_eq!(q.get("bad").unwrap(), "%ff");
    assert_eq!(q.get("t").unwrap(), "1+1");
    assert_eq!(parse_query("").len(), 0);
}

#[test]
fn keys_of_a_query_are_not_decoded() {
    let q = parse_query("a%20b=1");
    assert_eq!(q.get("a%20b").unwrap(), "1");
    assert!(q.get("a b").is_none());
}

#[test]
fn a_request_has_its_parts() {
    let mut r = request(Some("a=1"), vec![], Some(7), None);
    assert_eq!(r.query_param("a").unwrap(), "1");
    assert!(r.query_param("b").is_none());
    assert!(r.param("id").is_none());
    assert_eq!(r.params().len(), 0);
    assert_eq!(r.query().len(), 1);
    assert_eq!(r.path(), "/search");
    assert_eq!(r.method(), lime::http::Method::Get);
    assert_eq!(r.remote_addr(), Some("10.0.0.1:9".to_string()));
    assert_eq!(r.db_pool(), Some(&7));
    assert!(r.task_runner().is_none());
    assert!(r.auth().is_none());
    assert!(r.claims().is_none());
    assert_eq!(r.headers().len(), 0);
    r.extensions_mut().insert("k".to_string(), 3);
    assert_eq!(r.extensions().get("k"), Some(&3));
    assert_eq!(request(None, vec![], None, None).query().len(), 0);
}

#[test]
fn json_is_required_by_content_type() {
    let r = request(None, vec![("content-type", b"application/json; charset=utf-8")], None, None);
    assert!(r.require_json_content_type().is_ok());
    for headers in vec![
        vec![],
        vec![("content-type", b"text/plain" as &[u8])],
        vec![("content-type", b"application/json\xff" as &[u8])],
    ] {
        let refused = request(None, headers, None, None).require_json_content_type();
        let response = refused.err().unwrap();
        assert_eq!(response.status().as_u16(), 400);
        assert_eq!(
            response.body(),
            "{\"error\":\"Content-Type must be application/json\",\"status\":400}"
        );
    }
}

#[test]
fn the_bearer_token_is_what_follows_the_word() {
    let token = |value: &'static [u8]| {
        request(None, vec![("authorization", value)], None, None).get_bearer_token()
    };
    assert_eq!(token(b"Bearer abc"), Some("abc".to_string()));
    assert_eq!(token(b"Bearer  abc "), Some(" abc ".to_string()));
    assert_eq!(token(b"Basic abc"), None);
    assert_eq!(token(b"Bearer"), None);
    assert_eq!(token(b"bearer abc"), None);
    assert_eq!(request(None, vec![], None, None).get_bearer_token(), None);
}

#[test]
fn authentication_is_required_by_claims() {
    let mut r = request(None, vec![], None, None);
    let refused = r.require_auth().err().unwrap();
    assert_eq!(refused.status().as_u16(), 401);
    assert_eq!(refused.body(), "{\"error\":\"Authentication required\",\"status\":401}");
    r.claims = Some(lime::auth::Claims {
        sub: 5,
        email: None,
        role: "user".to_string(),
        exp: 2,
        iat: 1,
    });
    assert_eq!(r.require_auth().unwrap().sub, 5);
}

#[test]
fn test_health_endpoint() {
    let now = Timestamp::from_unix(0, 0).unwrap();
    let response = health_handler(&request(None, vec![], None, None), now, true, None);
    assert_eq!(response.status().as_u16(), 200);
    let body: serde_json::Value = serde_json::from_str(response.body()).unwrap();
    assert_eq!(body["status"], "healthy");
}

#[test]
fn health_tells_of_what_there_is() {
    let now = Timestamp::from_unix(1_700_000_000, 5_000_000).unwrap();
    let all = request(None, vec![], Some(1), Some(1));
    assert_eq!(
        health_handler(&all, now, false, Some(true)).body(),
        "{\"status\":\"healthy\",\"timestamp\":\"2023-11-14T22:13:20.005+00:00\",\
         \"database\":\"unhealthy\",\"redis\":\"healthy\"}"
    );
    assert_eq!(
        health_handler(&all, now, true, Some(false)).body(),
        "{\"status\":\"healthy\",\"timestamp\":\"2023-11-14T22:13:20.005+00:00\",\
         \"database\":\"healthy\",\"redis\":\"unhealthy\"}"
    );
    assert_eq!(
        health_handler(&request(None, vec![], None, Some(1)), now, true, None).body(),
        "{\"status\":\"healthy\",\"timestamp\":\"2023-11-14T22:13:20.005+00:00\",\
         \"database\":null,\"redis\":\"not_configured\"}"
    );
    assert_eq!(
        health_handler(&request(None, vec![], None, None), now, true, Some(true)).body(),
        "{\"status\":\"healthy\",\"timestamp\":\"2023-11-14T22:13:20.005+00:00\",\
         \"database\":null,\"redis\":null}"
    );
}

#[test]
fn times_have_their_range() {
    assert!(Timestamp::from_unix(lime::clock::LAST_SECOND, 0).is_some());
    assert!(Timestamp::from_unix(lime::clock::LAST_SECOND + 1, 0).is_none());
    assert!(Timestamp::from_unix(lime::clock::FIRST_SECOND - 1, 0).is_none());
    assert!(Timestamp::from_unix(59, 1_999_999_999).is_some());
    assert!(Timestamp::from_unix(58, 1_000_000_000).is_none());
    assert_eq!(
        Timestamp::from_unix(lime::clock::LAST_SECOND, 999_999_999).unwrap().text(true),
        "+262142-12-31T23:59:59.999999999Z"
    );
    assert_eq!(
        Timestamp::from_unix(lime::clock::FIRST_SECOND, 0).unwrap().text(true),
        "-262143-01-01T00:00:00Z"
    );
    assert_eq!(Timestamp::from_unix(0, 0).unwrap().text(true), "1970-01-01T00:00:00Z");
}
