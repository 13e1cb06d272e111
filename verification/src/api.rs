//! Requests, responses, pagination and request metrics.

use crate::auth::{AuthContext, Claims};
use crate::clock::Timestamp;
use crate::http::{self, Method, StatusCode};
use crate::json::{self, ObjectWriter, Scalar};
use crate::text;
use crate::text_map::TextMap;
use hyper::header::HeaderValue;
use hyper::HeaderMap;
use vstd::prelude::*;

pub use crate::metrics::{reset_metrics_handler, MetricsCollector, MetricsSnapshot};
pub use crate::pagination::{PaginatedResponse, Pagination};

verus! {

// ---------------------------------------------------------------------------------------------
// Responses
// ---------------------------------------------------------------------------------------------

/// What is sent back for a request: a status code, headers and a body.
#[derive(Debug)]
pub struct Response {
    status: StatusCode,
    headers: HeaderMap<HeaderValue>,
    body: String,
}

/// A header map that holds nothing but a content type.
pub open spec fn content_type(kind: Seq<char>) -> Map<Seq<char>, Seq<Seq<u8>>> {
    http::no_values().insert("content-type"@, seq![vstd::utf8::encode_utf8(kind)])
}

/// The body that reports an error.
pub open spec fn error_body(message: Seq<char>, code: u16) -> Seq<char> {
    json::object_text(
        seq![
            ("error"@, json::JsonField::Text(message)),
            ("status"@, json::JsonField::Unsigned(code as u64)),
        ],
    )
}

/// The text of the cookie that a response sets.
pub open spec fn cookie_text(
    name: Seq<char>,
    value: Seq<char>,
    max_age_seconds: Option<i64>,
) -> Seq<char> {
    let age = match max_age_seconds {
        Some(seconds) => "; Max-Age="@ + text::decimal_int(seconds as int),
        None => Seq::empty(),
    };
    name + seq!['='] + value + age + "; Path=/; HttpOnly; SameSite=Lax"@
}

/// Whether one header map came from another by an attempt to set a header. The attempt succeeds
/// where name and value are well formed, unless the map is too full to take in another name;
/// otherwise it changes nothing.
pub open spec fn header_attempted(
    before: Map<Seq<char>, Seq<Seq<u8>>>,
    after: Map<Seq<char>, Seq<Seq<u8>>>,
    name: Seq<char>,
    value: Seq<char>,
) -> bool {
    &&& http::can_set(before, name, value) ==> after == http::with_value(before, name, value)
    &&& http::header_name(name) is None || !http::is_header_value(value) ==> after == before
    &&& after == before || after == http::with_value(before, name, value)
}

impl Response {
    /// There are only so many headers.
    #[verifier::type_invariant]
    spec fn headers_are_finite(self) -> bool {
        http::header_values(self.headers).dom().finite()
    }

    /// The number of the status code.
    pub closed spec fn code(&self) -> u16 {
        self.status.code()
    }

    /// What the headers hold.
    pub closed spec fn header_map(&self) -> Map<Seq<char>, Seq<Seq<u8>>> {
        http::header_values(self.headers)
    }

    /// The text of the body.
    pub closed spec fn body_text(&self) -> Seq<char> {
        self.body@
    }

    /// Whether the response has a JSON body and no header but its content type.
    pub open spec fn is_json(&self, code: u16, body: Seq<char>) -> bool {
        &&& self.code() == code
        &&& self.header_map() == content_type("application/json"@)
        &&& self.body_text() == body
    }

    /// Whether the response reports an error.
    pub open spec fn is_error(&self, code: u16, message: Seq<char>) -> bool {
        self.is_json(code, error_body(message, code))
    }

    /// A response without headers and with an empty body.
    pub fn new(status: StatusCode) -> (r: Response)
        ensures
            r.code() == status.code(),
            r.header_map() == http::no_values(),
            r.body_text() == Seq::<char>::empty(),
    {
        Response { status, headers: http::no_headers(), body: String::new() }
    }

    fn with_content(status: StatusCode, kind: &str, body: String) -> (r: Response)
        requires
            http::is_header_value(kind@),
        ensures
            r.code() == status.code(),
            r.header_map() == content_type(kind@),
            r.body_text() == body@,
    {
        let mut headers = http::no_headers();
        proof {
            http::lemma_header_names();
        }
        let _ = http::set_header(&mut headers, "content-type", kind);
        Response { status, headers, body }
    }

    /// A response with a JSON body. Where the body could not be written, the response reports
    /// that instead.
    pub fn json(status: StatusCode, serialized: Option<String>) -> (r: Response)
        ensures
            match serialized {
                Some(body) => r.is_json(status.code(), body@),
                None => r.is_error(500, "Failed to serialize response"@),
            },
    {
        match serialized {
            Some(body) => {
                proof {
                    http::lemma_header_constants();
                }
                Response::with_content(status, "application/json", body)
            },
            None => Response::error(StatusCode::new(500), "Failed to serialize response"),
        }
    }

    /// A response that reports an error: its message and its status code, as a JSON object.
    pub fn error(status: StatusCode, message: &str) -> (r: Response)
        ensures
            r.is_error(status.code(), message@),
    {
        let code: u16 = status.as_u16();
        let writer = ObjectWriter::new().member("error", json::text_scalar(message)).member(
            "status",
            Scalar::Unsigned(code as u64),
        );
        proof {
            assert(writer.members() =~= seq![
                ("error"@, json::JsonField::Text(message@)),
                ("status"@, json::JsonField::Unsigned(code as u64)),
            ]);
            http::lemma_header_constants();
        }
        let body = writer.finish();
        Response::with_content(status, "application/json", body)
    }

    /// A response with a plain text.
    pub fn text(status: StatusCode, text: &str) -> (r: Response)
        ensures
            r.code() == status.code(),
            r.header_map() == content_type("text/plain"@),
            r.body_text() == text@,
    {
        proof {
            http::lemma_header_constants();
        }
        Response::with_content(status, "text/plain", text.to_owned())
    }

    /// A response with a page of HTML.
    pub fn html(status: StatusCode, html: &str) -> (r: Response)
        ensures
            r.code() == status.code(),
            r.header_map() == content_type("text/html; charset=utf-8"@),
            r.body_text() == html@,
    {
        proof {
            http::lemma_header_constants();
        }
        Response::with_content(status, "text/html; charset=utf-8", html.to_owned())
    }

    /// Sets a header. A name or a value that is not well formed leaves the response as it is.
    pub fn with_header(self, key: &str, value: &str) -> (r: Response)
        ensures
            r.code() == self.code(),
            r.body_text() == self.body_text(),
            header_attempted(self.header_map(), r.header_map(), key@, value@),
            self.header_map().dom().finite(),
            r.header_map().dom().finite(),
    {
        proof {
            use_type_invariant(&self);
        }
        let mut headers = self.headers;
        let _ = http::set_header(&mut headers, key, value);
        Response { status: self.status, headers, body: self.body }
    }

    /// Sets the body.
    pub(crate) fn with_body(self, body: String) -> (r: Response)
        ensures
            r.code() == self.code(),
            r.header_map() == self.header_map(),
            r.body_text() == body@,
    {
        proof {
            use_type_invariant(&self);
        }
        Response { status: self.status, headers: self.headers, body }
    }

    /// Sets a cookie that scripts cannot read and that other sites do not send along.
    pub fn with_cookie(self, name: &str, value: &str, max_age_seconds: Option<i64>) -> (r: Response)
        ensures
            r.code() == self.code(),
            r.body_text() == self.body_text(),
            header_attempted(
                self.header_map(),
                r.header_map(),
                "Set-Cookie"@,
                cookie_text(name@, value@, max_age_seconds),
            ),
    {
        let mut cookie = name.to_owned();
        cookie.push('=');
        cookie.append(value);
        match max_age_seconds {
            Some(seconds) => {
                cookie.append("; Max-Age=");
                let digits = text::i64_text(seconds);
                cookie.append(digits.as_str());
            },
            None => {},
        }
        cookie.append("; Path=/; HttpOnly; SameSite=Lax");
        proof {
            assert(cookie@ =~= cookie_text(name@, value@, max_age_seconds));
        }
        self.with_header("Set-Cookie", cookie.as_str())
    }

    /// A response that sends the client elsewhere.
    pub fn redirect(location: &str) -> (r: Response)
        ensures
            r.code() == 302,
            r.body_text() == Seq::<char>::empty(),
            r.header_map() == if http::is_header_value(location@) {
                http::no_values().insert("location"@, seq![vstd::utf8::encode_utf8(location@)])
            } else {
                http::no_values()
            },
    {
        proof {
            http::lemma_header_names();
        }
        Response::new(StatusCode::new(302)).with_header("Location", location)
    }

    pub fn ok() -> (r: Response)
        ensures
            r.code() == 200,
            r.header_map() == http::no_values(),
            r.body_text() == Seq::<char>::empty(),
    {
        Response::new(StatusCode::new(200))
    }

    pub fn created() -> (r: Response)
        ensures
            r.code() == 201,
            r.header_map() == http::no_values(),
            r.body_text() == Seq::<char>::empty(),
    {
        Response::new(StatusCode::new(201))
    }

    pub fn no_content() -> (r: Response)
        ensures
            r.code() == 204,
            r.header_map() == http::no_values(),
            r.body_text() == Seq::<char>::empty(),
    {
        Response::new(StatusCode::new(204))
    }

    pub fn bad_request(message: &str) -> (r: Response)
        ensures
            r.is_error(400, message@),
    {
        Response::error(StatusCode::new(400), message)
    }

    pub fn unauthorized(message: &str) -> (r: Response)
        ensures
            r.is_error(401, message@),
    {
        Response::error(StatusCode::new(401), message)
    }

    pub fn forbidden(message: &str) -> (r: Response)
        ensures
            r.is_error(403, message@),
    {
        Response::error(StatusCode::new(403), message)
    }

    pub fn not_found(message: &str) -> (r: Response)
        ensures
            r.is_error(404, message@),
    {
        Response::error(StatusCode::new(404), message)
    }

    pub fn internal_error(message: &str) -> (r: Response)
        ensures
            r.is_error(500, message@),
    {
        Response::error(StatusCode::new(500), message)
    }

    pub fn service_unavailable(message: &str) -> (r: Response)
        ensures
            r.is_error(503, message@),
    {
        Response::error(StatusCode::new(503), message)
    }

    /// The status code. Any response has only so many headers.
    pub fn status(&self) -> (r: StatusCode)
        ensures
            r.code() == self.code(),
            self.header_map().dom().finite(),
    {
        proof {
            use_type_invariant(self);
        }
        self.status
    }

    /// The first value of a header, if there is one and it can be read as text.
    pub fn header(&self, name: &str) -> (r: Option<String>)
        ensures
            match r {
                Some(s) => http::first_text(self.header_map(), name@) == Some(Some(s@)),
                None => !(http::first_text(self.header_map(), name@) matches Some(Some(_))),
            },
    {
        match http::header_text(&self.headers, name) {
            Some(found) => found,
            None => None,
        }
    }

    /// The body.
    pub fn body(&self) -> (r: &str)
        ensures
            r@ == self.body_text(),
    {
        self.body.as_str()
    }

    /// Takes the response apart.
    pub fn into_parts(self) -> (r: (StatusCode, HeaderMap<HeaderValue>, String))
        ensures
            r.0.code() == self.code(),
            http::header_values(r.1) == self.header_map(),
            r.2@ == self.body_text(),
            self.header_map().dom().finite(),
    {
        proof {
            use_type_invariant(&self);
        }
        (self.status, self.headers, self.body)
    }
}

// ---------------------------------------------------------------------------------------------
// Building a response
// ---------------------------------------------------------------------------------------------

/// Collects the status and the headers of a response before its body is known.
pub struct ResponseBuilder {
    status: StatusCode,
    headers: TextMap<String>,
}

/// A header map with a header set, or as it was where name or value is not well formed.
pub open spec fn set_or_skip(
    before: Map<Seq<char>, Seq<Seq<u8>>>,
    name: Seq<char>,
    value: Seq<char>,
) -> Map<Seq<char>, Seq<Seq<u8>>> {
    if http::header_name(name) is Some && http::is_header_value(value) {
        http::with_value(before, name, value)
    } else {
        before
    }
}

/// A header map with the headers of a list set, one after the other.
pub open spec fn all_set(
    before: Map<Seq<char>, Seq<Seq<u8>>>,
    headers: Seq<(Seq<char>, Seq<char>)>,
) -> Map<Seq<char>, Seq<Seq<u8>>>
    decreases headers.len(),
{
    if headers.len() == 0 {
        before
    } else {
        set_or_skip(all_set(before, headers.drop_last()), headers.last().0, headers.last().1)
    }
}

/// Whether header maps follow one another by an attempt to set each header of a list: each is set or
/// left.
pub open spec fn is_chain(
    steps: Seq<Map<Seq<char>, Seq<Seq<u8>>>>,
    headers: Seq<(Seq<char>, Seq<char>)>,
) -> bool {
    &&& steps.len() == headers.len() + 1
    &&& forall|i: int|
        0 <= i < headers.len() ==> {
            ||| steps[i + 1] == steps[i]
            ||| steps[i + 1] == set_or_skip(
                steps[i],
                (#[trigger] headers[i]).0,
                headers[i].1,
            )
        }
}

/// Whether one header map came from another by an attempt to set each header of a list, one after
/// the other.
pub open spec fn all_attempted(
    before: Map<Seq<char>, Seq<Seq<u8>>>,
    after: Map<Seq<char>, Seq<Seq<u8>>>,
    headers: Seq<(Seq<char>, Seq<char>)>,
) -> bool {
    exists|steps: Seq<Map<Seq<char>, Seq<Seq<u8>>>>| #[trigger]
        is_chain(steps, headers) && steps[0] == before && steps.last() == after
}

pub(crate) proof fn lemma_nothing_attempted(before: Map<Seq<char>, Seq<Seq<u8>>>)
    ensures
        all_attempted(before, before, Seq::empty()),
{
    assert(is_chain(seq![before], Seq::empty()));
}

pub(crate) proof fn lemma_one_more_attempted(
    before: Map<Seq<char>, Seq<Seq<u8>>>,
    between: Map<Seq<char>, Seq<Seq<u8>>>,
    after: Map<Seq<char>, Seq<Seq<u8>>>,
    headers: Seq<(Seq<char>, Seq<char>)>,
    name: Seq<char>,
    value: Seq<char>,
)
    requires
        all_attempted(before, between, headers),
        header_attempted(between, after, name, value),
    ensures
        all_attempted(before, after, headers.push((name, value))),
{
    let steps = choose|steps: Seq<Map<Seq<char>, Seq<Seq<u8>>>>| #[trigger]
        is_chain(steps, headers) && steps[0] == before && steps.last() == between;
    let more = steps.push(after);
    let all = headers.push((name, value));
    assert forall|i: int| 0 <= i < all.len() implies {
        ||| more[i + 1] == more[i]
        ||| more[i + 1] == set_or_skip(more[i], (#[trigger] all[i]).0, all[i].1)
    } by {
        if i < headers.len() {
            assert(all[i] == headers[i]);
            assert(more[i] == steps[i] && more[i + 1] == steps[i + 1]);
        } else {
            assert(more[i] == between && more[i + 1] == after);
        }
    }
    assert(is_chain(more, all));
}

/// Of a name that no header of the list bears, a header map holds the same as before; of any other it
/// holds the same as before or one value of the list.
pub proof fn attempts_touch_their_names_only(
    before: Map<Seq<char>, Seq<Seq<u8>>>,
    after: Map<Seq<char>, Seq<Seq<u8>>>,
    headers: Seq<(Seq<char>, Seq<char>)>,
    name: Seq<char>,
)
    requires
        all_attempted(before, after, headers),
    ensures
        before.contains_key(name) ==> after.contains_key(name),
        (after.contains_key(name) && (!before.contains_key(name) || after[name] != before[name]))
            ==> exists|i: int|
            0 <= i < headers.len() && http::header_name((#[trigger] headers[i]).0) == Some(name)
                && after[name] == seq![vstd::utf8::encode_utf8(headers[i].1)],
    decreases headers.len(),
{
    let steps = choose|steps: Seq<Map<Seq<char>, Seq<Seq<u8>>>>| #[trigger]
        is_chain(steps, headers) && steps[0] == before && steps.last() == after;
    if headers.len() > 0 {
        let rest = headers.drop_last();
        let fewer = steps.drop_last();
        let between = fewer.last();
        assert forall|i: int| 0 <= i < rest.len() implies {
            ||| fewer[i + 1] == fewer[i]
            ||| fewer[i + 1] == set_or_skip(fewer[i], (#[trigger] rest[i]).0, rest[i].1)
        } by {
            assert(rest[i] == headers[i]);
        }
        assert(is_chain(fewer, rest));
        assert(all_attempted(before, between, rest));
        attempts_touch_their_names_only(before, between, rest, name);
        let last = headers[headers.len() - 1];
        assert(steps[headers.len() - 1] == between && steps[headers.len() as int] == after);
        assert(after == between || after == set_or_skip(between, last.0, last.1));
        if after.contains_key(name) && (!before.contains_key(name) || after[name] != before[name]) {
            if between.contains_key(name) && between[name] == after[name] {
                let i = choose|i: int|
                    0 <= i < rest.len() && http::header_name((#[trigger] rest[i]).0) == Some(name)
                        && between[name] == seq![vstd::utf8::encode_utf8(rest[i].1)];
                assert(headers[i] == rest[i]);
            }
        }
    }
}

proof fn lemma_all_set_len(
    before: Map<Seq<char>, Seq<Seq<u8>>>,
    headers: Seq<(Seq<char>, Seq<char>)>,
)
    requires
        before.dom().finite(),
    ensures
        all_set(before, headers).dom().finite(),
        all_set(before, headers).dom().len() <= before.dom().len() + headers.len(),
    decreases headers.len(),
{
    if headers.len() > 0 {
        lemma_all_set_len(before, headers.drop_last());
    }
}

impl ResponseBuilder {
    /// The number of the status code.
    pub closed spec fn code(&self) -> u16 {
        self.status.code()
    }

    /// The headers collected so far, in the order in which they are set.
    pub closed spec fn headers(&self) -> Seq<(Seq<char>, Seq<char>)> {
        crate::text_map::text_entries(self.headers.entry_list())
    }

    /// Whether a response has the status of the builder, the body, and the headers of the builder
    /// on top of its content type. Of more headers than a header map is sure to take in, each is set
    /// or left.
    pub open spec fn makes(&self, r: Response, kind: Seq<char>, code: u16, body: Seq<char>) -> bool {
        &&& r.code() == code
        &&& r.body_text() == body
        &&& self.headers().len() + 1 < http::HEADER_ROOM ==> r.header_map() == all_set(
            content_type(kind),
            self.headers(),
        )
        &&& all_attempted(content_type(kind), r.header_map(), self.headers())
    }

    /// A builder without headers.
    pub fn new(status: StatusCode) -> (r: ResponseBuilder)
        ensures
            r.code() == status.code(),
            r.headers() == Seq::<(Seq<char>, Seq<char>)>::empty(),
    {
        ResponseBuilder { status, headers: TextMap::new() }
    }

    /// Adds a header. A second value under the same key takes the place of the first.
    pub fn header(self, key: &str, value: &str) -> (r: ResponseBuilder)
        ensures
            r.code() == self.code(),
            r.headers() == crate::text_map::put(self.headers(), key@, value@),
    {
        let mut headers = self.headers;
        let stored = value.to_owned();
        proof {
            crate::text_map::lemma_put_text(headers.entry_list(), key@, stored);
        }
        headers.insert(key.to_owned(), stored);
        ResponseBuilder { status: self.status, headers }
    }

    fn apply(headers: &TextMap<String>, start: Response) -> (r: Response)
        ensures
            r.code() == start.code(),
            r.body_text() == start.body_text(),
            start.header_map().dom().len() + headers.entry_list().len() < http::HEADER_ROOM
                ==> r.header_map() == all_set(
                start.header_map(),
                crate::text_map::text_entries(headers.entry_list()),
            ),
            all_attempted(
                start.header_map(),
                r.header_map(),
                crate::text_map::text_entries(headers.entry_list()),
            ),
    {
        proof {
            use_type_invariant(&start);
        }
        let ghost base = start.header_map();
        let ghost all = crate::text_map::text_entries(headers.entry_list());
        let ghost code = start.code();
        let ghost body = start.body_text();
        let mut response = start;
        proof {
            lemma_nothing_attempted(base);
            assert(all.take(0) =~= Seq::empty());
        }
        let mut i: usize = 0;
        let n: usize = headers.len();
        while i < n
            invariant
                n == all.len(),
                all == crate::text_map::text_entries(headers.entry_list()),
                i <= n,
                base.dom().finite(),
                response.code() == code,
                response.body_text() == body,
                base.dom().len() + all.len() < http::HEADER_ROOM ==> response.header_map()
                    == all_set(base, all.take(i as int)),
                all_attempted(base, response.header_map(), all.take(i as int)),
            decreases n - i,
        {
            let entry = headers.entry(i);
            proof {
                lemma_all_set_len(base, all.take(i as int));
                assert(all.take(i + 1).drop_last() =~= all.take(i as int));
            }
            let ghost between = response.header_map();
            response = response.with_header(entry.0.as_str(), entry.1.as_str());
            proof {
                lemma_one_more_attempted(
                    base,
                    between,
                    response.header_map(),
                    all.take(i as int),
                    entry.0@,
                    entry.1@,
                );
                assert(all.take(i + 1) =~= all.take(i as int).push((entry.0@, entry.1@)));
            }
            i = i + 1;
        }
        proof {
            assert(all.take(n as int) =~= all);
        }
        response
    }

    /// A response with a JSON body and the headers of the builder.
    pub fn json(self, serialized: Option<String>) -> (r: Response)
        ensures
            match serialized {
                Some(body) => self.makes(r, "application/json"@, self.code(), body@),
                None => self.makes(
                    r,
                    "application/json"@,
                    500,
                    error_body("Failed to serialize response"@, 500),
                ),
            },
    {
        let start = Response::json(self.status, serialized);
        ResponseBuilder::apply(&self.headers, start)
    }

    /// A response with a plain text and the headers of the builder.
    pub fn text(self, text: &str) -> (r: Response)
        ensures
            self.makes(r, "text/plain"@, self.code(), text@),
    {
        let start = Response::text(self.status, text);
        ResponseBuilder::apply(&self.headers, start)
    }

    /// A response with a page of HTML and the headers of the builder.
    pub fn html(self, html: &str) -> (r: Response)
        ensures
            self.makes(r, "text/html; charset=utf-8"@, self.code(), html@),
    {
        let start = Response::html(self.status, html);
        ResponseBuilder::apply(&self.headers, start)
    }
}

// ---------------------------------------------------------------------------------------------
// Query strings
// ---------------------------------------------------------------------------------------------

/// What `urlencoding::decode` makes of a text; nothing where the bytes that it decodes to are not
/// UTF-8.
pub uninterp spec fn percent_decoded(s: Seq<char>) -> Option<Seq<char>>;

/// `urlencoding::decode` replaces each percent sign and the two hexadecimal digits after it by the
/// byte that they stand for, and fails where that leaves no UTF-8. A text without a percent sign
/// stays as it is.
#[verifier::external_body]
fn percent_decode(s: &str) -> (r: Option<String>)
    ensures
        text::optional_text(r) == percent_decoded(s@),
        !s@.contains('%') ==> text::optional_text(r) == Some(s@),
{
    urlencoding::decode(s).ok().map(|text| text.into_owned())
}

/// The value that a part of a query string stands for: decoded where it can be, else as it is.
pub open spec fn query_value(s: Seq<char>) -> Seq<char> {
    match percent_decoded(s) {
        Some(decoded) => decoded,
        None => s,
    }
}

/// The mapping that the parts of a query string describe. A part without an equals sign says
/// nothing, and of two parts with the same key the later one counts.
pub open spec fn query_map(parts: Seq<Seq<char>>) -> Map<Seq<char>, Seq<char>>
    decreases parts.len(),
{
    if parts.len() == 0 {
        Map::empty()
    } else {
        let before = query_map(parts.drop_last());
        match text::cut(parts.last(), '=') {
            Some((key, value)) => before.insert(key, query_value(value)),
            None => before,
        }
    }
}

/// The mapping that the parts of a query string describe where nothing is encoded in it.
pub open spec fn plain_query_map(parts: Seq<Seq<char>>) -> Map<Seq<char>, Seq<char>>
    decreases parts.len(),
{
    if parts.len() == 0 {
        Map::empty()
    } else {
        let before = plain_query_map(parts.drop_last());
        match text::cut(parts.last(), '=') {
            Some((key, value)) => before.insert(key, value),
            None => before,
        }
    }
}

/// The mapping that a list of keys and values describes. Of two values under one key the later one
/// counts.
pub open spec fn pairs_map(pairs: Seq<(Seq<char>, Seq<char>)>) -> Map<Seq<char>, Seq<char>>
    decreases pairs.len(),
{
    if pairs.len() == 0 {
        Map::empty()
    } else {
        pairs_map(pairs.drop_last()).insert(pairs.last().0, pairs.last().1)
    }
}

/// The parts of the query string that lists keys and values.
pub open spec fn pair_parts(pairs: Seq<(Seq<char>, Seq<char>)>) -> Seq<Seq<char>> {
    Seq::new(pairs.len(), |i: int| pairs[i].0.push('=') + pairs[i].1)
}

proof fn lemma_pairs_map(pairs: Seq<(Seq<char>, Seq<char>)>)
    requires
        forall|i: int| 0 <= i < pairs.len() ==> !(#[trigger] pairs[i]).0.contains('='),
    ensures
        plain_query_map(pair_parts(pairs)) == pairs_map(pairs),
    decreases pairs.len(),
{
    if pairs.len() > 0 {
        let front = pairs.drop_last();
        assert forall|i: int| 0 <= i < front.len() implies !(#[trigger] front[i]).0.contains('=') by {
            assert(front[i] == pairs[i]);
        }
        lemma_pairs_map(front);
        assert(pair_parts(pairs).drop_last() =~= pair_parts(front));
        let (key, value) = pairs.last();
        assert(!pairs[pairs.len() - 1].0.contains('='));
        text::cut_of_pair(key, value, '=');
    }
}

/// A query string that lists keys and values, where nothing needs to be encoded, is read as the
/// mapping that the list describes.
pub proof fn queries_are_read_back(pairs: Seq<(Seq<char>, Seq<char>)>)
    requires
        pairs.len() > 0,
        forall|i: int|
            0 <= i < pairs.len() ==> !(#[trigger] pairs[i]).0.contains('=')
                && !pairs[i].0.contains('&') && !pairs[i].1.contains('&'),
    ensures
        plain_query_map(text::split(text::join(pair_parts(pairs), seq!['&']), '&')) == pairs_map(
            pairs,
        ),
{
    let parts = pair_parts(pairs);
    assert forall|i: int| 0 <= i < parts.len() implies !(#[trigger] parts[i]).contains('&') by {
        let (key, value) = pairs[i];
        assert forall|j: int| 0 <= j < parts[i].len() implies parts[i][j] != '&' by {
            if j < key.len() {
                assert(key.contains(key[j]));
            } else if j > key.len() {
                assert(value.contains(value[j - key.len() - 1]));
            }
        }
    }
    text::join_splits_back(parts, '&');
    lemma_pairs_map(pairs);
}

/// Reads a query string: parts between `&`, each a key and a percent-encoded value around the
/// first `=`.
pub fn parse_query(query: &str) -> (r: TextMap<String>)
    ensures
        crate::text_map::text_values(r@) == query_map(text::split(query@, '&')),
        !query@.contains('%') ==> crate::text_map::text_values(r@) == plain_query_map(
            text::split(query@, '&'),
        ),
{
    let parts = text::split_text(query, '&');
    let ghost all = text::texts(parts@);
    let ghost plain = !query@.contains('%');
    proof {
        text::split_joins_back(query@, '&');
        if plain {
            assert forall|i: int| 0 <= i < all.len() implies !(#[trigger] all[i]).contains('%') by {
                text::pieces_hold_no_more(query@, '&', i, '%');
            }
        }
    }
    let mut map: TextMap<String> = TextMap::new();
    proof {
        assert(crate::text_map::text_values(map@) =~= query_map(all.take(0)));
        assert(crate::text_map::text_values(map@) =~= plain_query_map(all.take(0)));
    }
    let mut i: usize = 0;
    while i < parts.len()
        invariant
            i <= parts@.len(),
            all == text::texts(parts@),
            plain ==> (forall|j: int| 0 <= j < all.len() ==> !(#[trigger] all[j]).contains('%')),
            crate::text_map::text_values(map@) == query_map(all.take(i as int)),
            plain ==> crate::text_map::text_values(map@) == plain_query_map(all.take(i as int)),
        decreases parts@.len() - i,
    {
        let ghost before = map@;
        proof {
            assert(all.take(i + 1).drop_last() =~= all.take(i as int));
            assert(all.take(i + 1).last() == parts@[i as int]@);
        }
        match text::cut_text(parts[i].as_str(), '=') {
            Some(pair) => {
                proof {
                    if plain {
                        text::cut_is_first(all[i as int], '=');
                        assert(!all[i as int].contains('%'));
                        assert forall|j: int| 0 <= j < pair.1@.len() implies pair.1@[j] != '%' by {
                            let at = pair.0@.len() + 1 + j;
                            assert(all[i as int][at] == pair.1@[j]);
                        }
                    }
                }
                let decoded = percent_decode(pair.1.as_str());
                let value = match decoded {
                    Some(s) => s,
                    None => pair.1,
                };
                let ghost key = pair.0@;
                map.insert(pair.0, value);
                proof {
                    assert(crate::text_map::text_values(map@) =~= crate::text_map::text_values(
                        before,
                    ).insert(key, value@));
                }
            },
            None => {},
        }
        i = i + 1;
    }
    proof {
        assert(all.take(parts@.len() as int) =~= all);
    }
    map
}

// ---------------------------------------------------------------------------------------------
// Requests
// ---------------------------------------------------------------------------------------------

/// A request that a route was found for, with what the service offers to its handler: a database
/// pool, tokens and a task runner, as far as they are configured. What middleware leaves for the
/// handler is kept in the extensions; the claims of an accepted token have a place of their own.
pub struct Request<D, R, X> {
    pub method: String,
    pub path: String,
    pub headers: HeaderMap<HeaderValue>,
    pub remote_addr: Option<String>,
    pub params: TextMap<String>,
    pub query: TextMap<String>,
    pub claims: Option<Claims>,
    pub extensions: TextMap<X>,
    pub db_pool: Option<D>,
    pub auth: Option<AuthContext>,
    pub task_runner: Option<R>,
}

/// The value under a key, as a reference.
pub open spec fn found<V>(map: Map<Seq<char>, V>, key: Seq<char>, r: Option<&V>) -> bool {
    match r {
        Some(value) => map.contains_key(key) && *value == map[key],
        None => !map.contains_key(key),
    }
}

/// The query of a request: what its query string describes, or nothing where it has none.
pub open spec fn request_query(query: Option<Seq<char>>) -> Map<Seq<char>, Seq<char>> {
    match query {
        Some(q) => query_map(text::split(q, '&')),
        None => Map::empty(),
    }
}

impl<D, R, X> Request<D, R, X> {
    /// What the headers hold.
    pub open spec fn header_map(&self) -> Map<Seq<char>, Seq<Seq<u8>>> {
        http::header_values(self.headers)
    }

    /// A request from its parts. The query string is read; no token has been accepted yet.
    pub fn from_parts(
        method: &str,
        path: &str,
        query: Option<&str>,
        headers: HeaderMap<HeaderValue>,
        remote_addr: Option<String>,
        params: TextMap<String>,
        extensions: TextMap<X>,
        db_pool: Option<D>,
        auth: Option<AuthContext>,
        task_runner: Option<R>,
    ) -> (r: Request<D, R, X>)
        ensures
            r.method@ == method@,
            r.path@ == path@,
            crate::text_map::text_values(r.query@) == request_query(
                match query {
                    Some(q) => Some(q@),
                    None => None,
                },
            ),
            query matches Some(q) ==> !q@.contains('%') ==> crate::text_map::text_values(r.query@)
                == plain_query_map(text::split(q@, '&')),
            r.headers == headers,
            r.remote_addr == remote_addr,
            r.params == params,
            r.claims is None,
            r.extensions == extensions,
            r.db_pool == db_pool,
            r.auth == auth,
            r.task_runner == task_runner,
    {
        let query = match query {
            Some(q) => parse_query(q),
            None => {
                let empty: TextMap<String> = TextMap::new();
                proof {
                    assert(crate::text_map::text_values(empty@) =~= Map::<
                        Seq<char>,
                        Seq<char>,
                    >::empty());
                }
                empty
            },
        };
        Request {
            method: method.to_owned(),
            path: path.to_owned(),
            headers,
            remote_addr,
            params,
            query,
            claims: None,
            extensions,
            db_pool,
            auth,
            task_runner,
        }
    }

    pub fn params(&self) -> (r: &TextMap<String>)
        ensures
            *r == self.params,
    {
        &self.params
    }

    /// The part of the path that a parameter of the route stands for.
    pub fn param(&self, key: &str) -> (r: Option<&String>)
        ensures
            found(self.params@, key@, r),
    {
        self.params.get(key)
    }

    pub fn query(&self) -> (r: &TextMap<String>)
        ensures
            *r == self.query,
    {
        &self.query
    }

    /// The value of a parameter in the query string.
    pub fn query_param(&self, key: &str) -> (r: Option<&str>)
        ensures
            match r {
                Some(value) => self.query@.contains_key(key@) && value@ == self.query@[key@]@,
                None => !self.query@.contains_key(key@),
            },
    {
        match self.query.get(key) {
            Some(value) => Some(value.as_str()),
            None => None,
        }
    }

    pub fn method(&self) -> (r: Method)
        ensures
            r == http::method_named(self.method@),
    {
        Method::from_name(self.method.as_str())
    }

    pub fn headers(&self) -> (r: &HeaderMap<HeaderValue>)
        ensures
            *r == self.headers,
    {
        &self.headers
    }

    pub fn remote_addr(&self) -> (r: Option<String>)
        ensures
            match r {
                Some(addr) => self.remote_addr is Some && addr@ == self.remote_addr->0@,
                None => self.remote_addr is None,
            },
    {
        match &self.remote_addr {
            Some(addr) => Some(addr.clone()),
            None => None,
        }
    }

    pub fn db_pool(&self) -> (r: Option<&D>)
        ensures
            match r {
                Some(pool) => self.db_pool == Some(*pool),
                None => self.db_pool is None,
            },
    {
        self.db_pool.as_ref()
    }

    pub fn auth(&self) -> (r: Option<&AuthContext>)
        ensures
            match r {
                Some(auth) => self.auth == Some(*auth),
                None => self.auth is None,
            },
    {
        self.auth.as_ref()
    }

    pub fn task_runner(&self) -> (r: Option<&R>)
        ensures
            match r {
                Some(runner) => self.task_runner == Some(*runner),
                None => self.task_runner is None,
            },
    {
        self.task_runner.as_ref()
    }

    pub fn extensions(&self) -> (r: &TextMap<X>)
        ensures
            *r == self.extensions,
    {
        &self.extensions
    }

    pub fn extensions_mut(&mut self) -> (r: &mut TextMap<X>)
        ensures
            *r == old(self).extensions,
            *final(self) == (Request { extensions: *final(r), ..*old(self) }),
    {
        &mut self.extensions
    }

    /// The path that was asked for.
    pub fn path(&self) -> (r: &str)
        ensures
            r@ == self.path@,
    {
        self.path.as_str()
    }

    /// The claims of the token that was accepted, if one was.
    pub fn claims(&self) -> (r: Option<&Claims>)
        ensures
            match r {
                Some(claims) => self.claims == Some(*claims),
                None => self.claims is None,
            },
    {
        self.claims.as_ref()
    }
}

/// The token in an authorization header: what follows `Bearer` and a space.
pub open spec fn bearer_token(headers: Map<Seq<char>, Seq<Seq<u8>>>) -> Option<Seq<char>> {
    match http::first_text(headers, "authorization"@) {
        Some(Some(value)) => if text::begins_with(value, "Bearer "@) {
            Some(value.skip(7))
        } else {
            None
        },
        _ => None,
    }
}

/// Reads the bearer token in a header map.
pub(crate) fn read_bearer_token(headers: &HeaderMap<HeaderValue>) -> (r: Option<String>)
    ensures
        text::optional_text(r) == bearer_token(http::header_values(*headers)),
{
    match http::header_text(headers, "authorization") {
        Some(Some(value)) => if text::has_prefix(value.as_str(), "Bearer ") {
            proof {
                reveal_strlit("Bearer ");
            }
            Some(text::after(value.as_str(), 7))
        } else {
            None
        },
        _ => None,
    }
}

/// Whether the content type of a request says that its body is JSON.
pub open spec fn says_json(headers: Map<Seq<char>, Seq<Seq<u8>>>) -> bool {
    match http::first_text(headers, "content-type"@) {
        Some(Some(value)) => text::holds(value, "application/json"@),
        _ => false,
    }
}

/// What a handler may ask of a request.
pub trait RequestExt {
    fn require_json_content_type(&self) -> Result<(), Response>;

    fn require_auth(&self) -> Result<&Claims, Response>;

    fn get_bearer_token(&self) -> Option<String>;
}

impl<D, R, X> RequestExt for Request<D, R, X> {
    /// Refuses a request whose body is not JSON.
    fn require_json_content_type(&self) -> (r: Result<(), Response>)
        ensures
            match r {
                Ok(_) => says_json(self.header_map()),
                Err(response) => !says_json(self.header_map()) && response.is_error(
                    400,
                    "Content-Type must be application/json"@,
                ),
            },
    {
        match http::header_text(&self.headers, "content-type") {
            Some(Some(value)) => if text::has_part(value.as_str(), "application/json") {
                return Ok(());
            },
            _ => {},
        }
        Err(Response::bad_request("Content-Type must be application/json"))
    }

    /// Refuses a request that no token was accepted for.
    fn require_auth(&self) -> (r: Result<&Claims, Response>)
        ensures
            match r {
                Ok(claims) => self.claims == Some(*claims),
                Err(response) => self.claims is None && response.is_error(
                    401,
                    "Authentication required"@,
                ),
            },
    {
        match self.claims() {
            Some(claims) => Ok(claims),
            None => Err(Response::unauthorized("Authentication required")),
        }
    }

    /// The token in the authorization header.
    fn get_bearer_token(&self) -> (r: Option<String>)
        ensures
            text::optional_text(r) == bearer_token(self.header_map()),
    {
        read_bearer_token(&self.headers)
    }
}

// ---------------------------------------------------------------------------------------------
// Health
// ---------------------------------------------------------------------------------------------

/// The word for the state of a component.
pub open spec fn health_word(healthy: bool) -> Seq<char> {
    if healthy {
        "healthy"@
    } else {
        "unhealthy"@
    }
}

/// What is reported of the database, where there is one.
pub open spec fn database_field(healthy: Option<bool>) -> json::JsonField {
    match healthy {
        Some(healthy) => json::JsonField::Text(health_word(healthy)),
        None => json::JsonField::Null,
    }
}

/// What is reported of the task queue, where there is one. A queue without a store behind it is
/// not configured.
pub open spec fn queue_field(healthy: Option<Option<bool>>) -> json::JsonField {
    match healthy {
        Some(Some(healthy)) => json::JsonField::Text(health_word(healthy)),
        Some(None) => json::JsonField::Text("not_configured"@),
        None => json::JsonField::Null,
    }
}

/// The body that reports on the health of the service.
pub open spec fn health_body(
    timestamp: Seq<char>,
    database: Option<bool>,
    queue: Option<Option<bool>>,
) -> Seq<char> {
    json::object_text(
        seq![
            ("status"@, json::JsonField::Text("healthy"@)),
            ("timestamp"@, json::JsonField::Text(timestamp)),
            ("database"@, database_field(database)),
            ("redis"@, queue_field(queue)),
        ],
    )
}

fn health_scalar(healthy: bool) -> (r: Scalar)
    ensures
        r.field() == json::JsonField::Text(health_word(healthy)),
{
    if healthy {
        json::text_scalar("healthy")
    } else {
        json::text_scalar("unhealthy")
    }
}

/// Reports on the health of the service. What was found out about the database counts only where
/// the request has a pool, and what was found out about the task queue only where it has a task
/// runner.
pub fn health_handler<D, R, X>(
    request: &Request<D, R, X>,
    now: Timestamp,
    database_healthy: bool,
    queue_healthy: Option<bool>,
) -> (r: Response)
    ensures
        r.is_json(
            200,
            health_body(
                now.spec_text(false),
                if request.db_pool is Some {
                    Some(database_healthy)
                } else {
                    None
                },
                if request.task_runner is Some {
                    Some(queue_healthy)
                } else {
                    None
                },
            ),
        ),
{
    let database = match &request.db_pool {
        Some(_) => health_scalar(database_healthy),
        None => Scalar::Null,
    };
    let redis = match &request.task_runner {
        Some(_) => match queue_healthy {
            Some(healthy) => health_scalar(healthy),
            None => json::text_scalar("not_configured"),
        },
        None => Scalar::Null,
    };
    let timestamp = now.text(false);
    let writer = ObjectWriter::new().member("status", json::text_scalar("healthy")).member(
        "timestamp",
        Scalar::Text(timestamp),
    ).member("database", database).member("redis", redis);
    proof {
        let database_state = if request.db_pool is Some {
            Some(database_healthy)
        } else {
            None
        };
        let queue_state = if request.task_runner is Some {
            Some(queue_healthy)
        } else {
            None
        };
        assert(writer.members() =~= seq![
            ("status"@, json::JsonField::Text("healthy"@)),
            ("timestamp"@, json::JsonField::Text(now.spec_text(false))),
            ("database"@, database_field(database_state)),
            ("redis"@, queue_field(queue_state)),
        ]);
    }
    let body = writer.finish();
    Response::json(StatusCode::new(200), Some(body))
}

// ---------------------------------------------------------------------------------------------
// What requests and responses say
// ---------------------------------------------------------------------------------------------

/// Whether a part of a query string gives a key a value: key, equals sign and value make it up, and
/// the equals sign is the first.
pub open spec fn is_part_for(part: Seq<char>, key: Seq<char>, value: Seq<char>) -> bool {
    part == key.push('=') + value && !key.contains('=')
}

/// In a query string each key stands for the decoded value of the last part that gives it one, or for
/// the value as it is where that cannot be decoded. A key that no part gives a value stands for
/// nothing.
pub proof fn values_are_decoded(parts: Seq<Seq<char>>, i: int, key: Seq<char>, value: Seq<char>)
    requires
        0 <= i < parts.len(),
        is_part_for(parts[i], key, value),
        forall|j: int, other: Seq<char>|
            i < j < parts.len() ==> !#[trigger] is_part_for(parts[j], key, other),
    ensures
        query_map(parts).contains_key(key),
        percent_decoded(value) is Some ==> query_map(parts)[key] == percent_decoded(value)->0,
        percent_decoded(value) is None ==> query_map(parts)[key] == value,
    decreases parts.len(),
{
    let last = parts.len() - 1;
    text::cut_is_first(parts.last(), '=');
    if i == last {
        text::cut_of_pair(key, value, '=');
    } else {
        let front = parts.drop_last();
        assert forall|j: int, other: Seq<char>| i < j < front.len() implies !#[trigger] is_part_for(
            front[j],
            key,
            other,
        ) by {
            assert(!is_part_for(parts[j], key, other));
        }
        values_are_decoded(front, i, key, value);
        match text::cut(parts.last(), '=') {
            Some((k, v)) => {
                assert(!is_part_for(parts[last], key, v));
            },
            None => {},
        }
    }
}

/// A key that stands for something in a query string is given a value by some part of it.
pub proof fn keys_come_from_parts(parts: Seq<Seq<char>>, key: Seq<char>)
    requires
        query_map(parts).contains_key(key),
    ensures
        exists|i: int, value: Seq<char>|
            0 <= i < parts.len() && #[trigger] is_part_for(parts[i], key, value),
    decreases parts.len(),
{
    let front = parts.drop_last();
    let last = parts.len() - 1;
    text::cut_is_first(parts.last(), '=');
    if query_map(front).contains_key(key) {
        keys_come_from_parts(front, key);
        let (i, value) = choose|i: int, value: Seq<char>|
            0 <= i < front.len() && #[trigger] is_part_for(front[i], key, value);
        assert(is_part_for(parts[i], key, value));
    } else {
        let (k, v) = text::cut(parts.last(), '=')->0;
        assert(is_part_for(parts[last], key, v));
    }
}

/// A query string that lists keys and values is read as the mapping from each key to the decoded
/// value of the last pair with it, or to the value as it is where that cannot be decoded.
pub proof fn encoded_queries_are_read(pairs: Seq<(Seq<char>, Seq<char>)>, i: int)
    requires
        0 <= i < pairs.len(),
        forall|j: int|
            0 <= j < pairs.len() ==> !(#[trigger] pairs[j]).0.contains('=')
                && !pairs[j].0.contains('&') && !pairs[j].1.contains('&'),
        forall|j: int| i < j < pairs.len() ==> (#[trigger] pairs[j]).0 != pairs[i].0,
    ensures
        ({
            let query = text::join(
                Seq::new(pairs.len(), |j: int| pairs[j].0.push('=') + pairs[j].1),
                seq!['&'],
            );
            let read = request_query(Some(query));
            &&& read.contains_key(pairs[i].0)
            &&& read[pairs[i].0] == match percent_decoded(pairs[i].1) {
                Some(decoded) => decoded,
                None => pairs[i].1,
            }
        }),
{
    let parts = Seq::new(pairs.len(), |j: int| pairs[j].0.push('=') + pairs[j].1);
    assert forall|j: int| 0 <= j < parts.len() implies !(#[trigger] parts[j]).contains('&') by {
        let (key, value) = pairs[j];
        assert forall|k: int| 0 <= k < parts[j].len() implies parts[j][k] != '&' by {
            if k < key.len() {
                assert(key.contains(key[k]));
            } else if k > key.len() {
                assert(value.contains(value[k - key.len() - 1]));
            }
        }
    }
    text::join_splits_back(parts, '&');
    assert(!pairs[i].0.contains('='));
    assert(is_part_for(parts[i], pairs[i].0, pairs[i].1));
    assert forall|j: int, other: Seq<char>| i < j < parts.len() implies !#[trigger] is_part_for(
        parts[j],
        pairs[i].0,
        other,
    ) by {
        assert(pairs[j].0 != pairs[i].0);
        assert(!pairs[j].0.contains('='));
        text::cut_of_pair(pairs[j].0, pairs[j].1, '=');
        if is_part_for(parts[j], pairs[i].0, other) {
            text::cut_of_pair(pairs[i].0, other, '=');
        }
    }
    values_are_decoded(parts, i, pairs[i].0, pairs[i].1);
}

/// A request without a query string has no query parameters.
pub proof fn without_a_query_there_are_no_parameters(key: Seq<char>)
    ensures
        !request_query(None).contains_key(key),
{
}

/// The token of a request is what makes its authorization header up behind `Bearer` and a space;
/// with any other header there is none.
pub proof fn a_bearer_token_is_read(headers: Map<Seq<char>, Seq<Seq<u8>>>, token: Seq<char>)
    ensures
        bearer_token(headers) == Some(token) <==> http::first_text(headers, "authorization"@)
            == Some(Some("Bearer "@ + token)),
{
    reveal_strlit("Bearer ");
    let bearer = "Bearer "@;
    let whole = bearer + token;
    assert(whole.take(7) =~= bearer);
    assert(whole.skip(7) =~= token);
    match http::first_text(headers, "authorization"@) {
        Some(Some(value)) => if text::begins_with(value, bearer) {
            assert(value =~= value.take(7) + value.skip(7));
        },
        _ => {},
    }
}

/// A request says that its body is JSON where that is named anywhere in its content type, and only
/// there.
pub proof fn json_is_named(
    headers: Map<Seq<char>, Seq<Seq<u8>>>,
    before: Seq<char>,
    after: Seq<char>,
)
    ensures
        http::first_text(headers, "content-type"@) == Some(
            Some(before + "application/json"@ + after),
        ) ==> says_json(headers),
        says_json(headers) ==> exists|a: Seq<char>, b: Seq<char>|
            http::first_text(headers, "content-type"@) == Some(
                Some(#[trigger] (a + "application/json"@ + b)),
            ),
{
    text::a_part_is_held(before, "application/json"@, after);
    if says_json(headers) {
        let value = http::first_text(headers, "content-type"@)->0->0;
        let (a, b) = text::what_is_held_is_a_part(value, "application/json"@);
        assert(value == a + "application/json"@ + b);
    }
}

/// The text of a cookie gives a name a value, says how long it is good for where that is known, and
/// keeps scripts and other sites from it.
pub proof fn a_cookie_says_how_it_is_kept(name: Seq<char>, value: Seq<char>, seconds: i64)
    ensures
        cookie_text(name, value, None) == name + seq!['='] + value
            + "; Path=/; HttpOnly; SameSite=Lax"@,
        cookie_text(name, value, Some(seconds)) == name + seq!['='] + value + "; Max-Age="@
            + text::decimal_int(seconds as int) + "; Path=/; HttpOnly; SameSite=Lax"@,
{
    assert(cookie_text(name, value, None) =~= name + seq!['='] + value
        + "; Path=/; HttpOnly; SameSite=Lax"@);
    assert(cookie_text(name, value, Some(seconds)) =~= name + seq!['='] + value + "; Max-Age="@
        + text::decimal_int(seconds as int) + "; Path=/; HttpOnly; SameSite=Lax"@);
}

/// A response that reports an error has the status code of the error, says in its headers that its
/// body is JSON, and its body holds the message and the code.
pub proof fn an_error_is_reported(response: Response, code: u16, message: Seq<char>)
    requires
        response.is_error(code, message),
    ensures
        response.code() == code,
        http::first_text(response.header_map(), "content-type"@) == Some(
            Some("application/json"@),
        ),
        exists|members: Seq<(Seq<char>, json::JsonField)>|
            {
                &&& response.body_text() == #[trigger] json::object_text(members)
                &&& members.len() == 2
                &&& members[0] == ("error"@, json::JsonField::Text(message))
                &&& members[1] == ("status"@, json::JsonField::Unsigned(code as u64))
            },
{
    http::lemma_header_names();
    reveal_strlit("application/json");
    let name = "content-type"@;
    http::headers_are_read_back(http::no_values(), name, name, "application/json"@);
    assert(response.header_map() =~= http::with_value(
        http::no_values(),
        name,
        "application/json"@,
    ));
    let members = seq![
        ("error"@, json::JsonField::Text(message)),
        ("status"@, json::JsonField::Unsigned(code as u64)),
    ];
    assert(response.body_text() == json::object_text(members));
}

/// The report on the health of a service names the time and the state of the database and of the
/// queue: healthy or not where there is one to ask, and nothing where there is none.
pub proof fn health_is_reported(
    timestamp: Seq<char>,
    database: Option<bool>,
    queue: Option<Option<bool>>,
)
    ensures
        exists|members: Seq<(Seq<char>, json::JsonField)>|
            {
                &&& health_body(timestamp, database, queue) == #[trigger] json::object_text(members)
                &&& members.len() == 4
                &&& members[0] == ("status"@, json::JsonField::Text("healthy"@))
                &&& members[1] == ("timestamp"@, json::JsonField::Text(timestamp))
                &&& members[2].0 == "database"@
                &&& members[3].0 == "redis"@
                &&& database == Some(true) <==> members[2].1 == json::JsonField::Text("healthy"@)
                &&& database == Some(false) <==> members[2].1 == json::JsonField::Text(
                    "unhealthy"@,
                )
                &&& database is None <==> members[2].1 == json::JsonField::Null
                &&& queue == Some(Some(true)) <==> members[3].1 == json::JsonField::Text(
                    "healthy"@,
                )
                &&& queue == Some(Some(false)) <==> members[3].1 == json::JsonField::Text(
                    "unhealthy"@,
                )
                &&& queue == Some(None::<bool>) <==> members[3].1 == json::JsonField::Text(
                    "not_configured"@,
                )
                &&& queue is None <==> members[3].1 == json::JsonField::Null
            },
{
    reveal_strlit("healthy");
    reveal_strlit("unhealthy");
    reveal_strlit("not_configured");
    assert("healthy"@.len() == 7 && "unhealthy"@.len() == 9 && "not_configured"@.len() == 14);
    let members = seq![
        ("status"@, json::JsonField::Text("healthy"@)),
        ("timestamp"@, json::JsonField::Text(timestamp)),
        ("database"@, database_field(database)),
        ("redis"@, queue_field(queue)),
    ];
    assert(health_body(timestamp, database, queue) == json::object_text(members));
}

/// Of the well-formed headers of a list the last value under a name is set, a header that is not well
/// formed changes nothing, and what no header of the list names stays.
pub proof fn the_last_header_counts(
    before: Map<Seq<char>, Seq<Seq<u8>>>,
    headers: Seq<(Seq<char>, Seq<char>)>,
    name: Seq<char>,
    value: Seq<char>,
    lower: Seq<char>,
)
    ensures
        all_set(before, Seq::empty()) == before,
        http::header_name(name) == Some(lower) && http::is_header_value(value) ==> all_set(
            before,
            headers.push((name, value)),
        ) == all_set(before, headers).insert(lower, seq![vstd::utf8::encode_utf8(value)]),
        http::header_name(name) is None || !http::is_header_value(value) ==> all_set(
            before,
            headers.push((name, value)),
        ) == all_set(before, headers),
{
    assert(headers.push((name, value)).drop_last() =~= headers);
}

/// A response in JSON has the status code and the body that it was given, and says in its headers,
/// and nowhere else than under the content type, that it is JSON.
pub proof fn json_is_answered(response: Response, code: u16, body: Seq<char>, name: Seq<char>)
    requires
        response.is_json(code, body),
    ensures
        response.code() == code,
        response.body_text() == body,
        http::first_text(response.header_map(), "content-type"@) == Some(
            Some("application/json"@),
        ),
        response.header_map().contains_key(name) ==> name == "content-type"@,
{
    http::lemma_header_names();
    reveal_strlit("application/json");
    let header = "content-type"@;
    http::headers_are_read_back(http::no_values(), header, header, "application/json"@);
    assert(response.header_map() =~= http::with_value(
        http::no_values(),
        header,
        "application/json"@,
    ));
}

/// What is looked up under a key is there exactly where something is found.
pub proof fn what_is_there_is_found<V>(map: Map<Seq<char>, V>, key: Seq<char>, r: Option<&V>)
    requires
        found(map, key, r),
    ensures
        r is Some <==> map.contains_key(key),
        r is Some ==> *r->0 == map[key],
{
}

/// A builder makes a response with the code, the body and the content type, and with its headers set
/// one after the other.
pub proof fn a_builder_sets_its_headers(
    builder: ResponseBuilder,
    response: Response,
    kind: Seq<char>,
    code: u16,
    body: Seq<char>,
)
    requires
        builder.makes(response, kind, code, body),
    ensures
        response.code() == code,
        response.body_text() == body,
        builder.headers().len() == 0 ==> response.header_map() == http::no_values().insert(
            "content-type"@,
            seq![vstd::utf8::encode_utf8(kind)],
        ),
        0 < builder.headers().len() < 6000 ==> {
            let (name, value) = builder.headers().last();
            http::header_name(name) is Some && http::is_header_value(value)
                ==> response.header_map().contains_key(http::header_name(name)->0)
                && response.header_map()[http::header_name(name)->0] == seq![
                vstd::utf8::encode_utf8(value),
            ]
        },
{
    http::lemma_header_names();
    if 0 < builder.headers().len() < 6000 {
        let (name, value) = builder.headers().last();
        let front = builder.headers().drop_last();
        assert(front.push((name, value)) =~= builder.headers());
        if http::header_name(name) is Some {
            the_last_header_counts(
                content_type(kind),
                front,
                name,
                value,
                http::header_name(name)->0,
            );
        }
    } else if builder.headers().len() == 0 {
        assert(all_set(content_type(kind), builder.headers()) == content_type(kind));
        assert(content_type(kind) =~= http::no_values().insert(
            "content-type"@,
            seq![vstd::utf8::encode_utf8(kind)],
        ));
    }
}

/// An attempt to set a header touches its name only: under it stands the new value or what stood there,
/// and the new value does wherever name and value are well formed and there is room.
pub proof fn a_header_is_set_or_left(
    before: Map<Seq<char>, Seq<Seq<u8>>>,
    after: Map<Seq<char>, Seq<Seq<u8>>>,
    name: Seq<char>,
    value: Seq<char>,
    other: Seq<char>,
)
    requires
        header_attempted(before, after, name, value),
    ensures
        http::header_name(other) != http::header_name(name) ==> http::first_text(after, other)
            == http::first_text(before, other),
        http::header_name(name) is None || !http::is_header_value(value) ==> after == before,
        http::header_name(name) is Some && http::is_header_value(value) && before.dom().finite()
            && before.dom().len() < 6553 ==> after == before.insert(
            http::header_name(name)->0,
            seq![vstd::utf8::encode_utf8(value)],
        ),
        after == before || (http::header_name(name) is Some && after == before.insert(
            http::header_name(name)->0,
            seq![vstd::utf8::encode_utf8(value)],
        )),
{
    if http::header_name(other) != http::header_name(name) {
        http::other_headers_stay(before, name, value, other);
    }
}

} // verus!
