//! Status codes, methods and header maps.

use crate::text;
use hyper::header::{HeaderName, HeaderValue};
use hyper::HeaderMap;
use vstd::prelude::*;

verus! {

/// A status code: three digits, the first of them not zero.
#[derive(Clone, Copy, PartialEq, Eq, Structural, Debug)]
pub struct StatusCode {
    code: u16,
}

impl StatusCode {
    #[verifier::type_invariant]
    spec fn has_three_digits(self) -> bool {
        100 <= self.code <= 999
    }

    /// The number of the status code.
    pub closed spec fn code(self) -> u16 {
        self.code
    }

    /// The status code with a number of three digits.
    pub fn new(code: u16) -> (r: StatusCode)
        requires
            100 <= code <= 999,
        ensures
            r.code() == code,
    {
        StatusCode { code }
    }

    /// The status code with a number, if it has three digits.
    pub fn from_u16(code: u16) -> (r: Option<StatusCode>)
        ensures
            match r {
                Some(status) => 100 <= code <= 999 && status.code() == code,
                None => code < 100 || code > 999,
            },
    {
        if 100 <= code && code <= 999 {
            Some(StatusCode { code })
        } else {
            None
        }
    }

    /// The number of the status code.
    pub fn as_u16(self) -> (r: u16)
        ensures
            r == self.code(),
            100 <= r <= 999,
    {
        proof {
            use_type_invariant(&self);
        }
        self.code
    }
}

/// A request method. Those that no route can be registered for are told apart only as far as the
/// middleware asks.
#[derive(Clone, Copy, PartialEq, Eq, Structural, Debug)]
pub enum Method {
    Get,
    Post,
    Put,
    Delete,
    Options,
    Other,
}

/// The method with a name. Names of methods are case-sensitive.
pub open spec fn method_named(name: Seq<char>) -> Method {
    if name == "GET"@ {
        Method::Get
    } else if name == "POST"@ {
        Method::Post
    } else if name == "PUT"@ {
        Method::Put
    } else if name == "DELETE"@ {
        Method::Delete
    } else if name == "OPTIONS"@ {
        Method::Options
    } else {
        Method::Other
    }
}

impl Method {
    /// The method with a name.
    pub fn from_name(name: &str) -> (r: Method)
        ensures
            r == method_named(name@),
    {
        if text::same(name, "GET") {
            Method::Get
        } else if text::same(name, "POST") {
            Method::Post
        } else if text::same(name, "PUT") {
            Method::Put
        } else if text::same(name, "DELETE") {
            Method::Delete
        } else if text::same(name, "OPTIONS") {
            Method::Options
        } else {
            Method::Other
        }
    }
}

// ---------------------------------------------------------------------------------------------
// Header maps
// ---------------------------------------------------------------------------------------------

/// The header map of `hyper`.
#[verifier::external_type_specification]
#[verifier::external_body]
#[verifier::reject_recursive_types(T)]
pub struct ExHeaderMap<T>(HeaderMap<T>);

/// A header value of `hyper`.
#[verifier::external_type_specification]
#[verifier::external_body]
pub struct ExHeaderValue(HeaderValue);

/// What a header map holds: under each name, in lower case, the values in their order.
pub uninterp spec fn header_values(m: HeaderMap<HeaderValue>) -> Map<Seq<char>, Seq<Seq<u8>>>;

/// Whether a character may stand in a header name.
pub open spec fn header_name_char(c: char) -> bool {
    ||| 'a' as u32 <= c as u32 <= 'z' as u32
    ||| 'A' as u32 <= c as u32 <= 'Z' as u32
    ||| text::is_digit(c)
    ||| c == '!' || c == '"' || c == '#' || c == '$' || c == '%' || c == '&' || c == '\''
    ||| c == '*' || c == '+' || c == '-' || c == '.' || c == '^' || c == '_' || c == '`'
    ||| c == '|' || c == '~'
}

/// The header name that a text stands for, in lower case, if it stands for one.
pub open spec fn header_name(s: Seq<char>) -> Option<Seq<char>> {
    if 1 <= s.len() <= 65535 && forall|i: int|
        0 <= i < s.len() ==> header_name_char(#[trigger] s[i]) {
        Some(s.map_values(|c: char| text::ascii_lowered(c)))
    } else {
        None
    }
}

/// Whether a text can be a header value: no control character but the tab.
pub open spec fn is_header_value(s: Seq<char>) -> bool {
    forall|i: int|
        0 <= i < s.len() ==> ((#[trigger] s[i]) as u32 >= 32 && s[i] as u32 != 127) || s[i] as u32
            == 9
}

/// Below this number of names, a header map takes in another one.
pub const HEADER_ROOM: usize = 6553;

/// Whether setting a header on a map is sure to succeed.
pub open spec fn can_set(
    before: Map<Seq<char>, Seq<Seq<u8>>>,
    name: Seq<char>,
    value: Seq<char>,
) -> bool {
    &&& header_name(name) is Some
    &&& is_header_value(value)
    &&& before.dom().finite()
    &&& before.dom().len() < HEADER_ROOM
}

/// A header map with one value under a name, in place of those that were there.
pub open spec fn with_value(
    before: Map<Seq<char>, Seq<Seq<u8>>>,
    name: Seq<char>,
    value: Seq<char>,
) -> Map<Seq<char>, Seq<Seq<u8>>> {
    match header_name(name) {
        Some(lower) => before.insert(lower, seq![vstd::utf8::encode_utf8(value)]),
        None => before,
    }
}

/// What a header map without headers holds.
pub open spec fn no_values() -> Map<Seq<char>, Seq<Seq<u8>>> {
    Map::empty()
}

/// `HeaderMap::new` of `hyper` makes a map without headers.
#[verifier::external_body]
pub(crate) fn no_headers() -> (r: HeaderMap<HeaderValue>)
    ensures
        header_values(r) == no_values(),
{
    HeaderMap::new()
}

/// `HeaderMap::try_insert` of `hyper` puts a value under a name, in place of all values that were
/// there, once `HeaderName` and `HeaderValue` have parsed the two texts. Where a text does not
/// parse, or the map refuses to grow, the map holds what it held. It refuses only where it holds
/// a number of names that `HEADER_ROOM` is below.
#[verifier::external_body]
pub(crate) fn set_header(m: &mut HeaderMap<HeaderValue>, name: &str, value: &str) -> (r: bool)
    ensures
        can_set(header_values(*old(m)), name@, value@) ==> r,
        r ==> header_name(name@) is Some && is_header_value(value@) && header_values(*final(m))
            == with_value(header_values(*old(m)), name@, value@),
        !r ==> header_values(*final(m)) == header_values(*old(m)),
{
    match (name.parse::<HeaderName>(), value.parse::<HeaderValue>()) {
        (Ok(header_name), Ok(header_value)) => m.try_insert(header_name, header_value).is_ok(),
        _ => false,
    }
}

/// Whether a byte is a visible ASCII character, a space or a tab.
pub open spec fn visible_byte(b: u8) -> bool {
    32 <= b < 127 || b == 9
}

/// The text of a header value, if all its bytes are visible.
pub open spec fn visible_text(value: Seq<u8>) -> Option<Seq<char>> {
    if forall|i: int| 0 <= i < value.len() ==> visible_byte(#[trigger] value[i]) {
        Some(value.map_values(|b: u8| b as char))
    } else {
        None
    }
}

/// The first value under a name, read as text: nothing where there is none, and `Some(None)`
/// where its bytes are not all visible.
pub open spec fn first_text(
    values: Map<Seq<char>, Seq<Seq<u8>>>,
    name: Seq<char>,
) -> Option<Option<Seq<char>>> {
    match header_name(name) {
        Some(lower) => if values.contains_key(lower) {
            Some(visible_text(values[lower][0]))
        } else {
            None
        },
        None => None,
    }
}

/// The texts of what was read.
pub open spec fn text_of(r: Option<Option<String>>) -> Option<Option<Seq<char>>> {
    match r {
        Some(Some(s)) => Some(Some(s@)),
        Some(None) => Some(None),
        None => None,
    }
}

/// `HeaderMap::get` of `hyper` finds the first value under a name, and `HeaderValue::to_str` reads
/// it as text where all its bytes are visible ASCII characters, spaces or tabs.
#[verifier::external_body]
pub(crate) fn header_text(m: &HeaderMap<HeaderValue>, name: &str) -> (r: Option<Option<String>>)
    ensures
        text_of(r) == first_text(header_values(*m), name@),
{
    m.get(name).map(|value| value.to_str().ok().map(|text| text.to_string()))
}

/// A header value of visible ASCII characters, spaces and tabs, once set, is the text that is found
/// under the name, in whatever case that is written.
pub proof fn headers_are_read_back(
    before: Map<Seq<char>, Seq<Seq<u8>>>,
    name: Seq<char>,
    same_name: Seq<char>,
    value: Seq<char>,
)
    requires
        header_name(name) is Some,
        header_name(same_name) == header_name(name),
        forall|i: int|
            0 <= i < value.len() ==> (' ' <= #[trigger] value[i] <= '~') || value[i] == '\t',
    ensures
        is_header_value(value),
        first_text(with_value(before, name, value), same_name) == Some(Some(value)),
{
    let bytes = vstd::utf8::encode_utf8(value);
    assert(vstd::utf8::is_ascii_chars(value));
    vstd::utf8::is_ascii_chars_encode_utf8(value);
    assert forall|i: int| 0 <= i < bytes.len() implies visible_byte(#[trigger] bytes[i]) by {
        assert(bytes[i] == value[i] as u8);
    }
    assert(bytes.map_values(|b: u8| b as char) =~= value) by {
        assert forall|i: int| 0 <= i < value.len() implies bytes[i] as char == value[i] by {
            assert(bytes[i] == value[i] as u8);
        }
    }
}

proof fn lemma_lower_name(s: Seq<char>)
    requires
        1 <= s.len() <= 65535,
        forall|i: int|
            0 <= i < s.len() ==> 'a' as u32 <= (#[trigger] s[i]) as u32 <= 'z' as u32 || s[i] == '-',
    ensures
        header_name(s) == Some(s),
{
    assert(s.map_values(|c: char| text::ascii_lowered(c)) =~= s);
}

/// The header names in use, in lower case.
pub(crate) proof fn lemma_header_names()
    ensures
        header_name("content-type"@) == Some("content-type"@),
        header_name("Location"@) == Some("location"@),
        header_name("retry-after"@) == Some("retry-after"@),
{
    reveal_strlit("content-type");
    lemma_lower_name("content-type"@);
    reveal_strlit("Location");
    reveal_strlit("location");
    assert("Location"@.map_values(|c: char| text::ascii_lowered(c)) =~= "location"@);
    reveal_strlit("retry-after");
    lemma_lower_name("retry-after"@);
}

/// The header values in use are well formed.
pub(crate) proof fn lemma_header_constants()
    ensures
        is_header_value("application/json"@),
        is_header_value("text/plain"@),
        is_header_value("text/html; charset=utf-8"@),
{
    reveal_strlit("application/json");
    reveal_strlit("text/plain");
    reveal_strlit("text/html; charset=utf-8");
}

/// The headers that let other sites in are well formed.
pub(crate) proof fn lemma_cors_headers()
    ensures
        header_name("access-control-allow-origin"@) == Some("access-control-allow-origin"@),
        header_name("access-control-allow-methods"@) == Some("access-control-allow-methods"@),
        header_name("access-control-allow-headers"@) == Some("access-control-allow-headers"@),
        is_header_value("*"@),
        is_header_value("GET, POST, PUT, DELETE, OPTIONS"@),
        is_header_value("Content-Type, Authorization"@),
{
    reveal_strlit("access-control-allow-origin");
    lemma_lower_name("access-control-allow-origin"@);
    reveal_strlit("access-control-allow-methods");
    lemma_lower_name("access-control-allow-methods"@);
    reveal_strlit("access-control-allow-headers");
    lemma_lower_name("access-control-allow-headers"@);
    reveal_strlit("*");
    reveal_strlit("GET, POST, PUT, DELETE, OPTIONS");
    reveal_strlit("Content-Type, Authorization");
}

/// Each of the methods that are told apart goes by one name, in capital letters, and whatever has
/// another name is some other method.
pub proof fn methods_go_by_one_name(name: Seq<char>)
    ensures
        method_named(name) == Method::Get <==> name == seq!['G', 'E', 'T'],
        method_named(name) == Method::Post <==> name == seq!['P', 'O', 'S', 'T'],
        method_named(name) == Method::Put <==> name == seq!['P', 'U', 'T'],
        method_named(name) == Method::Delete <==> name == seq!['D', 'E', 'L', 'E', 'T', 'E'],
        method_named(name) == Method::Options <==> name == seq!['O', 'P', 'T', 'I', 'O', 'N', 'S'],
{
    reveal_strlit("GET");
    reveal_strlit("POST");
    reveal_strlit("PUT");
    reveal_strlit("DELETE");
    reveal_strlit("OPTIONS");
    assert("GET"@ =~= seq!['G', 'E', 'T']);
    assert("POST"@ =~= seq!['P', 'O', 'S', 'T']);
    assert("PUT"@ =~= seq!['P', 'U', 'T']);
    assert("DELETE"@ =~= seq!['D', 'E', 'L', 'E', 'T', 'E']);
    assert("OPTIONS"@ =~= seq!['O', 'P', 'T', 'I', 'O', 'N', 'S']);
    assert("GET"@[0] == 'G' && "PUT"@[0] == 'P');
}

proof fn lemma_lowered(c: char)
    ensures
        'A' <= c <= 'Z' ==> text::ascii_lowered(c) as u32 == c as u32 + 32,
        !('A' <= c <= 'Z') ==> text::ascii_lowered(c) == c,
{
}

/// A header name is told by its letters, not by their case: it is kept letter by letter, with the
/// capital ones made small, and once in small letters it stays as it is.
pub proof fn header_names_ignore_case(s: Seq<char>, t: Seq<char>)
    requires
        header_name(s) is Some,
    ensures
        header_name(s)->0.len() == s.len(),
        forall|i: int|
            0 <= i < s.len() && 'A' <= s[i] <= 'Z' ==> (#[trigger] header_name(s)->0[i]) as u32
                == s[i] as u32 + 32,
        forall|i: int|
            0 <= i < s.len() && !('A' <= s[i] <= 'Z') ==> (#[trigger] header_name(s)->0[i])
                == s[i],
        header_name(header_name(s)->0) == header_name(s),
        header_name(t) is None ==> t.len() == 0 || t.len() > 65535 || exists|i: int|
            0 <= i < t.len() && !header_name_char(#[trigger] t[i]),
{
    let lower = header_name(s)->0;
    assert forall|i: int| 0 <= i < s.len() implies header_name_char(#[trigger] lower[i])
        && text::ascii_lowered(lower[i]) == lower[i] && ('A' <= s[i] <= 'Z' || lower[i] == s[i]) by {
        lemma_lowered(s[i]);
        assert(header_name_char(s[i]));
    }
    assert(lower.map_values(|c: char| text::ascii_lowered(c)) =~= lower);
}

/// Setting a header changes what is found under its name only.
pub proof fn other_headers_stay(
    before: Map<Seq<char>, Seq<Seq<u8>>>,
    name: Seq<char>,
    value: Seq<char>,
    other: Seq<char>,
)
    requires
        header_name(other) != header_name(name),
    ensures
        first_text(with_value(before, name, value), other) == first_text(before, other),
{
}

} // verus!
