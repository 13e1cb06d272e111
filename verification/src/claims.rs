//! What a token says of its holder, and how that is written and read.

use crate::ids;
use crate::json::{self, JsonField, ObjectWriter, Scalar};
use crate::text;
use vstd::prelude::*;

verus! {

/// What a token says of its holder: the user's identifier, email and role, and when the token
/// expires and was issued, in seconds since the start of 1970.
#[derive(Debug, Clone)]
pub struct Claims {
    pub sub: u128,
    pub email: Option<String>,
    pub role: String,
    pub exp: i64,
    pub iat: i64,
}

/// The contents of claims.
pub struct ClaimsView {
    pub sub: u128,
    pub email: Option<Seq<char>>,
    pub role: Seq<char>,
    pub exp: i64,
    pub iat: i64,
}

impl View for Claims {
    type V = ClaimsView;

    open spec fn view(&self) -> ClaimsView {
        ClaimsView {
            sub: self.sub,
            email: text::optional_text(self.email),
            role: self.role@,
            exp: self.exp,
            iat: self.iat,
        }
    }
}

// ---------------------------------------------------------------------------------------------
// Writing
// ---------------------------------------------------------------------------------------------

/// The members of the JSON object that claims are written as.
pub open spec fn claims_members(c: ClaimsView) -> Seq<(Seq<char>, JsonField)> {
    seq![
        ("sub"@, JsonField::Text(ids::uuid_text(c.sub))),
        ("email"@, json::optional_field(c.email)),
        ("role"@, JsonField::Text(c.role)),
        ("exp"@, json::integer_field(c.exp as int)),
        ("iat"@, json::integer_field(c.iat as int)),
    ]
}

/// The JSON object that claims are written as.
pub open spec fn claims_text(c: ClaimsView) -> Seq<char> {
    json::object_text(claims_members(c))
}

/// Writes claims as a JSON object.
pub fn write_claims(claims: &Claims) -> (r: String)
    ensures
        r@ == claims_text(claims@),
{
    let sub = ids::uuid_to_text(claims.sub);
    let writer = ObjectWriter::new().member("sub", Scalar::Text(sub)).member(
        "email",
        json::optional_scalar(&claims.email),
    ).member("role", json::text_scalar(claims.role.as_str())).member(
        "exp",
        Scalar::Signed(claims.exp),
    ).member("iat", Scalar::Signed(claims.iat));
    proof {
        assert(writer.members() =~= claims_members(claims@));
    }
    writer.finish()
}

// ---------------------------------------------------------------------------------------------
// Reading
// ---------------------------------------------------------------------------------------------

/// The claims that have been read so far.
pub struct ClaimsSoFar {
    sub: Option<u128>,
    email: Option<Option<String>>,
    role: Option<String>,
    exp: Option<i64>,
    iat: Option<i64>,
}

/// The contents of the claims that have been read so far.
#[verifier::ext_equal]
pub struct SoFarView {
    pub sub: Option<u128>,
    pub email: Option<Option<Seq<char>>>,
    pub role: Option<Seq<char>>,
    pub exp: Option<i64>,
    pub iat: Option<i64>,
}

impl View for ClaimsSoFar {
    type V = SoFarView;

    closed spec fn view(&self) -> SoFarView {
        SoFarView {
            sub: self.sub,
            email: match self.email {
                Some(email) => Some(text::optional_text(email)),
                None => None,
            },
            role: text::optional_text(self.role),
            exp: self.exp,
            iat: self.iat,
        }
    }
}

/// Before anything was read.
pub open spec fn nothing_read() -> SoFarView {
    SoFarView { sub: None, email: None, role: None, exp: None, iat: None }
}

/// Whether a claim of this name has been read.
pub open spec fn has_claim(so_far: SoFarView, name: Seq<char>) -> bool {
    if name == "sub"@ {
        so_far.sub is Some
    } else if name == "email"@ {
        so_far.email is Some
    } else if name == "role"@ {
        so_far.role is Some
    } else if name == "exp"@ {
        so_far.exp is Some
    } else if name == "iat"@ {
        so_far.iat is Some
    } else {
        false
    }
}

/// What comes of reading the value that stands first in a text for a member of a name: a claim is
/// taken over if it is of its kind, and any other member is passed over.
pub open spec fn claim_read(so_far: SoFarView, name: Seq<char>, text: Seq<char>) -> Result<
    SoFarView,
    Seq<char>,
> {
    if name == "sub"@ {
        match ids::json_uuid(text) {
            Ok(sub) => Ok(SoFarView { sub: Some(sub), ..so_far }),
            Err(reason) => Err(reason),
        }
    } else if name == "email"@ {
        match json::json_optional_string(text) {
            Ok(email) => Ok(SoFarView { email: Some(email), ..so_far }),
            Err(reason) => Err(reason),
        }
    } else if name == "role"@ {
        match json::json_string(text) {
            Ok(role) => Ok(SoFarView { role: Some(role), ..so_far }),
            Err(reason) => Err(reason),
        }
    } else if name == "exp"@ {
        match json::json_integer(text) {
            Ok(exp) => Ok(SoFarView { exp: Some(exp), ..so_far }),
            Err(reason) => Err(reason),
        }
    } else if name == "iat"@ {
        match json::json_integer(text) {
            Ok(iat) => Ok(SoFarView { iat: Some(iat), ..so_far }),
            Err(reason) => Err(reason),
        }
    } else {
        Ok(so_far)
    }
}

/// The claims that were read, or which one is missing first; only the email may be missing. The
/// place is the end of what was read.
pub open spec fn claims_of(so_far: SoFarView, read: Seq<char>) -> Result<ClaimsView, Seq<char>> {
    if so_far.sub is None {
        Err(json::located("missing field `sub`"@, read))
    } else if so_far.role is None {
        Err(json::located("missing field `role`"@, read))
    } else if so_far.exp is None {
        Err(json::located("missing field `exp`"@, read))
    } else if so_far.iat is None {
        Err(json::located("missing field `iat`"@, read))
    } else {
        Ok(
            ClaimsView {
                sub: so_far.sub->0,
                email: match so_far.email {
                    Some(email) => email,
                    None => None,
                },
                role: so_far.role->0,
                exp: so_far.exp->0,
                iat: so_far.iat->0,
            },
        )
    }
}

/// The reason for refusing what is not an object or an array of values. No JSON document that is one
/// of these leads to it.
pub open spec fn no_claims() -> Seq<char> {
    "invalid type: expected struct Claims"@
}

/// The message that a claim occurs more than once.
pub open spec fn occurs_twice(name: Seq<char>) -> Seq<char> {
    "duplicate field `"@ + name + "`"@
}

/// What comes of reading the members of an object from a place on. The first member that is at fault
/// is reported: one whose name cannot be read, a claim that was read before, or a claim that is not
/// of its kind.
pub open spec fn members_read(s: Seq<char>, i: nat, so_far: SoFarView) -> Result<
    ClaimsView,
    Seq<char>,
>
    decreases s.len() - i,
{
    let at = json::past_space(s, i);
    if at >= s.len() {
        Err(no_claims())
    } else if s[at as int] == '}' {
        claims_of(so_far, s.take(at as int + 1))
    } else {
        let key = if s[at as int] == ',' {
            json::past_space(s, at + 1)
        } else {
            at
        };
        match (json::value_len(s, key), json::json_string(json::placed(s, key))) {
            (None, _) => Err(no_claims()),
            (_, Err(reason)) => Err(reason),
            (Some(key_len), Ok(name)) => {
                let colon = json::past_space(s, key + key_len);
                if colon >= s.len() {
                    Err(no_claims())
                } else if has_claim(so_far, name) {
                    Err(json::located(occurs_twice(name), s.take(colon as int)))
                } else {
                    let value = json::past_space(s, colon + 1);
                    match (claim_read(so_far, name, json::placed(s, value)), json::value_len(s, value)) {
                        (Err(reason), _) => Err(reason),
                        (_, None) => Err(no_claims()),
                        (Ok(more), Some(len)) => if i < value + len <= s.len() {
                            members_read(s, value + len, more)
                        } else {
                            Err(no_claims())
                        },
                    }
                }
            },
        }
    }
}

/// The name of a claim by its place in the list of claims.
pub open spec fn claim_name(n: int) -> Seq<char> {
    if n == 0 {
        "sub"@
    } else if n == 1 {
        "email"@
    } else if n == 2 {
        "role"@
    } else if n == 3 {
        "exp"@
    } else {
        "iat"@
    }
}

/// What comes of reading the claims from the elements of an array, from a place and a claim on: they
/// stand there in their order, and there is nothing else.
pub open spec fn elements_read(s: Seq<char>, i: nat, n: nat, so_far: SoFarView) -> Result<
    ClaimsView,
    Seq<char>,
>
    decreases s.len() - i,
{
    let at = json::past_space(s, i);
    if at >= s.len() {
        Err(no_claims())
    } else if s[at as int] == ']' {
        if n < 5 {
            Err(json::located(wrong_length(n), s.take(at as int + 1)))
        } else {
            claims_of(so_far, s.take(at as int + 1))
        }
    } else {
        let value = if s[at as int] == ',' {
            json::past_space(s, at + 1)
        } else {
            at
        };
        if value >= s.len() {
            Err(no_claims())
        } else if n >= 5 {
            Err(json::located("trailing characters"@, s.take(value as int + 1)))
        } else {
            match (
                claim_read(so_far, claim_name(n as int), json::placed(s, value)),
                json::value_len(s, value),
            ) {
                (Err(reason), _) => Err(reason),
                (_, None) => Err(no_claims()),
                (Ok(more), Some(len)) => if i < value + len <= s.len() {
                    elements_read(s, value + len, n + 1, more)
                } else {
                    Err(no_claims())
                },
            }
        }
    }
}

/// The message that an array has too few elements.
pub open spec fn wrong_length(n: nat) -> Seq<char> {
    "invalid length "@ + text::decimal(n) + ", expected struct Claims with 5 elements"@
}

/// The claims in the payload of a token, or why it holds none.
pub open spec fn claims_read(s: Seq<char>) -> Result<ClaimsView, Seq<char>> {
    let at = json::past_space(s, 0);
    if at < s.len() && s[at as int] == '{' {
        members_read(s, at + 1, nothing_read())
    } else if at < s.len() && s[at as int] == '[' {
        elements_read(s, at + 1, 0, nothing_read())
    } else {
        Err(no_claims())
    }
}

/// What came of reading claims.
pub open spec fn claims_or_reason(r: Result<Claims, String>) -> Result<ClaimsView, Seq<char>> {
    match r {
        Ok(claims) => Ok(claims@),
        Err(reason) => Err(reason@),
    }
}

/// What came of reading a claim.
pub open spec fn so_far_or_reason(r: Result<ClaimsSoFar, String>) -> Result<SoFarView, Seq<char>> {
    match r {
        Ok(so_far) => Ok(so_far@),
        Err(reason) => Err(reason@),
    }
}

/// The field that a claim is written as.
pub open spec fn claim_field(c: ClaimsView, name: Seq<char>) -> JsonField {
    if name == "sub"@ {
        JsonField::Text(ids::uuid_text(c.sub))
    } else if name == "email"@ {
        json::optional_field(c.email)
    } else if name == "role"@ {
        JsonField::Text(c.role)
    } else if name == "exp"@ {
        json::integer_field(c.exp as int)
    } else {
        json::integer_field(c.iat as int)
    }
}

/// What has been read, with a claim out of others.
pub open spec fn claim_taken(so_far: SoFarView, c: ClaimsView, name: Seq<char>) -> SoFarView {
    if name == "sub"@ {
        SoFarView { sub: Some(c.sub), ..so_far }
    } else if name == "email"@ {
        SoFarView { email: Some(c.email), ..so_far }
    } else if name == "role"@ {
        SoFarView { role: Some(c.role), ..so_far }
    } else if name == "exp"@ {
        SoFarView { exp: Some(c.exp), ..so_far }
    } else {
        SoFarView { iat: Some(c.iat), ..so_far }
    }
}

/// Whether this is the name of a claim.
pub open spec fn is_claim(name: Seq<char>) -> bool {
    name == "sub"@ || name == "email"@ || name == "role"@ || name == "exp"@ || name == "iat"@
}

/// What has been read after the first claims.
spec fn after_claims(c: ClaimsView, n: int) -> SoFarView
    decreases n,
{
    if n <= 0 {
        nothing_read()
    } else {
        claim_taken(after_claims(c, n - 1), c, claim_name(n - 1))
    }
}

/// What stands in the text of an object from a member on.
spec fn members_rest(members: Seq<(Seq<char>, JsonField)>, n: int) -> Seq<char>
    decreases members.len() - n,
{
    if n < 0 || n >= members.len() {
        seq!['}']
    } else {
        let member = json::quoted(members[n].0) + (seq![':'] + (json::field_text(members[n].1)
            + members_rest(members, n + 1)));
        if n == 0 {
            member
        } else {
            seq![','] + member
        }
    }
}

proof fn lemma_members_rest(members: Seq<(Seq<char>, JsonField)>, n: int)
    requires
        0 <= n <= members.len(),
    ensures
        json::members_text(members.take(n)) + members_rest(members, n) == json::members_text(
            members,
        ) + seq!['}'],
    decreases members.len() - n,
{
    if n == members.len() {
        assert(members.take(n) =~= members);
    } else {
        lemma_members_rest(members, n + 1);
        let next = members.take(n + 1);
        assert(next.drop_last() =~= members.take(n));
        assert(next.last() == members[n]);
        let last = json::quoted(members[n].0) + seq![':'] + json::field_text(members[n].1);
        if n == 0 {
            assert(members.take(0).len() == 0);
            assert(json::members_text(members.take(n)) + members_rest(members, n)
                =~= json::members_text(next) + members_rest(members, n + 1));
        } else {
            assert(json::members_text(next) == json::members_text(members.take(n)) + seq![',']
                + last);
            assert(json::members_text(members.take(n)) + members_rest(members, n)
                =~= json::members_text(next) + members_rest(members, n + 1));
        }
    }
}

proof fn lemma_claim_names()
    ensures
        "sub"@ != "email"@,
        "sub"@ != "role"@,
        "sub"@ != "exp"@,
        "sub"@ != "iat"@,
        "email"@ != "role"@,
        "email"@ != "exp"@,
        "email"@ != "iat"@,
        "role"@ != "exp"@,
        "role"@ != "iat"@,
        "exp"@ != "iat"@,
{
    reveal_strlit("sub");
    reveal_strlit("email");
    reveal_strlit("role");
    reveal_strlit("exp");
    reveal_strlit("iat");
    assert("sub"@[0] == 's' && "email"@[0] == 'e' && "role"@[0] == 'r');
    assert("exp"@[0] == 'e' && "iat"@[0] == 'i' && "exp"@.len() == 3 && "email"@.len() == 5);
}

proof fn lemma_claims_start(c: ClaimsView)
    ensures
        claims_text(c).len() > 0,
        claims_text(c)[0] == '{',
        claims_text(c).skip(1) == members_rest(claims_members(c), 0),
{
    let m = claims_members(c);
    lemma_members_rest(m, 0);
    assert(m.take(0).len() == 0);
    assert(json::members_text(m.take(0)) =~= Seq::<char>::empty());
    assert(claims_text(c).skip(1) =~= members_rest(m, 0));
}

proof fn lemma_after_claims(c: ClaimsView, n: int)
    requires
        0 <= n <= 5,
    ensures
        n < 5 ==> !has_claim(after_claims(c, n), claim_name(n)),
        n == 5 ==> forall|read: Seq<char>| #[trigger]
            claims_of(after_claims(c, n), read) == Ok::<ClaimsView, Seq<char>>(c),
{
    lemma_claim_names();
    reveal_with_fuel(after_claims, 6);
}

/// The first character of a scalar is no white space.
proof fn lemma_scalar_start(field: JsonField)
    requires
        json::is_scalar(field),
    ensures
        json::field_text(field).len() > 0,
        !json::is_space(json::field_text(field)[0]),
{
    match field {
        JsonField::Null => {
            reveal_strlit("null");
        },
        JsonField::Bool(b) => {
            reveal_strlit("true");
            reveal_strlit("false");
        },
        JsonField::Unsigned(n) => {
            lemma_decimal_start(n as nat);
        },
        JsonField::Negative(n) => {},
        JsonField::Text(s) => {},
        JsonField::Other(s) => {},
    }
}

proof fn lemma_decimal_start(n: nat)
    ensures
        text::decimal(n).len() > 0,
        text::is_digit(text::decimal(n)[0]),
    decreases n,
{
    if n >= 10 {
        lemma_decimal_start(n / 10);
    }
}

/// What follows the head of what stands from a place on.
proof fn lemma_skip(s: Seq<char>, i: int, head: Seq<char>, tail: Seq<char>)
    requires
        0 <= i <= s.len(),
        s.skip(i) == head + tail,
    ensures
        i + head.len() <= s.len(),
        s.skip(i + head.len()) == tail,
        head.len() > 0 ==> s[i] == head[0],
        tail.len() > 0 ==> i + head.len() < s.len() && s[i + head.len()] == tail[0],
{
    let whole = s.skip(i);
    let from: int = i + head.len();
    assert(whole =~= s.subrange(i, s.len() as int));
    assert(whole.len() == s.len() - i);
    assert forall|k: int| 0 <= k < whole.len() implies #[trigger] whole[k] == s[i + k] by {}
    assert(s.skip(from) =~= s.subrange(from, s.len() as int));
    assert forall|k: int| 0 <= k < tail.len() implies s.skip(from)[k] == #[trigger] tail[k] by {
        assert(whole[head.len() + k] == tail[k]);
        assert(s[from + k] == whole[head.len() + k]);
    }
    assert(s.skip(from) =~= tail);
    if head.len() > 0 {
        assert(whole[0] == head[0]);
    }
    if tail.len() > 0 {
        assert(s.skip(from)[0] == tail[0]);
    }
}

/// Where the parts of a member stand in a text that holds the members of claims from it on.
proof fn lemma_member(s: Seq<char>, i: nat, c: ClaimsView, n: int)
    requires
        0 <= n < 5,
        i <= s.len(),
        s.skip(i as int) == members_rest(claims_members(c), n),
    ensures
        ({
            let name = claim_name(n);
            let field = claim_field(c, name);
            let rest = members_rest(claims_members(c), n + 1);
            let at = json::past_space(s, i);
            let key = if s[at as int] == ',' {
                json::past_space(s, at + 1)
            } else {
                at
            };
            let colon = json::past_space(s, key + json::quoted(name).len());
            let value = json::past_space(s, colon + 1);
            &&& at < s.len()
            &&& s[at as int] != '}'
            &&& key <= s.len()
            &&& s.skip(key as int) == json::field_text(JsonField::Text(name)) + (seq![':']
                + json::field_text(field) + rest)
            &&& json::placed(s, key) == json::blanked(s.take(key as int)) + json::quoted(name) + (
            seq![':'] + json::field_text(field) + rest)
            &&& json::ends_value(seq![':'] + json::field_text(field) + rest)
            &&& colon < s.len()
            &&& value <= s.len()
            &&& s.skip(value as int) == json::field_text(field) + rest
            &&& json::placed(s, value) == json::blanked(s.take(value as int)) + json::field_text(
                field,
            ) + rest
            &&& json::is_blank(json::blanked(s.take(key as int)))
            &&& json::is_blank(json::blanked(s.take(value as int)))
            &&& json::ends_value(rest)
            &&& json::is_scalar(field)
            &&& s.skip((value + json::field_text(field).len()) as int) == rest
        }),
{
    lemma_claim_names();
    let m = claims_members(c);
    let name = claim_name(n);
    let field = claim_field(c, name);
    let rest = members_rest(m, n + 1);
    let tail = s.skip(i as int);
    let quoted = json::quoted(name);
    let value_text = json::field_text(field);
    assert(m[n].0 == name && m[n].1 == field);
    lemma_scalar_start(field);
    assert(tail.len() == s.len() - i);
    assert(tail[0] == s[i as int]);
    assert(json::past_space(s, i) == i);
    let after_key = seq![':'] + value_text + rest;
    let member = quoted + (seq![':'] + (value_text + rest));
    assert(member =~= quoted + after_key);
    assert(quoted[0] == '"');
    let key: nat = if n == 0 {
        i
    } else {
        i + 1
    };
    if n > 0 {
        lemma_skip(s, i as int, seq![','], member);
    } else {
        assert(s[i as int] == member[0]);
    }
    assert(s.skip(key as int) == quoted + after_key);
    let colon = key + quoted.len();
    lemma_skip(s, key as int, quoted, after_key);
    assert(after_key =~= seq![':'] + (value_text + rest));
    let value = colon + 1;
    lemma_skip(s, colon as int, seq![':'], value_text + rest);
    lemma_skip(s, value as int, value_text, rest);
    assert(json::past_space(s, key) == key);
    assert(json::past_space(s, colon) == colon);
    assert(json::past_space(s, value) == value);
    assert(json::placed(s, key) =~= json::blanked(s.take(key as int)) + quoted + after_key);
    assert(json::placed(s, value) =~= json::blanked(s.take(value as int)) + value_text + rest);
    json::blanked_is_blank(s.take(key as int));
    json::blanked_is_blank(s.take(value as int));
    assert(rest[0] == ',' || rest[0] == '}');
}

impl ClaimsSoFar {
    fn new() -> (r: ClaimsSoFar)
        ensures
            r@ == nothing_read(),
    {
        ClaimsSoFar { sub: None, email: None, role: None, exp: None, iat: None }
    }

    fn has(&self, name: &str) -> (r: bool)
        ensures
            r == has_claim(self@, name@),
    {
        if text::same(name, "sub") {
            self.sub.is_some()
        } else if text::same(name, "email") {
            self.email.is_some()
        } else if text::same(name, "role") {
            self.role.is_some()
        } else if text::same(name, "exp") {
            self.exp.is_some()
        } else if text::same(name, "iat") {
            self.iat.is_some()
        } else {
            false
        }
    }

    /// Takes over the value that stands first in a text, if the name is that of a claim. A claim that
    /// was written is taken over as it was.
    fn with(self, name: &str, value: &str) -> (r: Result<ClaimsSoFar, String>)
        ensures
            so_far_or_reason(r) == claim_read(self@, name@, value@),
            forall|c: ClaimsView, pad: Seq<char>, rest: Seq<char>|
                is_claim(name@) && value@ == #[trigger] (pad + json::field_text(
                    claim_field(c, name@),
                ) + rest) && json::is_blank(pad) && json::ends_value(rest) ==> r is Ok
                    && r->Ok_0@ == claim_taken(self@, c, name@),
    {
        let mut so_far = self;
        if text::same(name, "sub") {
            so_far.sub = match ids::uuid_first(value) {
                Ok(sub) => Some(sub),
                Err(reason) => return Err(reason),
            };
        } else if text::same(name, "email") {
            so_far.email = match json::optional_string_first(value) {
                Ok(email) => Some(email),
                Err(reason) => return Err(reason),
            };
        } else if text::same(name, "role") {
            so_far.role = match json::string_first(value) {
                Ok(role) => Some(role),
                Err(reason) => return Err(reason),
            };
        } else if text::same(name, "exp") {
            so_far.exp = match json::integer_first(value) {
                Ok(exp) => Some(exp),
                Err(reason) => return Err(reason),
            };
        } else if text::same(name, "iat") {
            so_far.iat = match json::integer_first(value) {
                Ok(iat) => Some(iat),
                Err(reason) => return Err(reason),
            };
        }
        Ok(so_far)
    }

    /// Makes claims of what was read, after so many characters.
    fn finish(self, chars: &Vec<char>, read: usize) -> (r: Result<Claims, String>)
        requires
            read <= chars@.len(),
        ensures
            claims_or_reason(r) == claims_of(self@, chars@.take(read as int)),
    {
        let sub = match self.sub {
            Some(sub) => sub,
            None => return Err(json::locate("missing field `sub`", chars, read)),
        };
        let role = match self.role {
            Some(role) => role,
            None => return Err(json::locate("missing field `role`", chars, read)),
        };
        let exp = match self.exp {
            Some(exp) => exp,
            None => return Err(json::locate("missing field `exp`", chars, read)),
        };
        let iat = match self.iat {
            Some(iat) => iat,
            None => return Err(json::locate("missing field `iat`", chars, read)),
        };
        let email = match self.email {
            Some(email) => email,
            None => None,
        };
        Ok(Claims { sub, email, role, exp, iat })
    }
}

fn refuse_claims() -> (r: Result<Claims, String>)
    ensures
        r is Err,
        claims_or_reason(r) == Err::<ClaimsView, Seq<char>>(no_claims()),
{
    Err("invalid type: expected struct Claims".to_owned())
}

#[verifier::rlimit(60)]
fn read_members(chars: &Vec<char>, start: usize) -> (r: Result<Claims, String>)
    requires
        start <= chars@.len(),
    ensures
        claims_or_reason(r) == members_read(chars@, start as nat, nothing_read()),
        forall|c: ClaimsView|
            start == 1 && #[trigger] claims_text(c) == chars@ ==> r is Ok && r->Ok_0@ == c,
{
    let ghost s = chars@;
    let mut i: usize = start;
    let mut so_far = ClaimsSoFar::new();
    let ghost mut n: int = 0;
    proof {
        assert forall|c: ClaimsView| start == 1 && #[trigger] claims_text(c) == s implies s.skip(
            i as int,
        ) == members_rest(claims_members(c), n) && so_far@ == after_claims(c, n) by {
            lemma_claims_start(c);
        }
    }
    loop
        invariant
            s == chars@,
            start <= i <= s.len(),
            members_read(s, i as nat, so_far@) == members_read(s, start as nat, nothing_read()),
            forall|c: ClaimsView|
                start == 1 && #[trigger] claims_text(c) == s ==> {
                    &&& 0 <= n <= 5
                    &&& s.skip(i as int) == members_rest(claims_members(c), n)
                    &&& so_far@ == after_claims(c, n)
                },
        decreases s.len() - i,
    {
        let at: usize = json::skip_space(chars, i);
        proof {
            assert forall|c: ClaimsView| start == 1 && #[trigger] claims_text(c) == s implies at
                < s.len() && (s[at as int] == '}' <==> n == 5) by {
                if n < 5 {
                    lemma_member(s, i as nat, c, n);
                } else {
                    assert(s.skip(i as int)[0] == '}');
                    assert(s[i as int] == '}');
                }
            }
        }
        if at >= chars.len() {
            return refuse_claims();
        }
        if chars[at] == '}' {
            proof {
                assert forall|c: ClaimsView| start == 1 && #[trigger] claims_text(c)
                    == s implies claims_of(so_far@, s.take(at + 1)) == Ok::<
                    ClaimsView,
                    Seq<char>,
                >(c) by {
                    lemma_after_claims(c, 5);
                }
            }
            return so_far.finish(chars, at + 1);
        }
        let key: usize = if chars[at] == ',' {
            json::skip_space(chars, at + 1)
        } else {
            at
        };
        let measured = json::measure_value(chars, key);
        proof {
            assert forall|c: ClaimsView| start == 1 && #[trigger] claims_text(c) == s implies measured
                is Some && measured->0 == json::quoted(claim_name(n)).len() by {
                lemma_member(s, i as nat, c, n);
            }
        }
        let key_len: usize = match measured {
            Some(key_len) => key_len,
            None => return refuse_claims(),
        };
        let key_text = json::place(chars, key);
        let key_read = json::string_first(key_text.as_str());
        proof {
            assert forall|c: ClaimsView| start == 1 && #[trigger] claims_text(c) == s implies key_read
                is Ok && key_read->Ok_0@ == claim_name(n) by {
                lemma_member(s, i as nat, c, n);
            }
        }
        let name = match key_read {
            Ok(name) => name,
            Err(reason) => return Err(reason),
        };
        let colon: usize = json::skip_space(chars, key + key_len);
        proof {
            assert forall|c: ClaimsView| start == 1 && #[trigger] claims_text(c) == s implies colon
                < s.len() && !has_claim(so_far@, name@) by {
                lemma_member(s, i as nat, c, n);
                lemma_after_claims(c, n);
            }
        }
        if colon >= chars.len() {
            return refuse_claims();
        }
        if so_far.has(name.as_str()) {
            let mut message = "duplicate field `".to_owned();
            message.append(name.as_str());
            message.append("`");
            return Err(json::locate(message.as_str(), chars, colon));
        }
        let value: usize = json::skip_space(chars, colon + 1);
        let value_text = json::place(chars, value);
        let ghost before = so_far@;
        let more = so_far.with(name.as_str(), value_text.as_str());
        proof {
            assert forall|c: ClaimsView| start == 1 && #[trigger] claims_text(c) == s implies more
                is Ok && more->Ok_0@ == after_claims(c, n + 1) by {
                lemma_member(s, i as nat, c, n);
                let pad = json::blanked(s.take(value as int));
                let rest = members_rest(claims_members(c), n + 1);
                assert(value_text@ == pad + json::field_text(claim_field(c, name@)) + rest);
            }
        }
        so_far = match more {
            Ok(more) => more,
            Err(reason) => return Err(reason),
        };
        let measured = json::measure_value(chars, value);
        proof {
            assert forall|c: ClaimsView| start == 1 && #[trigger] claims_text(c) == s implies measured
                is Some && s.skip(value + measured->0) == members_rest(claims_members(c), n + 1) by {
                lemma_member(s, i as nat, c, n);
                assert(json::field_text(claim_field(c, name@)) + members_rest(
                    claims_members(c),
                    n + 1,
                ) == s.skip(value as int));
            }
        }
        let len: usize = match measured {
            Some(len) => len,
            None => return refuse_claims(),
        };
        i = value + len;
        proof {
            n = n + 1;
        }
    }
}

fn read_elements(chars: &Vec<char>, start: usize) -> (r: Result<Claims, String>)
    requires
        start <= chars@.len(),
    ensures
        claims_or_reason(r) == elements_read(chars@, start as nat, 0, nothing_read()),
{
    let ghost s = chars@;
    let mut i: usize = start;
    let mut n: usize = 0;
    let mut so_far = ClaimsSoFar::new();
    loop
        invariant
            s == chars@,
            start <= i <= s.len(),
            n <= 5,
            elements_read(s, i as nat, n as nat, so_far@) == elements_read(
                s,
                start as nat,
                0,
                nothing_read(),
            ),
        decreases s.len() - i,
    {
        let at: usize = json::skip_space(chars, i);
        if at >= chars.len() {
            return refuse_claims();
        }
        if chars[at] == ']' {
            if n < 5 {
                let mut message = "invalid length ".to_owned();
                let number = text::u64_text(n as u64);
                message.append(number.as_str());
                message.append(", expected struct Claims with 5 elements");
                return Err(json::locate(message.as_str(), chars, at + 1));
            }
            return so_far.finish(chars, at + 1);
        }
        let value: usize = if chars[at] == ',' {
            json::skip_space(chars, at + 1)
        } else {
            at
        };
        if value >= chars.len() {
            return refuse_claims();
        }
        if n >= 5 {
            return Err(json::locate("trailing characters", chars, value + 1));
        }
        let name = if n == 0 {
            "sub"
        } else if n == 1 {
            "email"
        } else if n == 2 {
            "role"
        } else if n == 3 {
            "exp"
        } else {
            "iat"
        };
        let value_text = json::place(chars, value);
        so_far = match so_far.with(name, value_text.as_str()) {
            Ok(more) => more,
            Err(reason) => return Err(reason),
        };
        let len: usize = match json::measure_value(chars, value) {
            Some(len) => len,
            None => return refuse_claims(),
        };
        if value + len == i {
            return refuse_claims();
        }
        i = value + len;
        n = n + 1;
    }
}

/// Reads the claims in the payload of a token, or tells why it holds none. Claims that were written
/// are read back as they were.
pub fn read_claims(payload: &str) -> (r: Result<Claims, String>)
    ensures
        claims_or_reason(r) == claims_read(payload@),
        forall|made: ClaimsView| #[trigger]
            claims_text(made) == payload@ ==> r is Ok && r->Ok_0@ == made,
{
    let chars = text::chars_of(payload);
    let at: usize = json::skip_space(&chars, 0);
    proof {
        assert forall|made: ClaimsView| #[trigger] claims_text(made) == payload@ implies at == 0
            && payload@.len() > 0 && payload@[0] == '{' by {
            lemma_claims_start(made);
        }
    }
    if at < chars.len() && chars[at] == '{' {
        read_members(&chars, at + 1)
    } else if at < chars.len() && chars[at] == '[' {
        read_elements(&chars, at + 1)
    } else {
        refuse_claims()
    }
}

// ---------------------------------------------------------------------------------------------
// What reading comes to
// ---------------------------------------------------------------------------------------------

/// Claims are made up from what was read exactly where the user, the role and the two times are there;
/// the email may be missing. Otherwise the first that is missing is named.
pub proof fn what_claims_take(so_far: SoFarView, read: Seq<char>)
    ensures
        claims_of(so_far, read) is Ok <==> so_far.sub is Some && so_far.role is Some && so_far.exp
            is Some && so_far.iat is Some,
        claims_of(so_far, read) is Ok ==> {
            let c = claims_of(so_far, read)->Ok_0;
            &&& so_far.sub == Some(c.sub)
            &&& so_far.role == Some(c.role)
            &&& so_far.exp == Some(c.exp)
            &&& so_far.iat == Some(c.iat)
            &&& so_far.email == Some(c.email) || (so_far.email is None && c.email is None)
        },
        so_far.sub is None ==> claims_of(so_far, read) == Err::<ClaimsView, Seq<char>>(
            json::located("missing field `sub`"@, read),
        ),
        so_far.sub is Some && so_far.role is None ==> claims_of(so_far, read) == Err::<
            ClaimsView,
            Seq<char>,
        >(json::located("missing field `role`"@, read)),
        so_far.sub is Some && so_far.role is Some && so_far.exp is None ==> claims_of(so_far, read)
            == Err::<ClaimsView, Seq<char>>(json::located("missing field `exp`"@, read)),
        so_far.sub is Some && so_far.role is Some && so_far.exp is Some && so_far.iat is None
            ==> claims_of(so_far, read) == Err::<ClaimsView, Seq<char>>(
            json::located("missing field `iat`"@, read),
        ),
{
}

/// At first no claim is there. Reading one puts it there and leaves the others as they are; a name
/// that is none of a claim changes nothing.
pub proof fn each_claim_is_read_by_its_name(
    so_far: SoFarView,
    name: Seq<char>,
    text: Seq<char>,
    other: Seq<char>,
)
    ensures
        !has_claim(nothing_read(), other),
        !is_claim(name) ==> claim_read(so_far, name, text) == Ok::<SoFarView, Seq<char>>(so_far)
            && !has_claim(so_far, name),
        claim_read(so_far, name, text) is Ok ==> {
            let more = claim_read(so_far, name, text)->Ok_0;
            &&& is_claim(name) ==> has_claim(more, name)
            &&& other != name ==> has_claim(more, other) == has_claim(so_far, other)
            &&& name != "sub"@ ==> more.sub == so_far.sub
            &&& name != "email"@ ==> more.email == so_far.email
            &&& name != "role"@ ==> more.role == so_far.role
            &&& name != "exp"@ ==> more.exp == so_far.exp
            &&& name != "iat"@ ==> more.iat == so_far.iat
        },
{
    lemma_claim_names();
}

/// The value of a claim is what its text says.
pub proof fn each_claim_is_what_its_text_says(so_far: SoFarView, text: Seq<char>)
    ensures
        match ids::json_uuid(text) {
            Ok(sub) => claim_read(so_far, "sub"@, text) is Ok && claim_read(
                so_far,
                "sub"@,
                text,
            )->Ok_0.sub == Some(sub),
            Err(reason) => claim_read(so_far, "sub"@, text) == Err::<SoFarView, Seq<char>>(reason),
        },
        match json::json_optional_string(text) {
            Ok(email) => claim_read(so_far, "email"@, text) is Ok && claim_read(
                so_far,
                "email"@,
                text,
            )->Ok_0.email == Some(email),
            Err(reason) => claim_read(so_far, "email"@, text) == Err::<SoFarView, Seq<char>>(
                reason,
            ),
        },
        match json::json_string(text) {
            Ok(role) => claim_read(so_far, "role"@, text) is Ok && claim_read(
                so_far,
                "role"@,
                text,
            )->Ok_0.role == Some(role),
            Err(reason) => claim_read(so_far, "role"@, text) == Err::<SoFarView, Seq<char>>(
                reason,
            ),
        },
        match json::json_integer(text) {
            Ok(n) => {
                &&& claim_read(so_far, "exp"@, text) is Ok
                &&& claim_read(so_far, "exp"@, text)->Ok_0.exp == Some(n)
                &&& claim_read(so_far, "iat"@, text) is Ok
                &&& claim_read(so_far, "iat"@, text)->Ok_0.iat == Some(n)
            },
            Err(reason) => {
                &&& claim_read(so_far, "exp"@, text) == Err::<SoFarView, Seq<char>>(reason)
                &&& claim_read(so_far, "iat"@, text) == Err::<SoFarView, Seq<char>>(reason)
            },
        },
{
    lemma_claim_names();
}

/// A member of an object is read by its name wherever it stands: where the claim is there already it
/// is refused, and else reading goes on behind its value with what it says.
pub proof fn members_are_read_in_turn(
    s: Seq<char>,
    key: nat,
    name: Seq<char>,
    key_len: nat,
    len: nat,
    so_far: SoFarView,
)
    requires
        key < s.len(),
        !json::is_space(s[key as int]),
        s[key as int] != '}' && s[key as int] != ',',
        json::value_len(s, key) == Some(key_len),
        key_len > 0,
        json::json_string(json::placed(s, key)) == Ok::<Seq<char>, Seq<char>>(name),
        key + key_len < s.len(),
        s[(key + key_len) as int] == ':',
        key + key_len + 1 < s.len(),
        !json::is_space(s[(key + key_len + 1) as int]),
        json::value_len(s, key + key_len + 1) == Some(len),
    ensures
        ({
            let value = key + key_len + 1;
            let read = claim_read(so_far, name, json::placed(s, value));
            &&& has_claim(so_far, name) ==> members_read(s, key, so_far) == Err::<
                ClaimsView,
                Seq<char>,
            >(json::located("duplicate field `"@ + name + "`"@, s.take((key + key_len) as int)))
            &&& !has_claim(so_far, name) && read is Ok ==> members_read(s, key, so_far)
                == members_read(s, value + len, read->Ok_0)
            &&& !has_claim(so_far, name) && read is Err ==> members_read(s, key, so_far) == Err::<
                ClaimsView,
                Seq<char>,
            >(read->Err_0)
        }),
{
    let colon = key + key_len;
    let value = colon + 1;
    assert(json::past_space(s, key) == key);
    assert(json::past_space(s, colon) == colon);
    assert(json::past_space(s, value) == value);
    assert(value + len <= s.len());
}

/// An object may have blanks and a comma before a member. It ends with a brace, and the claims are then
/// made up from what was read.
pub proof fn objects_end_with_a_brace(s: Seq<char>, i: nat, so_far: SoFarView)
    requires
        i < s.len(),
    ensures
        s[i as int] == '}' ==> members_read(s, i, so_far) == claims_of(so_far, s.take(i as int + 1)),
        json::is_space(s[i as int]) ==> json::past_space(s, i) == json::past_space(s, i + 1),
        members_read(s, s.len(), so_far) is Err,
{
    assert(json::past_space(s, s.len()) == s.len());
    if s[i as int] == '}' {
        assert(json::past_space(s, i) == i);
    }
}

/// An array gives the five claims in their order, and neither fewer nor more of them.
pub proof fn arrays_give_five_claims(s: Seq<char>, i: nat, n: nat, len: nat, so_far: SoFarView)
    requires
        i < s.len(),
        !json::is_space(s[i as int]),
        s[i as int] != ',',
    ensures
        claim_name(0) == "sub"@ && claim_name(1) == "email"@ && claim_name(2) == "role"@
            && claim_name(3) == "exp"@ && claim_name(4) == "iat"@,
        s[i as int] == ']' && n >= 5 ==> elements_read(s, i, n, so_far) == claims_of(
            so_far,
            s.take(i as int + 1),
        ),
        s[i as int] == ']' && n < 5 ==> elements_read(s, i, n, so_far) == Err::<
            ClaimsView,
            Seq<char>,
        >(
            json::located(
                "invalid length "@ + text::decimal(n)
                    + ", expected struct Claims with 5 elements"@,
                s.take(i as int + 1),
            ),
        ),
        s[i as int] != ']' && n >= 5 ==> elements_read(s, i, n, so_far) == Err::<
            ClaimsView,
            Seq<char>,
        >(json::located("trailing characters"@, s.take(i as int + 1))),
        s[i as int] != ']' && n < 5 && len > 0 && json::value_len(s, i) == Some(len) ==> match claim_read(
            so_far,
            claim_name(n as int),
            json::placed(s, i),
        ) {
            Ok(more) => elements_read(s, i, n, so_far) == elements_read(s, i + len, n + 1, more),
            Err(reason) => elements_read(s, i, n, so_far) == Err::<ClaimsView, Seq<char>>(reason),
        },
{
    assert(json::past_space(s, i) == i);
    if json::value_len(s, i) == Some(len) {
        assert(i + len <= s.len());
    }
}

/// Claims are read from an object or an array, blanks before it or not, and from nothing else.
pub proof fn claims_come_in_objects_and_arrays(s: Seq<char>)
    ensures
        s.len() > 0 && s[0] == '{' ==> claims_read(s) == members_read(s, 1, nothing_read()),
        s.len() > 0 && s[0] == '[' ==> claims_read(s) == elements_read(s, 1, 0, nothing_read()),
        s.len() == 0 || (s[0] != '{' && s[0] != '[' && !json::is_space(s[0])) ==> claims_read(s)
            == Err::<ClaimsView, Seq<char>>("invalid type: expected struct Claims"@),
{
    if s.len() > 0 && !json::is_space(s[0]) {
        assert(json::past_space(s, 0) == 0);
    }
}

/// A token that was written says the user, the email, the role and the two times, and nothing more.
pub proof fn claims_are_written_in_order(c: ClaimsView)
    ensures
        exists|members: Seq<(Seq<char>, JsonField)>|
            {
                &&& claims_text(c) == #[trigger] json::object_text(members)
                &&& members.len() == 5
                &&& members[0] == ("sub"@, JsonField::Text(ids::uuid_text(c.sub)))
                &&& members[1] == ("email"@, match c.email {
                    Some(email) => JsonField::Text(email),
                    None => JsonField::Null,
                })
                &&& members[2] == ("role"@, JsonField::Text(c.role))
                &&& members[3] == ("exp"@, if c.exp < 0 {
                    JsonField::Negative(c.exp)
                } else {
                    JsonField::Unsigned(c.exp as u64)
                })
                &&& members[4] == ("iat"@, if c.iat < 0 {
                    JsonField::Negative(c.iat)
                } else {
                    JsonField::Unsigned(c.iat as u64)
                })
            },
{
    assert(claims_text(c) == json::object_text(claims_members(c)));
}

} // verus!
