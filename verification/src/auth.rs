//! Users, passwords and tokens.

use crate::api::{Request, Response};
use crate::claims::{self, ClaimsView};
use crate::http;
use crate::ids;
use crate::text;
use crate::{clock, clock::Timestamp};
use std::sync::Arc;
use vstd::prelude::*;

pub use crate::accounts::{change_password_handler, login_handler, me_handler, register_handler};
pub use crate::claims::{read_claims, write_claims, Claims};

verus! {

// ---------------------------------------------------------------------------------------------
// Tokens
// ---------------------------------------------------------------------------------------------

/// Why a token or a password could not be made or accepted.
#[derive(Debug)]
pub enum AuthError {
    /// The clock is set before 1970.
    Clock,
    /// The token would expire later than a claim can say.
    Expiry,
    /// The token was refused, with the reason.
    Token(String),
    /// The token holds no claims, with the reason.
    Claims(String),
    /// The header does not hold a bearer token.
    HeaderFormat,
    /// The stored hash of a password cannot be read, with the reason.
    StoredHash(String),
    /// A password could not be hashed, with the reason.
    Hashing(String),
}

impl AuthError {
    /// The message of the error.
    pub open spec fn spec_message(&self) -> Seq<char> {
        match self {
            AuthError::Clock => "second time provided was later than self"@,
            AuthError::Expiry => "token expiry is out of range"@,
            AuthError::Token(reason) => reason@,
            AuthError::Claims(reason) => "JSON error: "@ + reason@,
            AuthError::HeaderFormat => "Invalid authorization header format"@,
            AuthError::StoredHash(reason) => "Failed to parse password hash: "@ + reason@,
            AuthError::Hashing(reason) => "Failed to hash password: "@ + reason@,
        }
    }

    /// The message of the error.
    pub fn message(&self) -> (r: String)
        ensures
            r@ == self.spec_message(),
    {
        match self {
            AuthError::Clock => "second time provided was later than self".to_owned(),
            AuthError::Expiry => "token expiry is out of range".to_owned(),
            AuthError::Token(reason) => reason.clone(),
            AuthError::Claims(reason) => text::concat("JSON error: ", reason.as_str()),
            AuthError::HeaderFormat => "Invalid authorization header format".to_owned(),
            AuthError::StoredHash(reason) => text::concat(
                "Failed to parse password hash: ",
                reason.as_str(),
            ),
            AuthError::Hashing(reason) => text::concat("Failed to hash password: ", reason.as_str()),
        }
    }
}

/// The token that `jsonwebtoken` makes of claims in JSON with a secret, if it makes one.
pub uninterp spec fn jwt_token(claims: Seq<char>, secret: Seq<char>) -> Option<Seq<char>>;

/// The payload that `jsonwebtoken` reads in a token that is signed with HMAC and SHA-256 under a
/// secret, or why it reads none: at a second since the start of 1970 with what it checks of the
/// payload by default, or without such checks and whatever the time.
pub uninterp spec fn jwt_read(token: Seq<char>, secret: Seq<char>, at: Option<u64>) -> Result<
    Seq<char>,
    Seq<char>,
>;

/// How many seconds a token is still accepted after it expired.
pub const EXPIRY_LEEWAY: u64 = 60;

/// The text that was made, if one was made.
pub open spec fn made_text(r: Result<String, String>) -> Option<Seq<char>> {
    match r {
        Ok(s) => Some(s@),
        Err(_) => None,
    }
}

/// Whether claims are what is read in a token under a secret: at any time without checks, and with
/// checks until a minute after the token expires.
pub open spec fn read_until_expiry(
    token: Seq<char>,
    secret: Seq<char>,
    claims: ClaimsView,
) -> bool {
    &&& jwt_read(token, secret, None) == Ok::<_, Seq<char>>(claims::claims_text(claims))
    &&& forall|now: u64|
        EXPIRY_LEEWAY <= now && 0 <= claims.exp ==> #[trigger] jwt_read(token, secret, Some(now))
            == if now <= claims.exp + EXPIRY_LEEWAY {
            Ok::<_, Seq<char>>(claims::claims_text(claims))
        } else {
            Err("ExpiredSignature"@)
        }
}

/// Whether an outcome is right for claims in JSON: claims that `claims_text` has written are signed,
/// and are what is read in their token until it expires.
pub open spec fn signs(claims: Seq<char>, secret: Seq<char>, token: Option<Seq<char>>) -> bool {
    forall|made: ClaimsView| #[trigger]
        claims::claims_text(made) == claims ==> token is Some && read_until_expiry(token->0, secret, made)
}

/// `jsonwebtoken::encode` with the default header signs claims with HMAC and SHA-256. The claims
/// are handed over as a `RawValue` of `serde_json`, which keeps their text. Claims in the notation
/// of `claims_text` are signed, and are what `jsonwebtoken::decode` reads in the token; with the
/// default validation it does so until a minute after the token expires. For a token that expired
/// before 1970, and for a clock in the first minute of 1970, the latter is not said.
#[verifier::external_body]
fn sign(claims: &str, secret: &str) -> (r: Result<String, String>)
    ensures
        made_text(r) == jwt_token(claims@, secret@),
        signs(claims@, secret@, made_text(r)),
{
    let key = jsonwebtoken::EncodingKey::from_secret(secret.as_bytes());
    serde_json::value::RawValue::from_string(claims.to_string())
        .map_err(|e| e.to_string())
        .and_then(|payload| {
            jsonwebtoken::encode(&jsonwebtoken::Header::default(), &payload, &key)
                .map_err(|e| e.to_string())
        })
}

/// `jsonwebtoken::decode` with a validation that leaves out what the payload claims checks how a
/// token is signed and hands out its payload as text, without the white space around it, or says why
/// it cannot. A payload in which it cannot look up the registered claims itself, such as one that is
/// no object, is not handed out. The clock is not asked.
#[verifier::external_body]
fn read_token(token: &str, secret: &str) -> (r: Result<String, String>)
    ensures
        text::text_or_reason(r) == jwt_read(token@, secret@, None),
{
    let key = jsonwebtoken::DecodingKey::from_secret(secret.as_bytes());
    let mut validation = jsonwebtoken::Validation::default();
    validation.required_spec_claims.clear();
    validation.validate_exp = false;
    validation.validate_aud = false;
    jsonwebtoken::decode::<Box<serde_json::value::RawValue>>(token, &key, &validation)
        .map(|data| data.claims.get().to_string())
        .map_err(|e| e.to_string())
}

/// `jsonwebtoken::decode` with the default validation checks a token at the second that the clock
/// shows, which has to be after the first minute of 1970, and hands out its payload as text, or says
/// why it does not accept the token. Which second that is, is not said.
#[verifier::external_body]
fn accept_token(token: &str, secret: &str) -> (r: Result<String, String>)
    ensures
        exists|now: u64| text::text_or_reason(r) == #[trigger] jwt_read(token@, secret@, Some(now)),
        r is Ok ==> text::text_or_reason(r) == jwt_read(token@, secret@, None),
{
    let key = jsonwebtoken::DecodingKey::from_secret(secret.as_bytes());
    let validation = jsonwebtoken::Validation::default();
    jsonwebtoken::decode::<Box<serde_json::value::RawValue>>(token, &key, &validation)
        .map(|data| data.claims.get().to_string())
        .map_err(|e| e.to_string())
}

/// Whether a token was issued under a secret for claims.
pub open spec fn issued(token: Seq<char>, secret: Seq<char>, claims: ClaimsView) -> bool {
    &&& jwt_token(claims::claims_text(claims), secret) == Some(token)
    &&& read_until_expiry(token, secret, claims)
}

/// Whether an outcome is right for issuing a token at the second that a clock shows: it is issued,
/// unless the clock shows none or the token would expire later than a claim can say.
pub open spec fn token_created_by(
    clock: Option<u64>,
    secret: Seq<char>,
    user_id: u128,
    email: Option<Seq<char>>,
    role: Seq<char>,
    expiry_seconds: i64,
    r: Result<String, AuthError>,
) -> bool {
    match clock {
        None => r matches Err(AuthError::Clock),
        Some(now) => if now <= i64::MAX && now + expiry_seconds <= i64::MAX {
            r is Ok && issued(
                r->Ok_0@,
                secret,
                claims_at(now as i64, user_id, email, role, expiry_seconds),
            )
        } else {
            r matches Err(AuthError::Expiry)
        },
    }
}

/// Whether an outcome is right for checking a token under a secret at a second. A token that cannot
/// be read is refused, then one that holds no claims, and then one that is not accepted at that
/// second, each with the reason; of any other the claims are read.
pub open spec fn checked_at(
    token: Seq<char>,
    secret: Seq<char>,
    now: u64,
    r: Result<Claims, AuthError>,
) -> bool {
    &&& match jwt_read(token, secret, None) {
        Err(reason) => r matches Err(AuthError::Token(why)) && why@ == reason,
        Ok(payload) => match claims::claims_read(payload) {
            Err(reason) => r matches Err(AuthError::Claims(why)) && why@ == reason,
            Ok(claims) => match jwt_read(token, secret, Some(now)) {
                Ok(_) => r matches Ok(c) && c@ == claims,
                Err(reason) => r matches Err(AuthError::Token(why)) && why@ == reason,
            },
        },
    }
    &&& forall|made: ClaimsView| #[trigger]
        issued(token, secret, made) ==> match r {
            Ok(c) => c@ == made,
            Err(e) => e is Token,
        }
}

/// Whether an outcome is right for checking a token under a secret, at the second at which it is
/// checked. Of a token that was issued for claims no others are read.
pub open spec fn checked(
    token: Seq<char>,
    secret: Seq<char>,
    r: Result<Claims, AuthError>,
) -> bool {
    exists|now: u64| #[trigger] checked_at(token, secret, now, r)
}

/// The claims of a token that is issued at a time.
pub open spec fn claims_at(
    now: i64,
    user_id: u128,
    email: Option<Seq<char>>,
    role: Seq<char>,
    expiry_seconds: i64,
) -> ClaimsView {
    ClaimsView { sub: user_id, email, role, exp: (now + expiry_seconds) as i64, iat: now }
}

/// The text that the header of a bearer token begins with.
pub open spec fn bearer() -> Seq<char> {
    "Bearer "@
}

/// Whether an outcome is right for checking the token in an authorization header: what follows
/// `Bearer` is checked without the white space around it.
pub open spec fn header_checked(
    header: Seq<char>,
    secret: Seq<char>,
    r: Result<Claims, AuthError>,
) -> bool {
    if text::begins_with(header, bearer()) {
        &&& checked(text::trim(header.skip(7)), secret, r)
        &&& text::is_ascii(header) ==> checked(text::ascii_trim(header.skip(7)), secret, r)
    } else {
        r matches Err(AuthError::HeaderFormat)
    }
}

/// Reads the claims in the payload that was read in a token, or passes on why none was.
pub fn claims_from(read: Result<String, String>) -> (r: Result<Claims, AuthError>)
    ensures
        match read {
            Err(reason) => r == Err::<Claims, _>(AuthError::Token(reason)),
            Ok(payload) => match claims::claims_read(payload@) {
                Ok(claims) => r is Ok && r->Ok_0@ == claims,
                Err(reason) => r matches Err(AuthError::Claims(why)) && why@ == reason,
            },
        },
        forall|made: ClaimsView|
            read is Ok && #[trigger] claims::claims_text(made) == read->Ok_0@ ==> r is Ok
                && r->Ok_0@ == made,
{
    match read {
        Ok(payload) => match read_claims(payload.as_str()) {
            Ok(claims) => Ok(claims),
            Err(reason) => Err(AuthError::Claims(reason)),
        },
        Err(reason) => Err(AuthError::Token(reason)),
    }
}

/// The claims that were read in a token, if the token is accepted.
pub fn claims_if_accepted(claims: Claims, accepted: Result<String, String>) -> (r: Result<
    Claims,
    AuthError,
>)
    ensures
        r == match accepted {
            Ok(_) => Ok(claims),
            Err(reason) => Err(AuthError::Token(reason)),
        },
{
    match accepted {
        Ok(_) => Ok(claims),
        Err(reason) => Err(AuthError::Token(reason)),
    }
}

/// Checks a token under a secret and reads its claims. Of a token that was issued under the secret
/// for claims, if it is accepted, those claims are read.
pub(crate) fn verify(token: &str, secret: &str) -> (r: Result<Claims, AuthError>)
    ensures
        checked(token@, secret@, r),
{
    let read = read_token(token, secret);
    proof {
        assert forall|made: ClaimsView| #[trigger]
            issued(token@, secret@, made) implies read is Ok && claims::claims_text(made)
            == read->Ok_0@ by {}
    }
    match claims_from(read) {
        Ok(claims) => {
            let accepted = accept_token(token, secret);
            let ghost now = choose|now: u64|
                text::text_or_reason(accepted) == #[trigger] jwt_read(token@, secret@, Some(now));
            let r = claims_if_accepted(claims, accepted);
            assert(checked_at(token@, secret@, now, r));
            r
        },
        Err(e) => {
            let r = Err(e);
            assert(checked_at(token@, secret@, 0, r));
            r
        },
    }
}

/// A token that was issued for claims gives those claims back until a minute after it expires, and
/// is refused as expired from then on. Whenever it is checked, no other claims are read, and it is
/// never refused for holding none. The clock is taken to be past the first minute of 1970, and the
/// token not to expire before 1970.
pub proof fn tokens_give_their_claims_back(
    token: Seq<char>,
    secret: Seq<char>,
    made: ClaimsView,
    now: u64,
    r: Result<Claims, AuthError>,
)
    requires
        issued(token, secret, made),
        checked_at(token, secret, now, r),
    ensures
        EXPIRY_LEEWAY <= now && 0 <= made.exp ==> if now <= made.exp + EXPIRY_LEEWAY {
            r is Ok && r->Ok_0@ == made
        } else {
            r matches Err(AuthError::Token(why)) && why@ == "ExpiredSignature"@
        },
        match r {
            Ok(claims) => claims@ == made,
            Err(e) => e is Token,
        },
{
    if EXPIRY_LEEWAY <= now && 0 <= made.exp {
        let read = jwt_read(token, secret, Some(now));
        assert(read is Ok <==> now <= made.exp + EXPIRY_LEEWAY);
    }
}

/// A token gives back the claims that it was issued for as long as it has not expired: one that is
/// issued at some second with a lifetime, and checked before it is over, gives back the user, the
/// email, the role, and the two times, which lie the lifetime apart.
pub proof fn a_token_holds_for_its_lifetime(
    secret: Seq<char>,
    token: Seq<char>,
    issued_at: i64,
    user_id: u128,
    email: Option<Seq<char>>,
    role: Seq<char>,
    expiry_seconds: i64,
    now: u64,
    r: Result<Claims, AuthError>,
)
    requires
        EXPIRY_LEEWAY <= issued_at <= now < issued_at + expiry_seconds <= i64::MAX,
        issued(token, secret, claims_at(issued_at, user_id, email, role, expiry_seconds)),
        checked_at(token, secret, now, r),
    ensures
        r is Ok,
        r->Ok_0.sub == user_id,
        text::optional_text(r->Ok_0.email) == email,
        r->Ok_0.role@ == role,
        r->Ok_0.exp - r->Ok_0.iat == expiry_seconds,
        r->Ok_0.iat == issued_at,
{
    let made = claims_at(issued_at, user_id, email, role, expiry_seconds);
    tokens_give_their_claims_back(token, secret, made, now, r);
    assert(r->Ok_0@ == made);
}

/// Issues and checks tokens under a secret.
#[derive(Clone)]
pub struct AuthContext {
    secret: String,
}

impl AuthContext {
    /// The secret.
    pub closed spec fn secret(&self) -> Seq<char> {
        self.secret@
    }

    /// Issues and checks tokens under a secret.
    pub fn new(secret: &str) -> (r: Result<AuthContext, AuthError>)
        ensures
            r is Ok,
            r->Ok_0.secret() == secret@,
    {
        Ok(AuthContext { secret: secret.to_owned() })
    }

    /// Issues a token at a given time.
    pub fn create_token_at(
        &self,
        now: i64,
        user_id: u128,
        email: Option<String>,
        role: &str,
        expiry_seconds: i64,
    ) -> (r: Result<String, AuthError>)
        requires
            i64::MIN <= now + expiry_seconds <= i64::MAX,
        ensures
            r is Ok,
            issued(
                r->Ok_0@,
                self.secret(),
                claims_at(now, user_id, text::optional_text(email), role@, expiry_seconds),
            ),
    {
        let claims = Claims {
            sub: user_id,
            email,
            role: role.to_owned(),
            exp: now + expiry_seconds,
            iat: now,
        };
        let payload = write_claims(&claims);
        match sign(payload.as_str(), self.secret.as_str()) {
            Ok(token) => Ok(token),
            Err(reason) => Err(AuthError::Token(reason)),
        }
    }

    /// Issues a token at the second that a clock shows. It fails only where the clock shows none, or
    /// where the token would expire later than a claim can say.
    pub fn create_token_by(
        &self,
        clock: Option<u64>,
        user_id: u128,
        email: Option<String>,
        role: &str,
        expiry_seconds: i64,
    ) -> (r: Result<String, AuthError>)
        ensures
            token_created_by(
                clock,
                self.secret(),
                user_id,
                text::optional_text(email),
                role@,
                expiry_seconds,
                r,
            ),
    {
        let now = match clock {
            Some(seconds) => if seconds <= i64::MAX as u64 {
                seconds as i64
            } else {
                return Err(AuthError::Expiry);
            },
            None => return Err(AuthError::Clock),
        };
        match now.checked_add(expiry_seconds) {
            Some(_) => self.create_token_at(now, user_id, email, role, expiry_seconds),
            None => Err(AuthError::Expiry),
        }
    }

    /// Issues a token now.
    pub fn create_token(
        &self,
        user_id: u128,
        email: Option<String>,
        role: &str,
        expiry_seconds: i64,
    ) -> (r: Result<String, AuthError>)
        ensures
            exists|clock: Option<u64>| #[trigger]
                token_created_by(
                    clock,
                    self.secret(),
                    user_id,
                    text::optional_text(email),
                    role@,
                    expiry_seconds,
                    r,
                ),
    {
        self.create_token_by(clock::unix_seconds(), user_id, email, role, expiry_seconds)
    }

    /// Checks a token and reads its claims. Of a token that was issued here for claims, if it is
    /// accepted, those claims are read.
    pub fn verify_token(&self, token: &str) -> (r: Result<Claims, AuthError>)
        ensures
            checked(token@, self.secret(), r),
    {
        verify(token, self.secret.as_str())
    }

    /// Checks the token in an authorization header.
    pub fn extract_from_header(&self, auth_header: &str) -> (r: Result<Claims, AuthError>)
        ensures
            header_checked(auth_header@, self.secret(), r),
    {
        if !text::has_prefix(auth_header, "Bearer ") {
            return Err(AuthError::HeaderFormat);
        }
        proof {
            reveal_strlit("Bearer ");
        }
        let rest = text::after(auth_header, 7);
        let token = text::trim_text(rest.as_str());
        self.verify_token(token.as_str())
    }
}

// ---------------------------------------------------------------------------------------------
// Users
// ---------------------------------------------------------------------------------------------

/// The parameters in a stored hash, as `PasswordHash::new` reads them, or why the stored text is not
/// a hash.
pub uninterp spec fn stored_params(hash: Seq<char>) -> Result<Seq<char>, Seq<char>>;

/// Whether `argon2` verifies a password against a stored hash.
pub uninterp spec fn argon2_accepts(hash: Seq<char>, password: Seq<char>) -> bool;

/// Whether the number of lanes among the parameters of a hash is one that can be worked with: the
/// last one counts, and without any there is one lane.
pub open spec fn lanes_fit(params: Seq<Seq<char>>) -> bool
    decreases params.len(),
{
    if params.len() == 0 {
        true
    } else if text::begins_with(params.last(), "p="@) {
        text::unsigned_value(params.last().skip(2)) matches Some(n) && n < 0x2000_0000
    } else {
        lanes_fit(params.drop_last())
    }
}

/// Whether a password is the one that a stored hash was made of; nothing where the stored text is
/// not a hash. With more lanes than can be worked with no password is.
pub open spec fn password_matches(hash: Seq<char>, password: Seq<char>) -> Option<bool> {
    match stored_params(hash) {
        Ok(params) => Some(lanes_fit(text::split(params, ',')) && argon2_accepts(hash, password)),
        Err(_) => None,
    }
}

/// `PasswordHash::new` reads a stored hash, whose parameters are handed out as they are written, or
/// says why the text is not one.
#[verifier::external_body]
fn params_of(hash: &str) -> (r: Result<String, String>)
    ensures
        text::text_or_reason(r) == stored_params(hash@),
{
    argon2::password_hash::PasswordHash::new(hash)
        .map(|parsed| parsed.params.as_str().to_string())
        .map_err(|e| e.to_string())
}

/// `verify_password` of `argon2`, on the hash that `PasswordHash::new` reads in the stored text.
/// Any failure to verify counts as a wrong password. The number of lanes is multiplied by eight in
/// 32 bits, which has to fit.
#[verifier::external_body]
fn matches_hash(hash: &str, password: &str) -> (r: bool)
    requires
        stored_params(hash@) is Ok,
        lanes_fit(text::split(stored_params(hash@)->Ok_0, ',')),
    ensures
        r == argon2_accepts(hash@, password@),
{
    argon2::password_hash::PasswordHash::new(hash).is_ok_and(|parsed| {
        argon2::password_hash::PasswordVerifier::verify_password(
            &argon2::Argon2::default(),
            password.as_bytes(),
            &parsed,
        )
        .is_ok()
    })
}

/// `hash_password` of `argon2`, with a salt that `SaltString::generate` draws at random. It refuses
/// only a password of more bytes than 32 bits can count. The hash is one that the password matches.
#[verifier::external_body]
fn make_hash(password: &str) -> (r: Result<String, String>)
    ensures
        r is Ok <==> can_be_hashed(password@),
        r matches Ok(hash) ==> password_matches(hash@, password@) == Some(true),
{
    let salt =
        argon2::password_hash::SaltString::generate(&mut argon2::password_hash::rand_core::OsRng);
    argon2::password_hash::PasswordHasher::hash_password(
        &argon2::Argon2::default(),
        password.as_bytes(),
        &salt,
    )
    .map(|hash| hash.to_string())
    .map_err(|e| e.to_string())
}

/// Whether a password is short enough to be hashed: 32 bits can count its bytes.
pub open spec fn can_be_hashed(password: Seq<char>) -> bool {
    vstd::utf8::encode_utf8(password).len() <= u32::MAX
}

/// Tells whether the number of lanes among the parameters of a hash is one that can be worked with.
fn check_lanes(params: &str) -> (r: bool)
    ensures
        r == lanes_fit(text::split(params@, ',')),
{
    let pieces = text::split_text(params, ',');
    let ghost all = text::texts(pieces@);
    let mut i: usize = pieces.len();
    proof {
        assert(all.take(i as int) =~= all);
    }
    while i > 0
        invariant
            i <= pieces@.len(),
            all == text::texts(pieces@),
            all == text::split(params@, ','),
            lanes_fit(all) == lanes_fit(all.take(i as int)),
        decreases i,
    {
        let ghost left = all.take(i as int);
        i = i - 1;
        let piece = pieces[i].as_str();
        proof {
            assert(left.last() == piece@);
            assert(left.drop_last() =~= all.take(i as int));
        }
        if text::has_prefix(piece, "p=") {
            proof {
                reveal_strlit("p=");
            }
            let number = text::after(piece, 2);
            return match text::parse_usize(number.as_str()) {
                Some(n) => n < 0x2000_0000,
                None => false,
            };
        }
    }
    true
}

/// A wrong password is no error: whether a stored text is a hash has nothing to do with the password
/// that it is held against.
pub proof fn a_wrong_password_is_no_error(hash: Seq<char>, right: Seq<char>, wrong: Seq<char>)
    ensures
        password_matches(hash, right) is Some <==> password_matches(hash, wrong) is Some,
        password_matches(hash, wrong) is Some <==> stored_params(hash) is Ok,
{
}

/// The statements that create the table of users.
pub const CREATE_USERS_TABLE: &'static str = r#"
CREATE TABLE IF NOT EXISTS users (
    id UUID PRIMARY KEY,
    email VARCHAR(255) UNIQUE NOT NULL,
    password_hash TEXT NOT NULL,
    role VARCHAR(50) NOT NULL DEFAULT 'user',
    is_active BOOLEAN NOT NULL DEFAULT true,
    created_at TIMESTAMPTZ NOT NULL DEFAULT NOW(),
    updated_at TIMESTAMPTZ NOT NULL DEFAULT NOW()
);

CREATE INDEX IF NOT EXISTS idx_users_email ON users(email);
CREATE INDEX IF NOT EXISTS idx_users_is_active ON users(is_active);
CREATE INDEX IF NOT EXISTS idx_users_role ON users(role);
"#;

/// A user as it is stored.
#[derive(Debug, Clone)]
pub struct User {
    pub id: u128,
    pub email: String,
    pub password_hash: String,
    pub role: String,
    pub is_active: bool,
    pub created_at: Timestamp,
    pub updated_at: Timestamp,
}

/// What changes of a stored user when the password changes.
#[derive(Debug, Clone)]
pub struct PasswordChange {
    pub user_id: u128,
    pub password_hash: String,
    pub updated_at: Timestamp,
}

/// Whether a user is one that was just made.
pub open spec fn is_new_user(
    user: User,
    email: Seq<char>,
    password: Seq<char>,
    role: Seq<char>,
    now: Timestamp,
) -> bool {
    &&& ids::is_random_uuid(user.id)
    &&& user.email@ == email
    &&& password_matches(user.password_hash@, password) == Some(true)
    &&& user.role@ == role
    &&& user.is_active
    &&& user.created_at == now
    &&& user.updated_at == now
}

impl User {
    /// Makes a user of what was given and the hash of the password, if that could be made.
    pub fn with_hash(
        id: u128,
        email: &str,
        password_hash: Result<String, AuthError>,
        role: &str,
        now: Timestamp,
    ) -> (r: Result<User, AuthError>)
        ensures
            match password_hash {
                Ok(hash) => {
                    &&& r is Ok
                    &&& r->Ok_0.id == id
                    &&& r->Ok_0.email@ == email@
                    &&& r->Ok_0.password_hash@ == hash@
                    &&& r->Ok_0.role@ == role@
                    &&& r->Ok_0.is_active
                    &&& r->Ok_0.created_at == now
                    &&& r->Ok_0.updated_at == now
                },
                Err(e) => r == Err::<User, _>(e),
            },
    {
        match password_hash {
            Ok(password_hash) => Ok(
                User {
                    id,
                    email: email.to_owned(),
                    password_hash,
                    role: role.to_owned(),
                    is_active: true,
                    created_at: now,
                    updated_at: now,
                },
            ),
            Err(e) => Err(e),
        }
    }

    /// Makes a user with a fresh identifier, ready to be stored. It fails only where the password
    /// is too long to be hashed.
    pub fn create(email: &str, password: &str, role: &str, now: Timestamp) -> (r: Result<
        User,
        AuthError,
    >)
        ensures
            match r {
                Ok(user) => is_new_user(user, email@, password@, role@, now),
                Err(e) => e is Hashing,
            },
            r is Ok <==> can_be_hashed(password@),
    {
        let password_hash = User::hash_password(password);
        User::with_hash(ids::fresh_uuid(), email, password_hash, role, now)
    }

    /// Makes the change that gives the user the password with a hash, if that could be made.
    pub fn with_new_hash(&self, password_hash: Result<String, AuthError>, now: Timestamp) -> (r:
        Result<PasswordChange, AuthError>)
        ensures
            match password_hash {
                Ok(hash) => {
                    &&& r is Ok
                    &&& r->Ok_0.user_id == self.id
                    &&& r->Ok_0.password_hash@ == hash@
                    &&& r->Ok_0.updated_at == now
                },
                Err(e) => r == Err::<PasswordChange, _>(e),
            },
    {
        match password_hash {
            Ok(hash) => Ok(
                PasswordChange { user_id: self.id, password_hash: hash, updated_at: now },
            ),
            Err(e) => Err(e),
        }
    }

    /// Makes the change that gives the user a new password. It fails only where the password is too
    /// long to be hashed.
    pub fn update_password(&self, new_password: &str, now: Timestamp) -> (r: Result<
        PasswordChange,
        AuthError,
    >)
        ensures
            match r {
                Ok(change) => {
                    &&& change.user_id == self.id
                    &&& change.updated_at == now
                    &&& password_matches(change.password_hash@, new_password@) == Some(true)
                },
                Err(e) => e is Hashing,
            },
            r is Ok <==> can_be_hashed(new_password@),
    {
        self.with_new_hash(User::hash_password(new_password), now)
    }

    /// Whether a password is the user's. It fails, with the reason, where the stored text is not a
    /// hash, whatever the password.
    pub fn verify_password(&self, password: &str) -> (r: Result<bool, AuthError>)
        ensures
            match stored_params(self.password_hash@) {
                Ok(_) => r is Ok && password_matches(self.password_hash@, password@) == Some(
                    r->Ok_0,
                ),
                Err(reason) => r matches Err(AuthError::StoredHash(why)) && why@ == reason,
            },
    {
        let hash = self.password_hash.as_str();
        match params_of(hash) {
            Ok(params) => Ok(check_lanes(params.as_str()) && matches_hash(hash, password)),
            Err(reason) => Err(AuthError::StoredHash(reason)),
        }
    }

    /// Hashes a password. It fails only where the password is too long. The password matches the
    /// hash.
    pub fn hash_password(password: &str) -> (r: Result<String, AuthError>)
        ensures
            match r {
                Ok(hash) => password_matches(hash@, password@) == Some(true),
                Err(e) => e is Hashing,
            },
            r is Ok <==> can_be_hashed(password@),
    {
        match make_hash(password) {
            Ok(hash) => Ok(hash),
            Err(reason) => Err(AuthError::Hashing(reason)),
        }
    }
}

// ---------------------------------------------------------------------------------------------
// The strength of a password
// ---------------------------------------------------------------------------------------------

#[derive(Debug, Clone, Copy, PartialEq, Eq, Structural)]
pub enum PasswordStrength {
    Weak,
    Medium,
    Strong,
}

/// One where a condition holds, else nothing.
pub open spec fn point(b: bool) -> int {
    if b {
        1
    } else {
        0
    }
}

/// How many of the six marks of a strong password there are: a length of eight bytes, one of
/// twelve, an upper-case letter, a lower-case letter, a numeric character, and a character that is
/// neither alphabetic nor numeric.
pub open spec fn strength_score(password: Seq<char>) -> int {
    let bytes = vstd::utf8::encode_utf8(password).len();
    point(bytes >= 8) + point(bytes >= 12)
        + point(exists|i: int| 0 <= i < password.len() && text::upper_case(#[trigger] password[i]))
        + point(exists|i: int| 0 <= i < password.len() && text::lower_case(#[trigger] password[i]))
        + point(exists|i: int| 0 <= i < password.len() && text::numeric(#[trigger] password[i]))
        + point(
        exists|i: int|
            0 <= i < password.len() && !text::alphabetic(#[trigger] password[i]) && !text::numeric(
                password[i],
            ),
    )
}

/// How many of the six marks there are in a password of ASCII characters.
pub open spec fn ascii_score(password: Seq<char>) -> int {
    point(password.len() >= 8) + point(password.len() >= 12)
        + point(exists|i: int| 0 <= i < password.len() && text::ascii_upper(#[trigger] password[i]))
        + point(exists|i: int| 0 <= i < password.len() && text::ascii_lower(#[trigger] password[i]))
        + point(exists|i: int| 0 <= i < password.len() && text::is_digit(#[trigger] password[i]))
        + point(
        exists|i: int|
            0 <= i < password.len() && !text::ascii_upper(#[trigger] password[i])
                && !text::ascii_lower(password[i]) && !text::is_digit(password[i]),
    )
}

/// Whether the classes of a character are those that ASCII gives it.
spec fn classes_agree(c: char) -> bool {
    &&& text::upper_case(c) == text::ascii_upper(c)
    &&& text::lower_case(c) == text::ascii_lower(c)
    &&& text::numeric(c) == text::is_digit(c)
    &&& text::alphabetic(c) == (text::ascii_upper(c) || text::ascii_lower(c))
}

proof fn lemma_ascii_char(c: char)
    requires
        (c as u32) < 128,
    ensures
        '\0' <= c <= '\u{7f}',
{
}

proof fn lemma_ascii_score(password: Seq<char>)
    requires
        text::is_ascii(password),
        forall|i: int| 0 <= i < password.len() ==> classes_agree(#[trigger] password[i]),
    ensures
        strength_score(password) == ascii_score(password),
{
    assert forall|i: int| 0 <= i < password.len() implies '\0' <= #[trigger] password[i]
        <= '\u{7f}' by {
        assert((password[i] as u32) < 128);
        lemma_ascii_char(password[i]);
    }
    assert(vstd::utf8::is_ascii_chars(password));
    vstd::utf8::is_ascii_chars_encode_utf8(password);
    assert((exists|i: int| 0 <= i < password.len() && text::upper_case(#[trigger] password[i])) == (
    exists|i: int| 0 <= i < password.len() && text::ascii_upper(#[trigger] password[i])));
    assert((exists|i: int| 0 <= i < password.len() && text::lower_case(#[trigger] password[i])) == (
    exists|i: int| 0 <= i < password.len() && text::ascii_lower(#[trigger] password[i])));
    assert((exists|i: int| 0 <= i < password.len() && text::numeric(#[trigger] password[i])) == (
    exists|i: int| 0 <= i < password.len() && text::is_digit(#[trigger] password[i])));
    assert((exists|i: int|
        0 <= i < password.len() && !text::alphabetic(#[trigger] password[i]) && !text::numeric(
            password[i],
        )) == (exists|i: int|
        0 <= i < password.len() && !text::ascii_upper(#[trigger] password[i])
            && !text::ascii_lower(password[i]) && !text::is_digit(password[i])));
}

/// The strength that a score stands for.
pub open spec fn strength_of(score: int) -> PasswordStrength {
    if score <= 2 {
        PasswordStrength::Weak
    } else if score <= 4 {
        PasswordStrength::Medium
    } else {
        PasswordStrength::Strong
    }
}

/// A password is strong enough from three marks on, and at most six can be reached.
pub proof fn three_marks_are_enough(password: Seq<char>)
    ensures
        0 <= strength_score(password) <= 6,
        strength_of(strength_score(password)) != PasswordStrength::Weak <==> strength_score(
            password,
        ) >= 3,
{
}

/// Tells how strong a password is.
pub fn check_password_strength(password: &str) -> (r: PasswordStrength)
    ensures
        r == strength_of(strength_score(password@)),
        text::is_ascii(password@) ==> r == strength_of(ascii_score(password@)),
{
    let bytes: usize = password.as_bytes().len();
    let chars = text::chars_of(password);
    let mut upper = false;
    let mut lower = false;
    let mut numeric = false;
    let mut other = false;
    let mut i: usize = 0;
    while i < chars.len()
        invariant
            chars@ == password@,
            i <= chars@.len(),
            upper == exists|j: int| 0 <= j < i && text::upper_case(#[trigger] password@[j]),
            lower == exists|j: int| 0 <= j < i && text::lower_case(#[trigger] password@[j]),
            numeric == exists|j: int| 0 <= j < i && text::numeric(#[trigger] password@[j]),
            other == exists|j: int|
                0 <= j < i && !text::alphabetic(#[trigger] password@[j]) && !text::numeric(
                    password@[j],
                ),
            forall|j: int|
                0 <= j < i && (password@[j] as u32) < 128 ==> classes_agree(
                    #[trigger] password@[j],
                ),
        decreases chars@.len() - i,
    {
        let c = chars[i];
        assert(c == password@[i as int]);
        if text::is_upper_case(c) {
            upper = true;
        }
        if text::is_lower_case(c) {
            lower = true;
        }
        if text::is_numeric_char(c) {
            numeric = true;
        }
        if !text::is_alphabetic_char(c) && !text::is_numeric_char(c) {
            other = true;
        }
        i = i + 1;
    }
    let mut score: u32 = 0;
    if bytes >= 8 {
        score = score + 1;
    }
    if bytes >= 12 {
        score = score + 1;
    }
    if upper {
        score = score + 1;
    }
    if lower {
        score = score + 1;
    }
    if numeric {
        score = score + 1;
    }
    if other {
        score = score + 1;
    }
    proof {
        assert(score == strength_score(password@));
        if text::is_ascii(password@) {
            lemma_ascii_score(password@);
        }
    }
    if score <= 2 {
        PasswordStrength::Weak
    } else if score <= 4 {
        PasswordStrength::Medium
    } else {
        PasswordStrength::Strong
    }
}

impl PasswordStrength {
    /// Whether a password of this strength is good enough.
    pub fn is_acceptable(&self) -> (r: bool)
        ensures
            r == (*self == PasswordStrength::Medium || *self == PasswordStrength::Strong),
    {
        match self {
            PasswordStrength::Medium => true,
            PasswordStrength::Strong => true,
            PasswordStrength::Weak => false,
        }
    }
}

// ---------------------------------------------------------------------------------------------
// Access by role
// ---------------------------------------------------------------------------------------------

/// Lets only those in who hold a token and, where one is required, a role. An administrator holds
/// every role.
pub struct RequireAuth {
    required_role: Option<String>,
    auth_context: Arc<AuthContext>,
}

/// Whether the holder of a role gets in where one is required.
pub open spec fn role_admits(required: Option<Seq<char>>, role: Seq<char>) -> bool {
    match required {
        Some(wanted) => role == wanted || role == "admin"@,
        None => true,
    }
}

/// Whether an outcome is right for a request whose token was checked: without claims the request is
/// refused with the reason, without the role it is refused, and else it carries the claims.
pub open spec fn admitted<D, R, X>(
    required: Option<Seq<char>>,
    request: Request<D, R, X>,
    outcome: Result<Claims, AuthError>,
    r: Result<Request<D, R, X>, Response>,
) -> bool {
    match outcome {
        Err(e) => r matches Err(response) && response.is_error(
            401,
            "Invalid token: "@ + e.spec_message(),
        ),
        Ok(claims) => if role_admits(required, claims.role@) {
            r == Ok::<_, Response>((Request { claims: Some(claims), ..request }))
        } else {
            r matches Err(response) && response.is_error(403, "Insufficient permissions"@)
        },
    }
}

impl RequireAuth {
    /// The role that is required, if one is.
    pub closed spec fn role(&self) -> Option<Seq<char>> {
        text::optional_text(self.required_role)
    }

    /// The secret that tokens are checked under.
    pub closed spec fn secret(&self) -> Seq<char> {
        self.auth_context.secret()
    }

    /// Lets those in who hold a token and, where one is given, a role.
    pub fn new(auth_context: Arc<AuthContext>, required_role: Option<&str>) -> (r: RequireAuth)
        ensures
            r.secret() == auth_context.secret(),
            r.role() == match required_role {
                Some(role) => Some(role@),
                None => None,
            },
    {
        let required_role = match required_role {
            Some(role) => Some(role.to_owned()),
            None => None,
        };
        RequireAuth { required_role, auth_context }
    }

    /// Decides on a request whose token was checked.
    pub fn decide<D, R, X>(
        &self,
        request: Request<D, R, X>,
        outcome: Result<Claims, AuthError>,
    ) -> (r: Result<Request<D, R, X>, Response>)
        ensures
            admitted(self.role(), request, outcome, r),
    {
        let claims = match outcome {
            Ok(claims) => claims,
            Err(e) => {
                let reason = e.message();
                let message = text::concat("Invalid token: ", reason.as_str());
                return Err(Response::unauthorized(message.as_str()));
            },
        };
        match &self.required_role {
            Some(wanted) => if !text::same(claims.role.as_str(), wanted.as_str()) && !text::same(
                claims.role.as_str(),
                "admin",
            ) {
                return Err(Response::forbidden("Insufficient permissions"));
            },
            None => {},
        }
        let mut request = request;
        request.claims = Some(claims);
        Ok(request)
    }

    /// Checks the token of a request and decides on it. A request without a readable authorization
    /// header is refused.
    pub fn authenticate<D, R, X>(&self, request: Request<D, R, X>) -> (r: Result<
        Request<D, R, X>,
        Response,
    >)
        ensures
            match http::first_text(request.header_map(), "Authorization"@) {
                None => r matches Err(response) && response.is_error(
                    401,
                    "Authorization header required"@,
                ),
                Some(None) => r matches Err(response) && response.is_error(
                    401,
                    "Invalid authorization header"@,
                ),
                Some(Some(header)) => exists|outcome: Result<Claims, AuthError>|
                    {
                        &&& header_checked(header, self.secret(), outcome)
                        &&& #[trigger] admitted(self.role(), request, outcome, r)
                    },
            },
    {
        match http::header_text(&request.headers, "Authorization") {
            None => Err(Response::unauthorized("Authorization header required")),
            Some(None) => Err(Response::unauthorized("Invalid authorization header")),
            Some(Some(header)) => {
                let outcome = self.auth_context.extract_from_header(header.as_str());
                self.decide(request, outcome)
            },
        }
    }
}

/// Without a required role every role is let in, and an administrator is let in everywhere.
pub proof fn administrators_hold_every_role(required: Option<Seq<char>>, role: Seq<char>)
    ensures
        role_admits(None, role),
        role_admits(required, "admin"@),
        required is Some && role != "admin"@ ==> (role_admits(required, role) <==> role
            == required->0),
{
}

/// A request gets in exactly where its token holds and the token's role is the one that is required,
/// if any is, or the administrator's. It then carries what the token says and is otherwise as it
/// was. Without a token that holds it is told so, and without the role that it may not.
pub proof fn who_gets_in<D, R, X>(
    required: Option<Seq<char>>,
    request: Request<D, R, X>,
    outcome: Result<Claims, AuthError>,
    r: Result<Request<D, R, X>, Response>,
)
    requires
        admitted(required, request, outcome, r),
    ensures
        r is Ok <==> outcome is Ok && (required is None || outcome->Ok_0.role@ == required->0
            || outcome->Ok_0.role@ == "admin"@),
        r is Ok ==> r->Ok_0.claims == Some(outcome->Ok_0) && r->Ok_0 == (Request {
            claims: r->Ok_0.claims,
            ..request
        }),
        outcome is Err ==> r->Err_0.is_error(
            401,
            "Invalid token: "@ + outcome->Err_0.spec_message(),
        ),
        outcome is Ok && r is Err ==> r->Err_0.is_error(403, "Insufficient permissions"@),
{
}

/// A header is read where it begins with the word `Bearer` and a space, and in that case only. What
/// is checked is what follows, without the blanks around it.
pub proof fn only_bearer_headers_are_read(
    header: Seq<char>,
    before: Seq<char>,
    token: Seq<char>,
    after: Seq<char>,
    secret: Seq<char>,
    r: Result<Claims, AuthError>,
)
    requires
        header_checked(header, secret, r),
    ensures
        (r matches Err(AuthError::HeaderFormat)) <==> header.len() < 7 || header.take(7) != seq![
            'B',
            'e',
            'a',
            'r',
            'e',
            'r',
            ' ',
        ],
        header == "Bearer "@ + before + token + after && text::is_ascii(header) && token.len() > 0
            && (forall|i: int| 0 <= i < before.len() ==> #[trigger] before[i] == ' ') && (forall|
            i: int,
        |
            0 <= i < after.len() ==> #[trigger] after[i] == ' ') && token[0] as u32 > 32
            && token.last() as u32 > 32 ==> checked(token, secret, r),
{
    reveal_strlit("Bearer ");
    let word = seq!['B', 'e', 'a', 'r', 'e', 'r', ' '];
    assert("Bearer "@ =~= word);
    if header == "Bearer "@ + before + token + after && text::is_ascii(header) && token.len() > 0
        && (forall|i: int| 0 <= i < before.len() ==> #[trigger] before[i] == ' ') && (forall|
        i: int,
    |
        0 <= i < after.len() ==> #[trigger] after[i] == ' ') && token[0] as u32 > 32
        && token.last() as u32 > 32 {
        assert(header.take(7) =~= word);
        assert(header.skip(7) =~= before + token + after);
        text::blanks_around_are_trimmed(before, token, after);
    }
}

/// A password is weak with two marks or fewer of these six, and strong with five or more: eight bytes,
/// twelve bytes, a capital letter, a small letter, a numeral, and a character that is neither a letter
/// nor a numeral.
pub proof fn marks_make_a_password_strong(password: Seq<char>)
    ensures
        ({
            let bytes = vstd::utf8::encode_utf8(password).len();
            let upper = exists|i: int|
                0 <= i < password.len() && text::upper_case(#[trigger] password[i]);
            let lower = exists|i: int|
                0 <= i < password.len() && text::lower_case(#[trigger] password[i]);
            let numeral = exists|i: int|
                0 <= i < password.len() && text::numeric(#[trigger] password[i]);
            let other = exists|i: int|
                0 <= i < password.len() && !text::alphabetic(#[trigger] password[i])
                    && !text::numeric(password[i]);
            let kinds = (if upper { 1int } else { 0 }) + (if lower { 1int } else { 0 }) + (
            if numeral { 1int } else { 0 }) + (if other { 1int } else { 0 });
            let marks = kinds + (if bytes < 8 { 0int } else if bytes < 12 { 1 } else { 2 });
            let strength = strength_of(strength_score(password));
            &&& strength == PasswordStrength::Weak <==> marks <= 2
            &&& strength == PasswordStrength::Medium <==> 3 <= marks <= 4
            &&& strength == PasswordStrength::Strong <==> marks >= 5
        }),
{
}

proof fn lemma_ascii_classes(c: char)
    ensures
        text::ascii_upper(c) == ('A' <= c <= 'Z'),
        text::ascii_lower(c) == ('a' <= c <= 'z'),
        text::is_digit(c) == ('0' <= c <= '9'),
{
}

/// In a password of ASCII characters the letters are those of the alphabet and the numerals are the
/// digits.
pub proof fn marks_of_ascii_passwords(password: Seq<char>)
    ensures
        ({
            let length = password.len();
            let upper = exists|i: int| 0 <= i < length && 'A' <= #[trigger] password[i] <= 'Z';
            let lower = exists|i: int| 0 <= i < length && 'a' <= #[trigger] password[i] <= 'z';
            let digit = exists|i: int| 0 <= i < length && '0' <= #[trigger] password[i] <= '9';
            let other = exists|i: int|
                0 <= i < length && !('A' <= #[trigger] password[i] <= 'Z') && !('a' <= password[i]
                    <= 'z') && !('0' <= password[i] <= '9');
            let kinds = (if upper { 1int } else { 0 }) + (if lower { 1int } else { 0 }) + (
            if digit { 1int } else { 0 }) + (if other { 1int } else { 0 });
            let marks = kinds + (if length < 8 { 0int } else if length < 12 { 1 } else { 2 });
            let strength = strength_of(ascii_score(password));
            &&& strength == PasswordStrength::Weak <==> marks <= 2
            &&& strength == PasswordStrength::Medium <==> 3 <= marks <= 4
            &&& strength == PasswordStrength::Strong <==> marks >= 5
        }),
{
    let length = password.len();
    assert forall|i: int| 0 <= i < length implies {
        &&& text::ascii_upper(#[trigger] password[i]) == ('A' <= password[i] <= 'Z')
        &&& text::ascii_lower(password[i]) == ('a' <= password[i] <= 'z')
        &&& text::is_digit(password[i]) == ('0' <= password[i] <= '9')
    } by {
        lemma_ascii_classes(password[i]);
    }
    assert((exists|i: int| 0 <= i < length && text::ascii_upper(#[trigger] password[i])) == (
    exists|i: int| 0 <= i < length && 'A' <= #[trigger] password[i] <= 'Z'));
    assert((exists|i: int| 0 <= i < length && text::ascii_lower(#[trigger] password[i])) == (
    exists|i: int| 0 <= i < length && 'a' <= #[trigger] password[i] <= 'z'));
    assert((exists|i: int| 0 <= i < length && text::is_digit(#[trigger] password[i])) == (
    exists|i: int| 0 <= i < length && '0' <= #[trigger] password[i] <= '9'));
    assert((exists|i: int|
        0 <= i < length && !text::ascii_upper(#[trigger] password[i]) && !text::ascii_lower(
            password[i],
        ) && !text::is_digit(password[i])) == (exists|i: int|
        0 <= i < length && !('A' <= #[trigger] password[i] <= 'Z') && !('a' <= password[i] <= 'z')
            && !('0' <= password[i] <= '9')));
}

/// How many lanes a hash asks for is said by the last of its parameters that begins with `p=`; they
/// fit where they are fewer than the memory can be cut into. Without such a parameter they fit.
pub proof fn the_last_parameter_names_the_lanes(params: Seq<Seq<char>>, i: int, lanes: nat)
    requires
        forall|j: int|
            i < j < params.len() ==> (#[trigger] params[j]).len() < 2 || params[j].take(2) != seq![
                'p',
                '=',
            ],
        i == -1 || (0 <= i < params.len() && params[i] == seq!['p', '='] + text::decimal(lanes)),
    ensures
        lanes_fit(params) == (i == -1 || lanes < 0x2000_0000),
    decreases params.len(),
{
    reveal_strlit("p=");
    let mark = seq!['p', '='];
    assert("p="@ =~= mark);
    if params.len() > 0 {
        let last = params.len() - 1;
        if i == last {
            let written = text::decimal(lanes);
            assert(params.last().take(2) =~= mark);
            assert(params.last().skip(2) =~= written);
            text::decimals_are_read_back(lanes);
        } else {
            assert(params[last].len() < 2 || params[last].take(2) != mark);
            let front = params.drop_last();
            assert forall|j: int| i < j < front.len() implies (#[trigger] front[j]).len() < 2
                || front[j].take(2) != mark by {
                assert(front[j] == params[j]);
            }
            the_last_parameter_names_the_lanes(front, i, lanes);
        }
    }
}

/// A token is created wherever a clock shows a second and the token's lifetime can be counted from it;
/// otherwise it is said which of the two fails.
pub proof fn when_a_token_is_created(
    clock: Option<u64>,
    secret: Seq<char>,
    user_id: u128,
    email: Option<Seq<char>>,
    role: Seq<char>,
    expiry_seconds: i64,
    r: Result<String, AuthError>,
)
    requires
        token_created_by(clock, secret, user_id, email, role, expiry_seconds, r),
    ensures
        r is Ok <==> clock is Some && clock->0 <= i64::MAX && clock->0 + expiry_seconds <= i64::MAX,
        clock is None <==> r matches Err(AuthError::Clock),
        clock is Some && r is Err ==> r matches Err(AuthError::Expiry),
        r is Ok ==> jwt_read(r->Ok_0@, secret, None) == Ok::<_, Seq<char>>(
            claims::claims_text(
                ClaimsView {
                    sub: user_id,
                    email,
                    role,
                    exp: (clock->0 + expiry_seconds) as i64,
                    iat: clock->0 as i64,
                },
            ),
        ),
{
}

/// A new user has the email and the role that were asked for, is active from the moment of creation
/// on, and signs in with the password.
pub proof fn what_a_new_user_is(
    user: User,
    email: Seq<char>,
    password: Seq<char>,
    role: Seq<char>,
    now: Timestamp,
)
    requires
        is_new_user(user, email, password, role, now),
    ensures
        user.email@ == email,
        user.role@ == role,
        user.is_active,
        user.created_at == now,
        user.updated_at == now,
        password_matches(user.password_hash@, password) == Some(true),
        argon2_accepts(user.password_hash@, password),
        (user.id as nat / 0x1000_0000_0000_0000_0000) % 16 == 4,
        (user.id as nat / 0x4000_0000_0000_0000) % 4 == 2,
{
}

/// What went wrong is put into words, with the reason where there is one.
pub proof fn errors_are_put_into_words(e: AuthError)
    ensures
        e is Clock ==> e.spec_message() == "second time provided was later than self"@,
        e is Expiry ==> e.spec_message() == "token expiry is out of range"@,
        e is HeaderFormat ==> e.spec_message() == "Invalid authorization header format"@,
        e matches AuthError::Token(reason) ==> e.spec_message() == reason@,
        e matches AuthError::Claims(reason) ==> e.spec_message() == "JSON error: "@ + reason@,
        e matches AuthError::StoredHash(reason) ==> e.spec_message()
            == "Failed to parse password hash: "@ + reason@,
        e matches AuthError::Hashing(reason) ==> e.spec_message() == "Failed to hash password: "@
            + reason@,
{
}

/// A token is accepted exactly where it can be read under the secret, what it says are claims, and it
/// holds at the moment; the claims are then what it says. Otherwise the first of these that fails gives
/// the reason.
pub proof fn a_token_is_accepted_for_what_it_says(
    token: Seq<char>,
    secret: Seq<char>,
    now: u64,
    payload: Seq<char>,
    reason: Seq<char>,
    r: Result<Claims, AuthError>,
)
    requires
        checked_at(token, secret, now, r),
    ensures
        r is Ok <==> {
            &&& jwt_read(token, secret, None) is Ok
            &&& claims::claims_read(jwt_read(token, secret, None)->Ok_0) is Ok
            &&& jwt_read(token, secret, Some(now)) is Ok
        },
        r is Ok && jwt_read(token, secret, None) == Ok::<_, Seq<char>>(payload)
            ==> claims::claims_read(payload) == Ok::<_, Seq<char>>(r->Ok_0@),
        jwt_read(token, secret, None) == Err::<Seq<char>, _>(reason) ==> r is Err && r->Err_0 is Token
            && r->Err_0.spec_message() == reason,
        jwt_read(token, secret, None) == Ok::<_, Seq<char>>(payload) && claims::claims_read(payload)
            == Err::<ClaimsView, _>(reason) ==> r is Err && r->Err_0 is Claims
            && r->Err_0.spec_message() == "JSON error: "@ + reason,
        jwt_read(token, secret, None) == Ok::<_, Seq<char>>(payload) && claims::claims_read(payload)
            is Ok && jwt_read(token, secret, Some(now)) == Err::<Seq<char>, _>(reason) ==> r is Err
            && r->Err_0 is Token && r->Err_0.spec_message() == reason,
{
}

/// A password goes with a stored hash where the hash can be read, asks for lanes that fit, and is
/// accepted with the password. A hash that cannot be read goes with no password.
pub proof fn which_passwords_go_with_a_hash(hash: Seq<char>, password: Seq<char>)
    ensures
        password_matches(hash, password) is None <==> stored_params(hash) is Err,
        password_matches(hash, password) == Some(true) ==> argon2_accepts(hash, password),
        stored_params(hash) is Ok && lanes_fit(text::split(stored_params(hash)->Ok_0, ',')) ==> (
        password_matches(hash, password) == Some(true) <==> argon2_accepts(hash, password)),
        stored_params(hash) is Ok && !lanes_fit(text::split(stored_params(hash)->Ok_0, ','))
            ==> password_matches(hash, password) == Some(false),
{
}

} // verus!
