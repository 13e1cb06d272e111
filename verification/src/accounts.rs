//! Signing in, signing up and looking after an account. Each endpoint decides step by step: it
//! either answers, or names what is to be done next and is told how that went.

use crate::api::{Request, Response};
use crate::auth::{self, AuthContext, AuthError, PasswordChange, User};
use crate::claims::{self, ClaimsView};
use crate::clock::{self, Timestamp};
use crate::http::StatusCode;
use crate::ids;
use crate::json::{self, JsonField, ObjectWriter, Scalar};
use crate::text;
use vstd::prelude::*;

verus! {

/// How long a token is good for after signing in or up, in seconds: a day.
pub const TOKEN_SECONDS: i64 = 86400;

/// What an endpoint decides: to answer, or to do something next.
#[derive(Debug)]
pub enum Step<A> {
    Respond(Response),
    Next(A),
}

impl<A> Step<A> {
    /// Whether the endpoint answers with an error.
    pub open spec fn refuses(&self, refusal: (u16, Seq<char>)) -> bool {
        match self {
            Step::Respond(response) => response.is_error(refusal.0, refusal.1),
            Step::Next(_) => false,
        }
    }
}

/// The error of a request whose body cannot be read.
pub open spec fn unreadable(reason: Seq<char>) -> (u16, Seq<char>) {
    (400, "Invalid request: "@ + reason)
}

/// The error of a failed query.
pub open spec fn database_error(reason: Seq<char>) -> (u16, Seq<char>) {
    (500, "Database error: "@ + reason)
}

fn refuse_unreadable(reason: &str) -> (r: Response)
    ensures
        r.is_error(unreadable(reason@).0, unreadable(reason@).1),
{
    let message = text::concat("Invalid request: ", reason);
    Response::bad_request(message.as_str())
}

fn refuse_database(reason: &str) -> (r: Response)
    ensures
        r.is_error(database_error(reason@).0, database_error(reason@).1),
{
    let message = text::concat("Database error: ", reason);
    Response::internal_error(message.as_str())
}

/// What came of a query for one user.
pub type Found = Result<Option<User>, String>;

/// What a token says that a user is issued at a second.
pub open spec fn user_claims(user: User, now: i64) -> ClaimsView {
    auth::claims_at(now, user.id, Some(user.email@), user.role@, TOKEN_SECONDS)
}

/// The token that a user is issued at the second that a clock shows, or why none is issued: the clock
/// shows none, or one that is too late.
pub open spec fn token_at(secret: Seq<char>, user: User, clock: Option<u64>) -> Result<
    Seq<char>,
    AuthError,
> {
    match clock {
        None => Err(AuthError::Clock),
        Some(now) => if now + TOKEN_SECONDS <= i64::MAX {
            Ok(auth::jwt_token(claims::claims_text(user_claims(user, now as i64)), secret)->0)
        } else {
            Err(AuthError::Expiry)
        },
    }
}

/// Whether a token was issued to a user at the second that a clock shows.
pub open spec fn issued_at(
    token: Seq<char>,
    secret: Seq<char>,
    user: User,
    clock: Option<u64>,
) -> bool {
    clock is Some && auth::issued(token, secret, user_claims(user, clock->0 as i64))
}

fn token_for(auth: &AuthContext, user: &User, clock: Option<u64>) -> (r: Result<String, AuthError>)
    ensures
        match token_at(auth.secret(), *user, clock) {
            Ok(token) => r is Ok && r->Ok_0@ == token && issued_at(
                token,
                auth.secret(),
                *user,
                clock,
            ),
            Err(e) => r == Err::<String, AuthError>(e),
        },
{
    auth.create_token_by(
        clock,
        user.id,
        Some(user.email.clone()),
        user.role.as_str(),
        TOKEN_SECONDS,
    )
}

/// The error of a token that could not be issued.
pub open spec fn no_token(e: AuthError) -> (u16, Seq<char>) {
    (500, "Failed to create token: "@ + e.spec_message())
}

fn refuse_token(e: &AuthError) -> (r: Response)
    ensures
        r.is_error(no_token(*e).0, no_token(*e).1),
{
    let reason = e.message();
    let message = text::concat("Failed to create token: ", reason.as_str());
    Response::internal_error(message.as_str())
}

// ---------------------------------------------------------------------------------------------
// Signing in
// ---------------------------------------------------------------------------------------------

#[derive(Debug, Clone)]
pub struct LoginRequest {
    pub email: String,
    pub password: String,
}

/// Why signing in is refused before the user is looked up, if it is.
pub open spec fn login_refusal(body: Result<LoginRequest, String>, has_database: bool) -> Option<
    (u16, Seq<char>),
> {
    match body {
        Err(reason) => Some(unreadable(reason@)),
        Ok(login) => if login.email@.len() == 0 || login.password@.len() == 0 {
            Some((400, "Email and password are required"@))
        } else if !has_database {
            Some((500, "Database not configured"@))
        } else {
            None
        },
    }
}

/// Begins to sign in: the user with the email is to be looked up.
pub fn login_handler<D, R, X>(
    request: &Request<D, R, X>,
    body: Result<LoginRequest, String>,
) -> (r: Step<LoginRequest>)
    ensures
        match login_refusal(body, request.db_pool is Some) {
            Some(refusal) => r.refuses(refusal),
            None => r matches Step::Next(login) && body == Ok::<_, String>(login),
        },
{
    let login = match body {
        Ok(login) => login,
        Err(reason) => return Step::Respond(refuse_unreadable(reason.as_str())),
    };
    if login.email.as_str().is_empty() || login.password.as_str().is_empty() {
        return Step::Respond(Response::bad_request("Email and password are required"));
    }
    match &request.db_pool {
        Some(_) => Step::Next(login),
        None => Step::Respond(Response::internal_error("Database not configured")),
    }
}

/// Why signing in is refused once the user was looked up, if it is.
pub open spec fn login_found_refusal(found: Found, password: Seq<char>, has_auth: bool) -> Option<
    (u16, Seq<char>),
> {
    match found {
        Err(reason) => Some(database_error(reason@)),
        Ok(None) => Some((401, "Invalid credentials"@)),
        Ok(Some(user)) => if auth::password_matches(user.password_hash@, password) != Some(true) {
            Some((401, "Invalid credentials"@))
        } else if !has_auth {
            Some((500, "Auth not configured"@))
        } else {
            None
        },
    }
}

/// Whether a response answers the sign-in of a user at the second that a clock shows: with the token
/// that is issued then, or with why none is.
pub open spec fn login_answered_at(
    secret: Seq<char>,
    user: User,
    clock: Option<u64>,
    r: Response,
) -> bool {
    match token_at(secret, user, clock) {
        Ok(token) => r.is_json(200, login_body(token, user)) && issued_at(
            token,
            secret,
            user,
            clock,
        ),
        Err(e) => r.is_error(no_token(e).0, no_token(e).1),
    }
}

/// Goes on signing in once the user was looked up, at the second that a clock shows. Only the right
/// password gets a token.
pub fn login_found_at<D, R, X>(
    request: &Request<D, R, X>,
    login: &LoginRequest,
    found: Found,
    clock: Option<u64>,
) -> (r: Response)
    ensures
        match login_found_refusal(found, login.password@, request.auth is Some) {
            Some(refusal) => r.is_error(refusal.0, refusal.1),
            None => login_answered_at(request.auth->0.secret(), found->Ok_0->0, clock, r),
        },
{
    let user = match found {
        Ok(Some(user)) => user,
        Ok(None) => return Response::unauthorized("Invalid credentials"),
        Err(reason) => return refuse_database(reason.as_str()),
    };
    let matches = match user.verify_password(login.password.as_str()) {
        Ok(matches) => matches,
        Err(_) => false,
    };
    if !matches {
        return Response::unauthorized("Invalid credentials");
    }
    match &request.auth {
        Some(auth) => {
            let token = token_for(auth, &user, clock);
            login_response(&user, token)
        },
        None => Response::internal_error("Auth not configured"),
    }
}

/// Goes on signing in once the user was looked up. Only the right password gets a token.
pub fn login_found<D, R, X>(
    request: &Request<D, R, X>,
    login: &LoginRequest,
    found: Found,
) -> (r: Response)
    ensures
        match login_found_refusal(found, login.password@, request.auth is Some) {
            Some(refusal) => r.is_error(refusal.0, refusal.1),
            None => exists|clock: Option<u64>| #[trigger]
                login_answered_at(request.auth->0.secret(), found->Ok_0->0, clock, r),
        },
{
    login_found_at(request, login, found, clock::unix_seconds())
}

/// The body that answers a successful sign-in.
pub open spec fn login_body(token: Seq<char>, user: User) -> Seq<char> {
    json::object_text(
        seq![
            ("token"@, JsonField::Text(token)),
            ("user_id"@, JsonField::Text(ids::uuid_text(user.id))),
            ("email"@, JsonField::Text(user.email@)),
            ("role"@, JsonField::Text(user.role@)),
            ("expires_in"@, JsonField::Unsigned(86400)),
        ],
    )
}

/// Whether a response answers a sign-in whose token was issued, or could not be.
pub open spec fn login_answered(user: User, token: Result<String, AuthError>, r: Response) -> bool {
    match token {
        Ok(token) => r.is_json(200, login_body(token@, user)),
        Err(e) => r.is_error(no_token(e).0, no_token(e).1),
    }
}

/// Answers a sign-in with its token.
pub fn login_response(user: &User, token: Result<String, AuthError>) -> (r: Response)
    ensures
        login_answered(*user, token, r),
{
    let token = match token {
        Ok(token) => token,
        Err(e) => return refuse_token(&e),
    };
    let id = ids::uuid_to_text(user.id);
    let ghost text = token@;
    let writer = ObjectWriter::new().member("token", Scalar::Text(token)).member(
        "user_id",
        Scalar::Text(id),
    ).member("email", json::text_scalar(user.email.as_str())).member(
        "role",
        json::text_scalar(user.role.as_str()),
    ).member("expires_in", Scalar::Signed(TOKEN_SECONDS));
    proof {
        assert(writer.members() =~= seq![
            ("token"@, JsonField::Text(text)),
            ("user_id"@, JsonField::Text(ids::uuid_text(user.id))),
            ("email"@, JsonField::Text(user.email@)),
            ("role"@, JsonField::Text(user.role@)),
            ("expires_in"@, JsonField::Unsigned(86400)),
        ]);
    }
    let body = writer.finish();
    Response::json(StatusCode::new(200), Some(body))
}

// ---------------------------------------------------------------------------------------------
// Signing up
// ---------------------------------------------------------------------------------------------

#[derive(Debug, Clone)]
pub struct RegisterRequest {
    pub email: String,
    pub password: String,
    pub role: Option<String>,
}

/// The number of bytes of a text.
pub open spec fn byte_len(s: Seq<char>) -> nat {
    vstd::utf8::encode_utf8(s).len()
}

/// Why signing up is refused before the email is looked up, if it is.
pub open spec fn register_refusal(
    body: Result<RegisterRequest, String>,
    has_database: bool,
) -> Option<(u16, Seq<char>)> {
    match body {
        Err(reason) => Some(unreadable(reason@)),
        Ok(wanted) => if wanted.email@.len() == 0 {
            Some((400, "Email is required"@))
        } else if byte_len(wanted.password@) < 8 {
            Some((400, "Password must be at least 8 characters long"@))
        } else if !wanted.email@.contains('@') {
            Some((400, "Invalid email format"@))
        } else if !has_database {
            Some((500, "Database not configured"@))
        } else {
            None
        },
    }
}

/// Begins to sign up: the email is to be looked up among the users.
pub fn register_handler<D, R, X>(
    request: &Request<D, R, X>,
    body: Result<RegisterRequest, String>,
) -> (r: Step<RegisterRequest>)
    ensures
        match register_refusal(body, request.db_pool is Some) {
            Some(refusal) => r.refuses(refusal),
            None => r matches Step::Next(wanted) && body == Ok::<_, String>(wanted),
        },
{
    let wanted = match body {
        Ok(wanted) => wanted,
        Err(reason) => return Step::Respond(refuse_unreadable(reason.as_str())),
    };
    if wanted.email.as_str().is_empty() {
        return Step::Respond(Response::bad_request("Email is required"));
    }
    if wanted.password.as_str().as_bytes().len() < 8 {
        return Step::Respond(Response::bad_request("Password must be at least 8 characters long"));
    }
    if !text::has_char(wanted.email.as_str(), '@') {
        return Step::Respond(Response::bad_request("Invalid email format"));
    }
    match &request.db_pool {
        Some(_) => Step::Next(wanted),
        None => Step::Respond(Response::internal_error("Database not configured")),
    }
}

/// The role that a new user gets: the one that was asked for, or that of an ordinary user.
pub open spec fn register_role(wanted: RegisterRequest) -> Seq<char> {
    match wanted.role {
        Some(role) => role@,
        None => "user"@,
    }
}

/// Why signing up is refused once the email was looked up, if it is.
pub open spec fn register_found_refusal(found: Found, wanted: RegisterRequest) -> Option<
    (u16, Seq<char>),
> {
    match found {
        Err(reason) => Some(database_error(reason@)),
        Ok(Some(_)) => Some((400, "Email already registered"@)),
        Ok(None) => if register_role(wanted) == "admin"@ {
            Some((403, "Cannot register as admin"@))
        } else {
            None
        },
    }
}

/// The error of a user that could not be stored.
pub open spec fn no_user(reason: Seq<char>) -> (u16, Seq<char>) {
    (500, "Failed to create user: "@ + reason)
}

fn refuse_user(reason: &str) -> (r: Response)
    ensures
        r.is_error(no_user(reason@).0, no_user(reason@).1),
{
    let message = text::concat("Failed to create user: ", reason);
    Response::internal_error(message.as_str())
}

/// Goes on signing up once the email was looked up: the new user is to be stored. Where there is
/// no reason to refuse, it fails only if the password is too long to be hashed.
pub fn register_found(wanted: &RegisterRequest, found: Found, now: Timestamp) -> (r: Step<User>)
    ensures
        match register_found_refusal(found, *wanted) {
            Some(refusal) => r.refuses(refusal),
            None => if auth::can_be_hashed(wanted.password@) {
                r matches Step::Next(user) && auth::is_new_user(
                    user,
                    wanted.email@,
                    wanted.password@,
                    register_role(*wanted),
                    now,
                )
            } else {
                exists|e: AuthError| e is Hashing && #[trigger] r.refuses(no_user(e.spec_message()))
            },
        },
{
    match found {
        Ok(None) => {},
        Ok(Some(_)) => return Step::Respond(Response::bad_request("Email already registered")),
        Err(reason) => return Step::Respond(refuse_database(reason.as_str())),
    }
    let role = match &wanted.role {
        Some(role) => role.clone(),
        None => "user".to_owned(),
    };
    if text::same(role.as_str(), "admin") {
        return Step::Respond(Response::forbidden("Cannot register as admin"));
    }
    let made = User::create(wanted.email.as_str(), wanted.password.as_str(), role.as_str(), now);
    register_made(made)
}

/// Goes on signing up with the user that was made, if one could be.
pub fn register_made(made: Result<User, AuthError>) -> (r: Step<User>)
    ensures
        match made {
            Ok(user) => r == Step::Next(user),
            Err(e) => r.refuses(no_user(e.spec_message())),
        },
{
    match made {
        Ok(user) => Step::Next(user),
        Err(e) => {
            let reason = e.message();
            Step::Respond(refuse_user(reason.as_str()))
        },
    }
}

/// No one becomes an administrator by signing up: a user that is to be stored has another role.
pub proof fn signing_up_makes_no_administrator(
    wanted: RegisterRequest,
    found: Found,
    user: User,
    now: Timestamp,
)
    requires
        register_found_refusal(found, wanted) is None,
        auth::is_new_user(user, wanted.email@, wanted.password@, register_role(wanted), now),
    ensures
        user.role@ != "admin"@,
{
}

/// Why signing up is refused once the user was to be stored, if it is.
pub open spec fn register_stored_refusal(stored: Result<User, String>, has_auth: bool) -> Option<
    (u16, Seq<char>),
> {
    match stored {
        Err(reason) => Some(no_user(reason@)),
        Ok(_) => if !has_auth {
            Some((500, "Auth not configured"@))
        } else {
            None
        },
    }
}

/// Whether a response answers the sign-up of a user at the second that a clock shows: with the token
/// that is issued then, or with why none is.
pub open spec fn register_answered_at(
    secret: Seq<char>,
    user: User,
    clock: Option<u64>,
    r: Response,
) -> bool {
    match token_at(secret, user, clock) {
        Ok(token) => r.is_json(201, register_body(token, user)) && issued_at(
            token,
            secret,
            user,
            clock,
        ),
        Err(e) => r.is_error(no_token(e).0, no_token(e).1),
    }
}

/// Ends signing up once the user was stored, at the second that a clock shows.
pub fn register_stored_at<D, R, X>(
    request: &Request<D, R, X>,
    stored: Result<User, String>,
    clock: Option<u64>,
) -> (r: Response)
    ensures
        match register_stored_refusal(stored, request.auth is Some) {
            Some(refusal) => r.is_error(refusal.0, refusal.1),
            None => register_answered_at(request.auth->0.secret(), stored->Ok_0, clock, r),
        },
{
    let user = match stored {
        Ok(user) => user,
        Err(reason) => return refuse_user(reason.as_str()),
    };
    match &request.auth {
        Some(auth) => {
            let token = token_for(auth, &user, clock);
            register_response(&user, token)
        },
        None => Response::internal_error("Auth not configured"),
    }
}

/// Ends signing up once the user was stored.
pub fn register_stored<D, R, X>(
    request: &Request<D, R, X>,
    stored: Result<User, String>,
) -> (r: Response)
    ensures
        match register_stored_refusal(stored, request.auth is Some) {
            Some(refusal) => r.is_error(refusal.0, refusal.1),
            None => exists|clock: Option<u64>| #[trigger]
                register_answered_at(request.auth->0.secret(), stored->Ok_0, clock, r),
        },
{
    register_stored_at(request, stored, clock::unix_seconds())
}

/// The body that answers a successful sign-up.
pub open spec fn register_body(token: Seq<char>, user: User) -> Seq<char> {
    json::object_text(
        seq![
            ("token"@, JsonField::Text(token)),
            ("user_id"@, JsonField::Text(ids::uuid_text(user.id))),
            ("email"@, JsonField::Text(user.email@)),
            ("role"@, JsonField::Text(user.role@)),
        ],
    )
}

/// Whether a response answers a sign-up whose token was issued, or could not be.
pub open spec fn register_answered(
    user: User,
    token: Result<String, AuthError>,
    r: Response,
) -> bool {
    match token {
        Ok(token) => r.is_json(201, register_body(token@, user)),
        Err(e) => r.is_error(no_token(e).0, no_token(e).1),
    }
}

/// Answers a sign-up with its token.
pub fn register_response(user: &User, token: Result<String, AuthError>) -> (r: Response)
    ensures
        register_answered(*user, token, r),
{
    let token = match token {
        Ok(token) => token,
        Err(e) => return refuse_token(&e),
    };
    let id = ids::uuid_to_text(user.id);
    let ghost text = token@;
    let writer = ObjectWriter::new().member("token", Scalar::Text(token)).member(
        "user_id",
        Scalar::Text(id),
    ).member("email", json::text_scalar(user.email.as_str())).member(
        "role",
        json::text_scalar(user.role.as_str()),
    );
    proof {
        assert(writer.members() =~= seq![
            ("token"@, JsonField::Text(text)),
            ("user_id"@, JsonField::Text(ids::uuid_text(user.id))),
            ("email"@, JsonField::Text(user.email@)),
            ("role"@, JsonField::Text(user.role@)),
        ]);
    }
    let body = writer.finish();
    Response::json(StatusCode::new(201), Some(body))
}

// ---------------------------------------------------------------------------------------------
// The account of the one who asks
// ---------------------------------------------------------------------------------------------

/// Why a user who asks for the own account is refused, if so. The identifier that a token names is
/// looked up.
pub open spec fn me_refusal(authenticated: bool, has_database: bool) -> Option<(u16, Seq<char>)> {
    if !authenticated {
        Some((401, "Not authenticated"@))
    } else if !has_database {
        Some((500, "Database not configured"@))
    } else {
        None
    }
}

/// Begins to show the account: the user that the token names is to be looked up.
pub fn me_handler<D, R, X>(request: &Request<D, R, X>) -> (r: Step<u128>)
    ensures
        match me_refusal(request.claims is Some, request.db_pool is Some) {
            Some(refusal) => r.refuses(refusal),
            None => r matches Step::Next(id) && id == request.claims->0.sub,
        },
{
    let id: u128 = match &request.claims {
        Some(claims) => claims.sub,
        None => return Step::Respond(Response::unauthorized("Not authenticated")),
    };
    match &request.db_pool {
        Some(_) => Step::Next(id),
        None => Step::Respond(Response::internal_error("Database not configured")),
    }
}

/// Why an account is not shown once the user was looked up, if so.
pub open spec fn found_refusal(found: Found) -> Option<(u16, Seq<char>)> {
    match found {
        Err(reason) => Some(database_error(reason@)),
        Ok(None) => Some((404, "User not found"@)),
        Ok(Some(_)) => None,
    }
}

/// The body that shows an account.
pub open spec fn account_body(user: User) -> Seq<char> {
    json::object_text(
        seq![
            ("id"@, JsonField::Text(ids::uuid_text(user.id))),
            ("email"@, JsonField::Text(user.email@)),
            ("role"@, JsonField::Text(user.role@)),
            ("created_at"@, JsonField::Text(user.created_at.spec_text(true))),
        ],
    )
}

/// Shows the account that was looked up. The hash of the password is not shown.
pub fn me_found(found: Found) -> (r: Response)
    ensures
        match found_refusal(found) {
            Some(refusal) => r.is_error(refusal.0, refusal.1),
            None => r.is_json(200, account_body(found->Ok_0->0)),
        },
{
    let user = match found {
        Ok(Some(user)) => user,
        Ok(None) => return Response::not_found("User not found"),
        Err(reason) => return refuse_database(reason.as_str()),
    };
    let id = ids::uuid_to_text(user.id);
    let created_at = user.created_at.text(true);
    let writer = ObjectWriter::new().member("id", Scalar::Text(id)).member(
        "email",
        json::text_scalar(user.email.as_str()),
    ).member("role", json::text_scalar(user.role.as_str())).member(
        "created_at",
        Scalar::Text(created_at),
    );
    proof {
        assert(writer.members() =~= seq![
            ("id"@, JsonField::Text(ids::uuid_text(user.id))),
            ("email"@, JsonField::Text(user.email@)),
            ("role"@, JsonField::Text(user.role@)),
            ("created_at"@, JsonField::Text(user.created_at.spec_text(true))),
        ]);
    }
    let body = writer.finish();
    Response::json(StatusCode::new(200), Some(body))
}

// ---------------------------------------------------------------------------------------------
// Changing the password
// ---------------------------------------------------------------------------------------------

#[derive(Debug, Clone)]
pub struct ChangePasswordRequest {
    pub current_password: String,
    pub new_password: String,
}

/// Why changing the password is refused before the user is looked up, if it is.
pub open spec fn change_refusal(
    body: Result<ChangePasswordRequest, String>,
    authenticated: bool,
    has_database: bool,
) -> Option<(u16, Seq<char>)> {
    match body {
        Err(reason) => Some(unreadable(reason@)),
        Ok(wanted) => if byte_len(wanted.new_password@) < 8 {
            Some((400, "New password must be at least 8 characters long"@))
        } else {
            me_refusal(authenticated, has_database)
        },
    }
}

/// Begins to change the password: the user that the token names is to be looked up.
pub fn change_password_handler<D, R, X>(
    request: &Request<D, R, X>,
    body: Result<ChangePasswordRequest, String>,
) -> (r: Step<(u128, ChangePasswordRequest)>)
    ensures
        match change_refusal(body, request.claims is Some, request.db_pool is Some) {
            Some(refusal) => r.refuses(refusal),
            None => r matches Step::Next(next) && next.0 == request.claims->0.sub && body == Ok::<
                _,
                String,
            >(next.1),
        },
{
    let wanted = match body {
        Ok(wanted) => wanted,
        Err(reason) => return Step::Respond(refuse_unreadable(reason.as_str())),
    };
    if wanted.new_password.as_str().as_bytes().len() < 8 {
        return Step::Respond(
            Response::bad_request("New password must be at least 8 characters long"),
        );
    }
    match me_handler(request) {
        Step::Next(id) => Step::Next((id, wanted)),
        Step::Respond(response) => Step::Respond(response),
    }
}

/// Why changing the password is refused once the user was looked up, if it is.
pub open spec fn change_found_refusal(found: Found, wanted: ChangePasswordRequest) -> Option<
    (u16, Seq<char>),
> {
    match found {
        Ok(Some(user)) => if auth::password_matches(
            user.password_hash@,
            wanted.current_password@,
        ) != Some(true) {
            Some((401, "Current password is incorrect"@))
        } else {
            None
        },
        _ => found_refusal(found),
    }
}

/// The error of a change that could not be stored.
pub open spec fn no_change(reason: Seq<char>) -> (u16, Seq<char>) {
    (500, "Failed to update password: "@ + reason)
}

fn refuse_change(reason: &str) -> (r: Response)
    ensures
        r.is_error(no_change(reason@).0, no_change(reason@).1),
{
    let message = text::concat("Failed to update password: ", reason);
    Response::internal_error(message.as_str())
}

/// Goes on changing the password once the user was looked up: the change is to be stored. Only the
/// one who knows the current password changes it. Where there is no reason to refuse, it fails
/// only if the new password is too long to be hashed.
pub fn change_password_found(
    wanted: &ChangePasswordRequest,
    found: Found,
    now: Timestamp,
) -> (r: Step<PasswordChange>)
    ensures
        match change_found_refusal(found, *wanted) {
            Some(refusal) => r.refuses(refusal),
            None => if auth::can_be_hashed(wanted.new_password@) {
                &&& r matches Step::Next(change)
                &&& change.user_id == found->Ok_0->0.id
                &&& change.updated_at == now
                &&& auth::password_matches(change.password_hash@, wanted.new_password@) == Some(
                    true,
                )
            } else {
                exists|e: AuthError|
                    e is Hashing && #[trigger] r.refuses(no_change(e.spec_message()))
            },
        },
{
    let user = match found {
        Ok(Some(user)) => user,
        Ok(None) => return Step::Respond(Response::not_found("User not found")),
        Err(reason) => return Step::Respond(refuse_database(reason.as_str())),
    };
    let matches = match user.verify_password(wanted.current_password.as_str()) {
        Ok(matches) => matches,
        Err(_) => false,
    };
    if !matches {
        return Step::Respond(Response::unauthorized("Current password is incorrect"));
    }
    let made = user.update_password(wanted.new_password.as_str(), now);
    change_made(made)
}

/// Goes on changing the password with the change that was made, if one could be.
pub fn change_made(made: Result<PasswordChange, AuthError>) -> (r: Step<PasswordChange>)
    ensures
        match made {
            Ok(change) => r == Step::Next(change),
            Err(e) => r.refuses(no_change(e.spec_message())),
        },
{
    match made {
        Ok(change) => Step::Next(change),
        Err(e) => {
            let reason = e.message();
            Step::Respond(refuse_change(reason.as_str()))
        },
    }
}

/// The body that reports that something was done.
pub open spec fn message_body(message: Seq<char>) -> Seq<char> {
    json::object_text(seq![("message"@, JsonField::Text(message))])
}

/// Ends changing the password once the change was stored.
pub fn change_password_stored(stored: Result<(), String>) -> (r: Response)
    ensures
        match stored {
            Ok(_) => r.is_json(200, message_body("Password updated successfully"@)),
            Err(reason) => r.is_error(no_change(reason@).0, no_change(reason@).1),
        },
{
    match stored {
        Ok(_) => {},
        Err(reason) => return refuse_change(reason.as_str()),
    }
    let writer = ObjectWriter::new().member(
        "message",
        json::text_scalar("Password updated successfully"),
    );
    proof {
        assert(writer.members() =~= seq![
            ("message"@, JsonField::Text("Password updated successfully"@)),
        ]);
    }
    let body = writer.finish();
    Response::json(StatusCode::new(200), Some(body))
}

/// After a password was changed, the new one signs the user in: with the hash that was stored, the
/// sign-in is not refused where tokens are issued.
pub proof fn the_new_password_signs_in(user: User, change: PasswordChange, password: Seq<char>)
    requires
        auth::password_matches(change.password_hash@, password) == Some(true),
        user.password_hash@ == change.password_hash@,
    ensures
        login_found_refusal(Ok(Some(user)), password, true) is None,
{
}

/// A user who has just signed up can sign in with the password.
pub proof fn who_signed_up_signs_in(
    wanted: RegisterRequest,
    user: User,
    now: Timestamp,
)
    requires
        auth::is_new_user(user, wanted.email@, wanted.password@, register_role(wanted), now),
    ensures
        login_found_refusal(Ok(Some(user)), wanted.password@, true) is None,
{
}

// ---------------------------------------------------------------------------------------------
// Showing a user
// ---------------------------------------------------------------------------------------------

/// Why a user is not looked up, if so.
pub open spec fn get_user_refusal(id: Option<Seq<char>>, has_database: bool) -> Option<
    (u16, Seq<char>),
> {
    match id {
        None => Some((400, "Missing user ID"@)),
        Some(id) => if !has_database {
            Some((500, "Database not available"@))
        } else if ids::uuid_parsed(id) is None {
            Some((400, "Invalid user ID"@))
        } else {
            None
        },
    }
}

/// The path parameter that names a user.
pub open spec fn id_param(params: Map<Seq<char>, String>) -> Option<Seq<char>> {
    if params.contains_key("id"@) {
        Some(params["id"@]@)
    } else {
        None
    }
}

/// Begins to show a user: the one that the path names is to be looked up.
pub fn get_user<D, R, X>(request: &Request<D, R, X>) -> (r: Step<u128>)
    ensures
        match get_user_refusal(id_param(request.params@), request.db_pool is Some) {
            Some(refusal) => r.refuses(refusal),
            None => r matches Step::Next(id) && Some(id) == ids::uuid_parsed(
                id_param(request.params@)->0,
            ),
        },
        forall|bits: u128|
            request.db_pool is Some && id_param(request.params@) == Some(
                #[trigger] ids::uuid_text(bits),
            ) ==> (r matches Step::Next(id) && id == bits),
{
    let id = match request.param("id") {
        Some(id) => id,
        None => return Step::Respond(Response::bad_request("Missing user ID")),
    };
    match &request.db_pool {
        Some(_) => {},
        None => return Step::Respond(Response::internal_error("Database not available")),
    }
    match ids::parse_uuid(id.as_str()) {
        Some(bits) => Step::Next(bits),
        None => Step::Respond(Response::bad_request("Invalid user ID")),
    }
}

/// Shows the user that was looked up, in JSON as far as it could be written.
pub fn user_found(found: Result<Option<Option<String>>, String>) -> (r: Response)
    ensures
        match found {
            Ok(Some(Some(body))) => r.is_json(200, body@),
            Ok(Some(None)) => r.is_error(500, "Failed to serialize response"@),
            Ok(None) => r.is_error(404, "User not found"@),
            Err(reason) => r.is_error(database_error(reason@).0, database_error(reason@).1),
        },
{
    match found {
        Ok(Some(serialized)) => Response::json(StatusCode::new(200), serialized),
        Ok(None) => Response::not_found("User not found"),
        Err(reason) => refuse_database(reason.as_str()),
    }
}

// ---------------------------------------------------------------------------------------------
// What the endpoints promise
// ---------------------------------------------------------------------------------------------

/// A sign-in goes on to the lookup exactly where an email and a password came with it and there is a
/// database. Otherwise it is said what is missing, first of all in the request.
pub proof fn what_signing_in_takes(body: Result<LoginRequest, String>, has_database: bool)
    ensures
        login_refusal(body, has_database) is None <==> body is Ok && body->Ok_0.email@.len() > 0
            && body->Ok_0.password@.len() > 0 && has_database,
        body is Err ==> login_refusal(body, has_database) == Some(
            (400u16, "Invalid request: "@ + body->Err_0@),
        ),
        body is Ok && (body->Ok_0.email@.len() == 0 || body->Ok_0.password@.len() == 0)
            ==> login_refusal(body, has_database) == Some(
            (400u16, "Email and password are required"@),
        ),
        body is Ok && body->Ok_0.email@.len() > 0 && body->Ok_0.password@.len() > 0
            && !has_database ==> login_refusal(body, has_database) == Some(
            (500u16, "Database not configured"@),
        ),
{
}

/// Only a user whose stored hash takes the password gets a token. An unknown email and a wrong
/// password are answered alike, so that an answer does not tell which of them it was.
pub proof fn only_the_right_password_signs_in(
    user: User,
    password: Seq<char>,
    reason: String,
    has_auth: bool,
)
    ensures
        login_found_refusal(Ok(Some(user)), password, has_auth) is None <==> auth::password_matches(
            user.password_hash@,
            password,
        ) == Some(true) && has_auth,
        auth::password_matches(user.password_hash@, password) != Some(true) ==> login_found_refusal(
            Ok(Some(user)),
            password,
            has_auth,
        ) == login_found_refusal(Ok(None), password, has_auth),
        login_found_refusal(Ok(None), password, has_auth) == Some((401u16, "Invalid credentials"@)),
        auth::password_matches(user.password_hash@, password) == Some(true) && !has_auth
            ==> login_found_refusal(Ok(Some(user)), password, has_auth) == Some(
            (500u16, "Auth not configured"@),
        ),
        login_found_refusal(Err(reason), password, has_auth) == Some(
            (500u16, "Database error: "@ + reason@),
        ),
{
}

/// The token that answers a sign-in or a sign-up is good for a day, and a minute of leeway, from the
/// second in which it was issued, and speaks of the user. One is issued wherever a clock shows a
/// second from which a day can be counted.
pub proof fn a_token_is_good_for_a_day(
    secret: Seq<char>,
    user: User,
    now: u64,
    token: Seq<char>,
    later: u64,
    r: Result<claims::Claims, AuthError>,
)
    ensures
        token_at(secret, user, None) == Err::<Seq<char>, AuthError>(AuthError::Clock),
        token_at(secret, user, Some(now)) is Ok <==> now + 24 * 60 * 60 <= i64::MAX,
        token_at(secret, user, Some(now)) is Err ==> token_at(secret, user, Some(now)) == Err::<
            Seq<char>,
            AuthError,
        >(AuthError::Expiry),
        now + 24 * 60 * 60 <= i64::MAX && issued_at(token, secret, user, Some(now))
            && auth::checked_at(token, secret, later, r) && 60 <= later ==> {
            &&& token_at(secret, user, Some(now)) == Ok::<Seq<char>, AuthError>(token)
            &&& r is Ok <==> later <= now + 24 * 60 * 60 + 60
            &&& r is Ok ==> {
                &&& r->Ok_0.sub == user.id
                &&& text::optional_text(r->Ok_0.email) == Some(user.email@)
                &&& r->Ok_0.role@ == user.role@
                &&& r->Ok_0.iat == now
                &&& r->Ok_0.exp == now + 24 * 60 * 60
            }
        },
{
    if now + 24 * 60 * 60 <= i64::MAX && issued_at(token, secret, user, Some(now))
        && auth::checked_at(token, secret, later, r) && 60 <= later {
        let made = user_claims(user, now as i64);
        auth::tokens_give_their_claims_back(token, secret, made, later, r);
        assert(r is Ok ==> r->Ok_0@ == made);
    }
}

/// A sign-up goes on to the lookup exactly where there are an email with an at sign and a password of
/// eight bytes or more, and there is a database. Otherwise the first of these that fails is named.
pub proof fn what_signing_up_takes(body: Result<RegisterRequest, String>, has_database: bool)
    ensures
        register_refusal(body, has_database) is None <==> body is Ok
            && body->Ok_0.email@.contains('@') && vstd::utf8::encode_utf8(
            body->Ok_0.password@,
        ).len() >= 8 && has_database,
        body is Err ==> register_refusal(body, has_database) == Some(
            (400u16, "Invalid request: "@ + body->Err_0@),
        ),
        body is Ok && body->Ok_0.email@.len() == 0 ==> register_refusal(body, has_database) == Some(
            (400u16, "Email is required"@),
        ),
        body is Ok && body->Ok_0.email@.len() > 0 && vstd::utf8::encode_utf8(
            body->Ok_0.password@,
        ).len() < 8 ==> register_refusal(body, has_database) == Some(
            (400u16, "Password must be at least 8 characters long"@),
        ),
        body is Ok && body->Ok_0.email@.len() > 0 && vstd::utf8::encode_utf8(
            body->Ok_0.password@,
        ).len() >= 8 && !body->Ok_0.email@.contains('@') ==> register_refusal(body, has_database)
            == Some((400u16, "Invalid email format"@)),
        body is Ok && body->Ok_0.email@.contains('@') && vstd::utf8::encode_utf8(
            body->Ok_0.password@,
        ).len() >= 8 && !has_database ==> register_refusal(body, has_database) == Some(
            (500u16, "Database not configured"@),
        ),
{
}

/// An email that is not taken yet can sign up in any role but the administrator's, and gets the role
/// that was asked for, or that of an ordinary user.
pub proof fn who_may_sign_up(wanted: RegisterRequest, taken: User, reason: String)
    ensures
        wanted.role is None ==> register_role(wanted) == "user"@ && register_found_refusal(
            Ok(None),
            wanted,
        ) is None,
        wanted.role is Some ==> register_role(wanted) == wanted.role->0@,
        wanted.role is Some ==> (register_found_refusal(Ok(None), wanted) is None
            <==> wanted.role->0@ != "admin"@),
        wanted.role is Some && wanted.role->0@ == "admin"@ ==> register_found_refusal(
            Ok(None),
            wanted,
        ) == Some((403u16, "Cannot register as admin"@)),
        register_found_refusal(Ok(Some(taken)), wanted) == Some(
            (400u16, "Email already registered"@),
        ),
        register_found_refusal(Err(reason), wanted) == Some(
            (500u16, "Database error: "@ + reason@),
        ),
{
    reveal_strlit("user");
    reveal_strlit("admin");
    assert("user"@.len() == 4 && "admin"@.len() == 5);
}

/// A user who was stored gets a token wherever tokens are issued.
pub proof fn who_was_stored_gets_a_token(user: User, reason: String, has_auth: bool)
    ensures
        register_stored_refusal(Ok(user), true) is None,
        register_stored_refusal(Ok(user), false) == Some((500u16, "Auth not configured"@)),
        register_stored_refusal(Err(reason), has_auth) == Some(
            (500u16, "Failed to create user: "@ + reason@),
        ),
{
}

/// The own account is shown to one who holds a token, where there is a database and the user is in
/// it.
pub proof fn who_sees_the_own_account(
    authenticated: bool,
    has_database: bool,
    user: User,
    reason: String,
)
    ensures
        me_refusal(authenticated, has_database) is None <==> authenticated && has_database,
        !authenticated ==> me_refusal(authenticated, has_database) == Some(
            (401u16, "Not authenticated"@),
        ),
        authenticated && !has_database ==> me_refusal(authenticated, has_database) == Some(
            (500u16, "Database not configured"@),
        ),
        found_refusal(Ok(Some(user))) is None,
        found_refusal(Ok(None)) == Some((404u16, "User not found"@)),
        found_refusal(Err(reason)) == Some((500u16, "Database error: "@ + reason@)),
{
}

/// A password is changed by one who holds a token, knows the current password and gives a new one of
/// eight bytes or more.
pub proof fn who_may_change_a_password(
    body: Result<ChangePasswordRequest, String>,
    authenticated: bool,
    has_database: bool,
    user: User,
    wanted: ChangePasswordRequest,
    reason: String,
)
    ensures
        change_refusal(body, authenticated, has_database) is None <==> body is Ok
            && vstd::utf8::encode_utf8(body->Ok_0.new_password@).len() >= 8 && authenticated
            && has_database,
        body is Err ==> change_refusal(body, authenticated, has_database) == Some(
            (400u16, "Invalid request: "@ + body->Err_0@),
        ),
        body is Ok && vstd::utf8::encode_utf8(body->Ok_0.new_password@).len() < 8
            ==> change_refusal(body, authenticated, has_database) == Some(
            (400u16, "New password must be at least 8 characters long"@),
        ),
        body is Ok && vstd::utf8::encode_utf8(body->Ok_0.new_password@).len() >= 8
            && !authenticated ==> change_refusal(body, authenticated, has_database) == Some(
            (401u16, "Not authenticated"@),
        ),
        change_found_refusal(Ok(Some(user)), wanted) is None <==> auth::password_matches(
            user.password_hash@,
            wanted.current_password@,
        ) == Some(true),
        change_found_refusal(Ok(Some(user)), wanted) is Some ==> change_found_refusal(
            Ok(Some(user)),
            wanted,
        ) == Some((401u16, "Current password is incorrect"@)),
        change_found_refusal(Ok(None), wanted) == Some((404u16, "User not found"@)),
        change_found_refusal(Err(reason), wanted) == Some((500u16, "Database error: "@ + reason@)),
{
}

/// A user is looked up where the path names one by a readable identifier and there is a database.
pub proof fn which_user_is_looked_up(
    params: Map<Seq<char>, String>,
    id: Seq<char>,
    has_database: bool,
)
    ensures
        !params.contains_key("id"@) ==> id_param(params) is None,
        params.contains_key("id"@) && params["id"@]@ == id ==> id_param(params) == Some(id),
        get_user_refusal(Some(id), has_database) is None <==> ids::uuid_parsed(id) is Some
            && has_database,
        get_user_refusal(None, has_database) == Some((400u16, "Missing user ID"@)),
        get_user_refusal(Some(id), false) == Some((500u16, "Database not available"@)),
        ids::uuid_parsed(id) is None ==> get_user_refusal(Some(id), true) == Some(
            (400u16, "Invalid user ID"@),
        ),
{
}

/// The answers to a sign-in, to a sign-up and to the question for the own account name what is
/// listed here and nothing more; the hash of the password is in none of them.
pub proof fn what_is_told_of_a_user(token: Seq<char>, user: User)
    ensures
        exists|members: Seq<(Seq<char>, JsonField)>|
            {
                &&& login_body(token, user) == #[trigger] json::object_text(members)
                &&& members.len() == 5
                &&& members[0] == ("token"@, JsonField::Text(token))
                &&& members[1] == ("user_id"@, JsonField::Text(ids::uuid_text(user.id)))
                &&& members[2] == ("email"@, JsonField::Text(user.email@))
                &&& members[3] == ("role"@, JsonField::Text(user.role@))
                &&& members[4] == ("expires_in"@, JsonField::Unsigned(86400))
                &&& register_body(token, user) == json::object_text(members.take(4))
            },
        exists|members: Seq<(Seq<char>, JsonField)>|
            {
                &&& account_body(user) == #[trigger] json::object_text(members)
                &&& members.len() == 4
                &&& members[0] == ("id"@, JsonField::Text(ids::uuid_text(user.id)))
                &&& members[1] == ("email"@, JsonField::Text(user.email@))
                &&& members[2] == ("role"@, JsonField::Text(user.role@))
                &&& members[3] == ("created_at"@, JsonField::Text(
                    clock::rfc3339(
                        user.created_at.spec_seconds(),
                        user.created_at.spec_nanos(),
                        true,
                    ),
                ))
            },
        exists|members: Seq<(Seq<char>, JsonField)>|
            {
                &&& message_body(token) == #[trigger] json::object_text(members)
                &&& members.len() == 1
                &&& members[0] == ("message"@, JsonField::Text(token))
            },
{
    let login = seq![
        ("token"@, JsonField::Text(token)),
        ("user_id"@, JsonField::Text(ids::uuid_text(user.id))),
        ("email"@, JsonField::Text(user.email@)),
        ("role"@, JsonField::Text(user.role@)),
        ("expires_in"@, JsonField::Unsigned(86400)),
    ];
    assert(login.take(4) =~= seq![
        ("token"@, JsonField::Text(token)),
        ("user_id"@, JsonField::Text(ids::uuid_text(user.id))),
        ("email"@, JsonField::Text(user.email@)),
        ("role"@, JsonField::Text(user.role@)),
    ]);
    assert(login_body(token, user) == json::object_text(login));
    let account = seq![
        ("id"@, JsonField::Text(ids::uuid_text(user.id))),
        ("email"@, JsonField::Text(user.email@)),
        ("role"@, JsonField::Text(user.role@)),
        ("created_at"@, JsonField::Text(user.created_at.spec_text(true))),
    ];
    assert(account_body(user) == json::object_text(account));
    let message = seq![("message"@, JsonField::Text(token))];
    assert(message_body(token) == json::object_text(message));
}

/// A sign-in or sign-up at a second from which a day can be counted is answered with a token that was
/// issued then, for a day, to the user; at any other it is said why no token is issued.
pub proof fn tokens_answer_sign_ins_and_sign_ups(
    secret: Seq<char>,
    user: User,
    clock: Option<u64>,
    signed_in: Response,
    signed_up: Response,
)
    requires
        login_answered_at(secret, user, clock, signed_in),
        register_answered_at(secret, user, clock, signed_up),
    ensures
        clock is Some && clock->0 + 24 * 60 * 60 <= i64::MAX ==> exists|token: Seq<char>|
            {
                &&& #[trigger] auth::issued(
                    token,
                    secret,
                    ClaimsView {
                        sub: user.id,
                        email: Some(user.email@),
                        role: user.role@,
                        exp: (clock->0 + 86400) as i64,
                        iat: clock->0 as i64,
                    },
                )
                &&& signed_in.is_json(200, login_body(token, user))
                &&& signed_up.is_json(201, register_body(token, user))
            },
        clock is None ==> signed_in.is_error(
            500,
            "Failed to create token: second time provided was later than self"@,
        ) && signed_up.is_error(
            500,
            "Failed to create token: second time provided was later than self"@,
        ),
        clock is Some && clock->0 + 24 * 60 * 60 > i64::MAX ==> signed_in.is_error(
            500,
            "Failed to create token: token expiry is out of range"@,
        ) && signed_up.is_error(500, "Failed to create token: token expiry is out of range"@),
{
    reveal_strlit("Failed to create token: ");
    reveal_strlit("second time provided was later than self");
    reveal_strlit("Failed to create token: second time provided was later than self");
    reveal_strlit("token expiry is out of range");
    reveal_strlit("Failed to create token: token expiry is out of range");
    assert("Failed to create token: "@ + "second time provided was later than self"@
        =~= "Failed to create token: second time provided was later than self"@);
    assert("Failed to create token: "@ + "token expiry is out of range"@
        =~= "Failed to create token: token expiry is out of range"@);
    if clock is Some && clock->0 + 24 * 60 * 60 <= i64::MAX {
        let token = token_at(secret, user, clock)->Ok_0;
        assert(issued_at(token, secret, user, clock));
        assert(auth::issued(
            token,
            secret,
            ClaimsView {
                sub: user.id,
                email: Some(user.email@),
                role: user.role@,
                exp: (clock->0 + 86400) as i64,
                iat: clock->0 as i64,
            },
        ));
    }
}

/// A token that was made is handed out, with the status of the request, and a token that could not be
/// made is reported with the reason.
pub proof fn a_token_is_handed_out(
    user: User,
    token: Result<String, AuthError>,
    signed_in: Response,
    signed_up: Response,
)
    requires
        login_answered(user, token, signed_in),
        register_answered(user, token, signed_up),
    ensures
        token is Ok ==> signed_in.is_json(200, login_body(token->Ok_0@, user)) && signed_up.is_json(
            201,
            register_body(token->Ok_0@, user),
        ),
        token is Err ==> signed_in.is_error(
            500,
            "Failed to create token: "@ + token->Err_0.spec_message(),
        ) && signed_up.is_error(500, "Failed to create token: "@ + token->Err_0.spec_message()),
{
}

/// What goes wrong while a user or a password is stored is reported as an error of the service, with
/// the reason.
pub proof fn failures_to_store_are_reported(reason: Seq<char>)
    ensures
        no_user(reason) == (500u16, "Failed to create user: "@ + reason),
        no_change(reason) == (500u16, "Failed to update password: "@ + reason),
        database_error(reason) == (500u16, "Database error: "@ + reason),
        unreadable(reason) == (400u16, "Invalid request: "@ + reason),
{
}

} // verus!
