use lime::accounts::{
    change_made, change_password_found, change_password_handler, change_password_stored, get_user,
    login_found, login_found_at, login_handler, login_response, me_found, me_handler, register_found,
    register_handler, register_made, register_response, register_stored, register_stored_at, user_found, ChangePasswordRequest, LoginRequest,
    RegisterRequest, Step,
};
use lime::api::{Request, Response};
use lime::auth::{
    check_password_strength, claims_from, claims_if_accepted, read_claims, write_claims, AuthContext,
    AuthError, Claims, PasswordStrength, RequireAuth, User, CREATE_USERS_TABLE, EXPIRY_LEEWAY,
};
use lime::clock::Timestamp;
use lime::text_map::TextMap;
use std::sync::Arc;

type PlainRequest = Request<u8, (), ()>;

const ID: u128 = 0x0123_4567_89ab_cdef_0123_4567_89ab_cdef;
const ID_TEXT: &str = "01234567-89ab-cdef-0123-456789abcdef";

fn request(pool: bool, auth: bool, header: Option<&'static [u8]>) -> PlainRequest {
    let mut map = hyper::HeaderMap::new();
    if let Some(value) = header {
        map.append("authorization", hyper::header::HeaderValue::from_bytes(value).unwrap());
    }
    Request::from_parts(
        "POST",
        "/auth",
        None,
        map,
        None,
        TextMap::new(),
        TextMap::new(),
        if pool { Some(1) } else { None },
        if auth { Some(AuthContext::new("secret").unwrap()) } else { None },
        None,
    )
}

fn bearer(token: &str) -> PlainRequest {
    let mut r = request(true, true, None);
    r.headers.append("authorization", format!("Bearer {}", token).parse().unwrap());
    r
}

fn now() -> Timestamp {
    Timestamp::from_unix(1_700_000_000, 0).unwrap()
}

fn stored(password: &str) -> User {
    User {
        id: ID,
        email: "ann@example.com".to_string(),
        password_hash: User::hash_password(password).unwrap(),
        role: "editor".to_string(),
        is_active: true,
        created_at: now(),
        updated_at: now(),
    }
}

fn claims() -> Claims {
    Claims { sub: ID, email: None, role: "user".to_string(), exp: -1, iat: 7 }
}

fn refusal<A>(step: Step<A>) -> (u16, String) {
    match step {
        Step::Respond(response) => error_of(&response),
        Step::Next(_) => panic!("the endpoint did not answer"),
    }
}

fn next<A>(step: Step<A>) -> A {
    match step {
        Step::Next(next) => next,
        Step::Respond(response) => panic!("answered: {}", response.body()),
    }
}

fn error_of(response: &Response) -> (u16, String) {
    let body: serde_json::Value = serde_json::from_str(response.body()).unwrap();
    assert_eq!(body["status"], response.status().as_u16());
    (response.status().as_u16(), body["error"].as_str().unwrap().to_string())
}

fn refused(code: u16, message: &str) -> (u16, String) {
    (code, message.to_string())
}

#[test]
fn claims_have_their_notation() {
    assert_eq!(
        write_claims(&claims()),
        format!("{{\"sub\":\"{}\",\"email\":null,\"role\":\"user\",\"exp\":-1,\"iat\":7}}", ID_TEXT)
    );
    let read = read_claims(&write_claims(&claims())).unwrap();
    assert_eq!(read.sub, ID);
    assert_eq!(read.email, None);
    assert_eq!(read.role, "user");
    assert_eq!(read.exp, -1);
    assert_eq!(read.iat, 7);
}

#[test]
fn claims_need_their_fields() {
    let with = |s: &str| read_claims(s).is_ok();
    assert!(with("{\"sub\":\"0123456789abcdef0123456789abcdef\",\"role\":\"u\",\"exp\":1,\"iat\":2}"));
    assert!(!with("{\"sub\":\"nobody\",\"role\":\"u\",\"exp\":1,\"iat\":2}"));
    assert!(!with("{\"role\":\"u\",\"exp\":1,\"iat\":2}"));
    assert!(!with("{\"sub\":\"0123456789abcdef0123456789abcdef\",\"exp\":1,\"iat\":2}"));
    assert!(!with("{\"sub\":\"0123456789abcdef0123456789abcdef\",\"role\":\"u\",\"exp\":1.5,\"iat\":2}"));
    assert!(!with(
        "{\"sub\":\"0123456789abcdef0123456789abcdef\",\"role\":\"u\",\"exp\":9223372036854775808,\"iat\":2}"
    ));
    assert!(!with(
        "{\"sub\":\"0123456789abcdef0123456789abcdef\",\"email\":5,\"role\":\"u\",\"exp\":1,\"iat\":2}"
    ));
    assert!(!with("[]"));
    assert!(!with("nonsense"));
}

#[test]
fn a_token_gives_its_claims_back() {
    let auth = AuthContext::new("secret").unwrap();
    let token = auth.create_token(ID, Some("a@b".to_string()), "admin", 3600).unwrap();
    assert_eq!(token.split('.').count(), 3);
    let claims = auth.verify_token(&token).unwrap();
    assert_eq!(claims.sub, ID);
    assert_eq!(claims.email, Some("a@b".to_string()));
    assert_eq!(claims.role, "admin");
    assert_eq!(claims.exp - claims.iat, 3600);

    let other = AuthContext::new("other").unwrap();
    assert_eq!(other.verify_token(&token).err().unwrap().message(), "InvalidSignature");
}

#[test]
fn an_issued_token_is_made_of_its_claims() {
    let auth = AuthContext::new("secret").unwrap();
    let token = auth.create_token_at(5, ID, None, "user", 10).unwrap();
    let expected = jsonwebtoken::encode(
        &jsonwebtoken::Header::default(),
        &serde_json::value::RawValue::from_string(format!(
            "{{\"sub\":\"{}\",\"email\":null,\"role\":\"user\",\"exp\":15,\"iat\":5}}",
            ID_TEXT
        ))
        .unwrap(),
        &jsonwebtoken::EncodingKey::from_secret(b"secret"),
    )
    .unwrap();
    assert_eq!(token, expected);
    assert_eq!(auth.verify_token(&token).err().unwrap().message(), "ExpiredSignature");
}

#[test]
fn a_token_without_claims_is_refused() {
    let mut map = serde_json::Map::new();
    map.insert("exp".to_string(), serde_json::Value::from(99_999_999_999u64));
    let token = jsonwebtoken::encode(
        &jsonwebtoken::Header::default(),
        &map,
        &jsonwebtoken::EncodingKey::from_secret(b"secret"),
    )
    .unwrap();
    let refused = AuthContext::new("secret").unwrap().verify_token(&token).err().unwrap();
    assert!(matches!(refused, AuthError::Claims(_)));
    assert_eq!(refused.message(), "JSON error: missing field `sub` at line 1 column 19");
}

fn signed(payload: &str) -> String {
    jsonwebtoken::encode(
        &jsonwebtoken::Header::default(),
        &serde_json::value::RawValue::from_string(payload.to_string()).unwrap(),
        &jsonwebtoken::EncodingKey::from_secret(b"secret"),
    )
    .unwrap()
}

#[test]
fn a_token_is_accepted_for_a_minute_more() {
    assert_eq!(EXPIRY_LEEWAY, 60);
    let auth = AuthContext::new("secret").unwrap();
    let just_expired = auth.create_token(ID, None, "user", -30).unwrap();
    let claims = auth.verify_token(&just_expired).unwrap();
    assert_eq!(claims.exp - claims.iat, -30);
    let long_expired = auth.create_token(ID, None, "user", -90).unwrap();
    let refused = auth.verify_token(&long_expired).err().unwrap();
    assert!(matches!(refused, AuthError::Token(_)));
    assert_eq!(refused.message(), "ExpiredSignature");
}

#[test]
fn a_token_is_read_before_it_is_accepted() {
    let auth = AuthContext::new("secret").unwrap();
    let message = |token: &str| auth.verify_token(token).err().unwrap().message();
    assert_eq!(message("nonsense"), "InvalidToken");
    let expired_without_claims = signed("{\"exp\":1}");
    assert!(matches!(auth.verify_token(&expired_without_claims), Err(AuthError::Claims(_))));
    assert_eq!(message(&expired_without_claims), "JSON error: missing field `sub` at line 1 column 9");
    let before_1970 = auth.create_token_at(0, ID, None, "user", -1).unwrap();
    assert_eq!(message(&before_1970), "Missing required claim: exp");
    let to_someone = signed(&format!(
        "{{\"sub\":\"{}\",\"role\":\"user\",\"exp\":99999999999,\"iat\":5,\"aud\":\"me\"}}",
        ID_TEXT
    ));
    assert_eq!(message(&to_someone), "InvalidAudience");
    let twice = signed(&format!(
        "{{\"sub\":\"{0}\",\"sub\":\"{0}\",\"role\":\"user\",\"exp\":99999999999,\"iat\":5}}",
        ID_TEXT
    ));
    assert!(message(&twice).starts_with("JSON error: duplicate field `sub`"));
}

#[test]
fn an_expiry_can_be_too_late() {
    let auth = AuthContext::new("secret").unwrap();
    let refused = auth.create_token(ID, None, "user", i64::MAX).err().unwrap();
    assert!(matches!(refused, AuthError::Expiry));
    assert_eq!(refused.message(), "token expiry is out of range");
    assert_eq!(AuthError::Clock.message(), "second time provided was later than self");
}

#[test]
fn a_header_holds_a_bearer_token() {
    let auth = AuthContext::new("secret").unwrap();
    let token = auth.create_token(ID, None, "user", 60).unwrap();
    assert_eq!(auth.extract_from_header(&format!("Bearer {}", token)).unwrap().sub, ID);
    assert_eq!(auth.extract_from_header(&format!("Bearer \t {}\u{a0} ", token)).unwrap().sub, ID);
    let refused = auth.extract_from_header(&token).err().unwrap();
    assert!(matches!(refused, AuthError::HeaderFormat));
    assert_eq!(refused.message(), "Invalid authorization header format");
}

#[test]
fn passwords_match_their_hash_only() {
    let user = stored("correct horse");
    assert!(user.verify_password("correct horse").unwrap());
    assert!(!user.verify_password("battery staple").unwrap());
    assert_ne!(User::hash_password("x").unwrap(), User::hash_password("x").unwrap());
    let mut broken = stored("x");
    broken.password_hash = "plain".to_string();
    let refused = broken.verify_password("plain").err().unwrap();
    assert!(matches!(refused, AuthError::StoredHash(_)));
    assert!(refused.message().starts_with("Failed to parse password hash: "));
    assert_eq!(
        AuthError::Hashing("no".to_string()).message(),
        "Failed to hash password: no"
    );
}

#[test]
fn a_new_user_is_ready_to_be_stored() {
    let user = User::create("a@b", "password", "user", now()).unwrap();
    assert_eq!(user.email, "a@b");
    assert_eq!(user.role, "user");
    assert!(user.is_active);
    assert_eq!(user.created_at, now());
    assert_eq!(user.updated_at, now());
    assert!(user.verify_password("password").unwrap());
    assert_eq!((user.id >> 76) & 0xf, 4);
    assert_eq!((user.id >> 62) & 0x3, 2);
    assert_ne!(user.id, User::create("a@b", "password", "user", now()).unwrap().id);
}

#[test]
fn roles_decide_who_gets_in() {
    let auth = Arc::new(AuthContext::new("secret").unwrap());
    let editors = RequireAuth::new(auth.clone(), Some("editor"));
    let anyone = RequireAuth::new(auth.clone(), None);
    let token = |role: &str| auth.create_token(ID, None, role, 60).unwrap();

    for role in vec!["editor", "admin"] {
        let passed = editors.authenticate(bearer(&token(role))).ok().unwrap();
        assert_eq!(passed.claims().unwrap().role, role);
        assert_eq!(passed.claims().unwrap().sub, ID);
    }
    let refusal = editors.authenticate(bearer(&token("user"))).err().unwrap();
    assert_eq!(error_of(&refusal), refused(403, "Insufficient permissions"));
    assert!(anyone.authenticate(bearer(&token("user"))).is_ok());

    let missing = anyone.authenticate(request(true, true, None)).err().unwrap();
    assert_eq!(error_of(&missing), refused(401, "Authorization header required"));
    let unreadable = anyone.authenticate(request(true, true, Some(b"Bearer \xff"))).err().unwrap();
    assert_eq!(error_of(&unreadable), refused(401, "Invalid authorization header"));
    let basic = anyone.authenticate(request(true, true, Some(b"Basic abc"))).err().unwrap();
    assert_eq!(
        error_of(&basic),
        refused(401, "Invalid token: Invalid authorization header format")
    );
    let broken = anyone.authenticate(bearer("a.b")).err().unwrap();
    assert_eq!(error_of(&broken), refused(401, "Invalid token: InvalidToken"));
}

#[test]
fn a_checked_token_decides() {
    let auth = Arc::new(AuthContext::new("secret").unwrap());
    let editors = RequireAuth::new(auth, Some("editor"));
    let passed = editors.decide(request(false, false, None), Ok(claims()));
    assert_eq!(error_of(&passed.err().unwrap()), refused(403, "Insufficient permissions"));
    let failed = editors.decide(request(false, false, None), Err(AuthError::Token("t".to_string())));
    assert_eq!(error_of(&failed.err().unwrap()), refused(401, "Invalid token: t"));
}

#[test]
fn signing_in_checks_what_was_sent() {
    let login = |email: &str, password: &str| {
        Ok(LoginRequest { email: email.to_string(), password: password.to_string() })
    };
    let start = |pool, body| login_handler(&request(pool, true, None), body);
    assert_eq!(
        refusal(start(true, Err("EOF".to_string()))),
        refused(400, "Invalid request: EOF")
    );
    for body in vec![login("", "p"), login("e", "")] {
        assert_eq!(refusal(start(true, body)), refused(400, "Email and password are required"));
    }
    assert_eq!(refusal(start(false, login("e", "p"))), refused(500, "Database not configured"));
    let wanted = next(start(true, login("e", "p")));
    assert_eq!((wanted.email.as_str(), wanted.password.as_str()), ("e", "p"));
}

#[test]
fn signing_in_needs_the_password() {
    let with_auth = request(true, true, None);
    let login = LoginRequest { email: "ann@example.com".to_string(), password: "right".to_string() };
    let failed = login_found(&with_auth, &login, Err("down".to_string()));
    assert_eq!(error_of(&failed), refused(500, "Database error: down"));
    let unknown = login_found(&with_auth, &login, Ok(None));
    assert_eq!(error_of(&unknown), refused(401, "Invalid credentials"));
    let wrong = login_found(&with_auth, &login, Ok(Some(stored("wrong"))));
    assert_eq!(error_of(&wrong), refused(401, "Invalid credentials"));
    let mut unreadable = stored("right");
    unreadable.password_hash = "plain".to_string();
    let broken = login_found(&with_auth, &login, Ok(Some(unreadable)));
    assert_eq!(error_of(&broken), refused(401, "Invalid credentials"));
    let no_auth = login_found(&request(true, false, None), &login, Ok(Some(stored("right"))));
    assert_eq!(error_of(&no_auth), refused(500, "Auth not configured"));

    let answer = login_found(&with_auth, &login, Ok(Some(stored("right"))));
    assert_eq!(answer.status().as_u16(), 200);
    let body: serde_json::Value = serde_json::from_str(answer.body()).unwrap();
    assert_eq!(body["user_id"], ID_TEXT);
    assert_eq!(body["email"], "ann@example.com");
    assert_eq!(body["role"], "editor");
    assert_eq!(body["expires_in"], 86400);
    let auth = AuthContext::new("secret").unwrap();
    let claims = auth.verify_token(body["token"].as_str().unwrap()).unwrap();
    assert_eq!(claims.sub, ID);
    assert_eq!(claims.email, Some("ann@example.com".to_string()));
    assert_eq!(claims.exp - claims.iat, 86400);
}

#[test]
fn answers_carry_the_token() {
    let user = stored("x");
    let answer = login_response(&user, Ok("t".to_string()));
    assert_eq!(
        answer.body(),
        format!(
            "{{\"token\":\"t\",\"user_id\":\"{}\",\"email\":\"ann@example.com\",\
             \"role\":\"editor\",\"expires_in\":86400}}",
            ID_TEXT
        )
    );
    let answer = register_response(&user, Ok("t".to_string()));
    assert_eq!(answer.status().as_u16(), 201);
    assert_eq!(
        answer.body(),
        format!(
            "{{\"token\":\"t\",\"user_id\":\"{}\",\"email\":\"ann@example.com\",\
             \"role\":\"editor\"}}",
            ID_TEXT
        )
    );
    let failed = login_response(&user, Err(AuthError::Expiry));
    assert_eq!(
        error_of(&failed),
        refused(500, "Failed to create token: token expiry is out of range")
    );
    let failed = register_response(&user, Err(AuthError::Clock));
    assert_eq!(
        error_of(&failed),
        refused(500, "Failed to create token: second time provided was later than self")
    );
}

#[test]
fn signing_up_checks_what_was_sent() {
    let wanted = |email: &str, password: &str| {
        Ok(RegisterRequest {
            email: email.to_string(),
            password: password.to_string(),
            role: None,
        })
    };
    let start = |pool, body| register_handler(&request(pool, true, None), body);
    assert_eq!(refusal(start(true, Err("x".to_string()))), refused(400, "Invalid request: x"));
    assert_eq!(refusal(start(true, wanted("", "short"))), refused(400, "Email is required"));
    assert_eq!(
        refusal(start(true, wanted("nobody", "1234567"))),
        refused(400, "Password must be at least 8 characters long")
    );
    assert_eq!(
        refusal(start(true, wanted("nobody", "12345678"))),
        refused(400, "Invalid email format")
    );
    assert_eq!(
        refusal(start(false, wanted("a@b", "12345678"))),
        refused(500, "Database not configured")
    );
    assert_eq!(next(start(true, wanted("a@b", "\u{e9}\u{e9}\u{e9}\u{e9}"))).email, "a@b");
}

#[test]
fn signing_up_makes_an_ordinary_user() {
    let wanted = |role: Option<&str>| RegisterRequest {
        email: "a@b".to_string(),
        password: "12345678".to_string(),
        role: role.map(|r| r.to_string()),
    };
    let found = |role, found| register_found(&wanted(role), found, now());
    assert_eq!(
        refusal(found(None, Err("down".to_string()))),
        refused(500, "Database error: down")
    );
    assert_eq!(
        refusal(found(Some("admin"), Ok(Some(stored("x"))))),
        refused(400, "Email already registered")
    );
    assert_eq!(refusal(found(Some("admin"), Ok(None))), refused(403, "Cannot register as admin"));
    assert_eq!(next(found(None, Ok(None))).role, "user");
    let user = next(found(Some("editor"), Ok(None)));
    assert_eq!(user.role, "editor");
    assert_eq!(user.email, "a@b");
    assert!(user.verify_password("12345678").unwrap());

    let failed = register_stored(&request(true, true, None), Err("taken".to_string()));
    assert_eq!(error_of(&failed), refused(500, "Failed to create user: taken"));
    let no_auth = register_stored(&request(true, false, None), Ok(stored("x")));
    assert_eq!(error_of(&no_auth), refused(500, "Auth not configured"));
    let answer = register_stored(&request(true, true, None), Ok(user));
    assert_eq!(answer.status().as_u16(), 201);
}

#[test]
fn an_account_is_shown_to_its_owner() {
    let mut r = request(true, true, None);
    assert_eq!(refusal(me_handler(&r)), refused(401, "Not authenticated"));
    r.claims = Some(claims());
    assert_eq!(next(me_handler(&r)), ID);
    r.db_pool = None;
    assert_eq!(refusal(me_handler(&r)), refused(500, "Database not configured"));

    assert_eq!(error_of(&me_found(Ok(None))), refused(404, "User not found"));
    assert_eq!(error_of(&me_found(Err("e".to_string()))), refused(500, "Database error: e"));
    assert_eq!(
        me_found(Ok(Some(stored("x")))).body(),
        format!(
            "{{\"id\":\"{}\",\"email\":\"ann@example.com\",\"role\":\"editor\",\
             \"created_at\":\"2023-11-14T22:13:20Z\"}}",
            ID_TEXT
        )
    );
}

#[test]
fn a_password_is_changed_by_who_knows_it() {
    let body = |new: &str| {
        Ok(ChangePasswordRequest {
            current_password: "old".to_string(),
            new_password: new.to_string(),
        })
    };
    let mut r = request(true, true, None);
    assert_eq!(
        refusal(change_password_handler(&r, Err("x".to_string()))),
        refused(400, "Invalid request: x")
    );
    assert_eq!(
        refusal(change_password_handler(&r, body("short"))),
        refused(400, "New password must be at least 8 characters long")
    );
    assert_eq!(
        refusal(change_password_handler(&r, body("new password"))),
        refused(401, "Not authenticated")
    );
    r.claims = Some(claims());
    let (id, wanted) = next(change_password_handler(&r, body("new password")));
    assert_eq!(id, ID);

    assert_eq!(
        refusal(change_password_found(&wanted, Ok(None), now())),
        refused(404, "User not found")
    );
    assert_eq!(
        refusal(change_password_found(&wanted, Err("e".to_string()), now())),
        refused(500, "Database error: e")
    );
    assert_eq!(
        refusal(change_password_found(&wanted, Ok(Some(stored("other"))), now())),
        refused(401, "Current password is incorrect")
    );
    let later = Timestamp::from_unix(1_800_000_000, 0).unwrap();
    let change = next(change_password_found(&wanted, Ok(Some(stored("old"))), later));
    assert_eq!(change.user_id, ID);
    assert_eq!(change.updated_at, later);
    let mut user = stored("old");
    user.password_hash = change.password_hash;
    assert!(user.verify_password("new password").unwrap());
    assert!(!user.verify_password("old").unwrap());

    assert_eq!(
        change_password_stored(Ok(())).body(),
        "{\"message\":\"Password updated successfully\"}"
    );
    assert_eq!(
        error_of(&change_password_stored(Err("e".to_string()))),
        refused(500, "Failed to update password: e")
    );
}

#[test]
fn a_user_is_found_by_path() {
    let mut r = request(true, true, None);
    assert_eq!(refusal(get_user(&r)), refused(400, "Missing user ID"));
    r.params.insert("id".to_string(), "nobody".to_string());
    assert_eq!(refusal(get_user(&r)), refused(400, "Invalid user ID"));
    r.params.insert("id".to_string(), ID_TEXT.to_uppercase());
    assert_eq!(next(get_user(&r)), ID);
    r.db_pool = None;
    assert_eq!(refusal(get_user(&r)), refused(500, "Database not available"));

    assert_eq!(user_found(Ok(Some(Some("{}".to_string())))).body(), "{}");
    assert_eq!(user_found(Ok(Some(None))).status().as_u16(), 500);
    assert_eq!(error_of(&user_found(Ok(None))), refused(404, "User not found"));
    assert_eq!(error_of(&user_found(Err("e".to_string()))), refused(500, "Database error: e"));
}

#[test]
fn strength_counts_six_marks() {
    assert_eq!(check_password_strength(""), PasswordStrength::Weak);
    assert_eq!(check_password_strength("aaaaaaaa"), PasswordStrength::Weak);
    assert_eq!(check_password_strength("Aaaaaaaa"), PasswordStrength::Medium);
    assert_eq!(check_password_strength("Aaaaaaa1"), PasswordStrength::Medium);
    assert_eq!(check_password_strength("Aaaaaa1!"), PasswordStrength::Strong);
    assert_eq!(check_password_strength("Aaaaaaaaaaa1!"), PasswordStrength::Strong);
    assert_eq!(check_password_strength("aaaaaaaaaaaa"), PasswordStrength::Medium);
    assert_eq!(check_password_strength("\u{c9}\u{e9}\u{e9}\u{664}"), PasswordStrength::Medium);
    assert!(!PasswordStrength::Weak.is_acceptable());
    assert!(PasswordStrength::Medium.is_acceptable());
    assert!(PasswordStrength::Strong.is_acceptable());
}

#[test]
fn the_table_of_users_is_described() {
    assert!(CREATE_USERS_TABLE.starts_with("\nCREATE TABLE IF NOT EXISTS users ("));
    assert!(CREATE_USERS_TABLE.contains("email VARCHAR(255) UNIQUE NOT NULL"));
    assert_eq!(CREATE_USERS_TABLE.matches("CREATE INDEX IF NOT EXISTS").count(), 3);
}

#[test]
fn the_clock_decides_when_a_token_is_issued() {
    let auth = AuthContext::new("secret").unwrap();
    let by = |clock, expiry| auth.create_token_by(clock, ID, None, "user", expiry);
    assert_eq!(by(Some(5), 10).unwrap(), auth.create_token_at(5, ID, None, "user", 10).unwrap());
    assert!(matches!(by(None, 10), Err(AuthError::Clock)));
    assert!(matches!(by(Some(1), i64::MAX), Err(AuthError::Expiry)));
    assert!(matches!(by(Some(u64::MAX), 1), Err(AuthError::Expiry)));
}

#[test]
fn an_accepted_payload_holds_claims() {
    assert_eq!(claims_from(Ok(write_claims(&claims()))).unwrap().sub, ID);
    assert!(matches!(
        claims_from(Ok("{}".to_string())),
        Err(AuthError::Claims(reason)) if reason == "missing field `sub` at line 1 column 2"
    ));
    assert!(matches!(
        claims_from(Err("expired".to_string())),
        Err(AuthError::Token(reason)) if reason == "expired"
    ));
}

#[test]
fn claims_are_those_of_an_accepted_token() {
    assert_eq!(claims_if_accepted(claims(), Ok("{}".to_string())).unwrap().sub, ID);
    assert!(matches!(
        claims_if_accepted(claims(), Err("ExpiredSignature".to_string())),
        Err(AuthError::Token(reason)) if reason == "ExpiredSignature"
    ));
}

#[test]
fn a_stored_hash_can_ask_for_too_many_lanes() {
    let mut user = stored("correct horse");
    let hash = user.password_hash.clone();
    let mut with_lanes = |lanes: &str| {
        user.password_hash = hash.replacen("p=1", lanes, 1);
        assert_eq!(user.password_hash == hash, lanes == "p=1");
        user.verify_password("correct horse").unwrap()
    };
    assert!(with_lanes("p=1"));
    assert!(!with_lanes("p=2"));
    assert!(!with_lanes("p=536870911"));
    assert!(!with_lanes("p=536870912"));
    assert!(!with_lanes("p=4294967295"));
    assert!(!with_lanes("p=99999999999999999999"));
    assert!(!with_lanes("p=1,p=536870912"));
    assert!(with_lanes("p=536870912,p=1"));
    assert!(!with_lanes("p=many"));
}

#[test]
fn a_wrong_password_is_no_error() {
    let user = stored("correct horse");
    for wrong in ["", "correct", "correct horse ", "Correct horse"] {
        assert!(matches!(user.verify_password(wrong), Ok(false)));
    }
    let mut broken = stored("x");
    broken.password_hash = String::new();
    let reason = |password: &str| broken.verify_password(password).err().unwrap().message();
    assert_eq!(reason("x"), reason("y"));
}

#[test]
fn a_hash_that_could_not_be_made_is_reported() {
    let failed = || AuthError::Hashing("no".to_string());
    assert!(User::with_hash(1, "a@b", Err(failed()), "user", now()).is_err());
    let user = User::with_hash(1, "a@b", Ok("h".to_string()), "user", now()).unwrap();
    assert_eq!((user.id, user.password_hash.as_str()), (1, "h"));
    assert!(user.with_new_hash(Err(failed()), now()).is_err());
    assert_eq!(user.with_new_hash(Ok("g".to_string()), now()).unwrap().password_hash, "g");
    assert_eq!(
        refusal(register_made(Err(failed()))),
        refused(500, "Failed to create user: Failed to hash password: no")
    );
    assert_eq!(
        refusal(change_made(Err(failed()))),
        refused(500, "Failed to update password: Failed to hash password: no")
    );
    assert_eq!(next(register_made(Ok(user))).id, 1);
}

#[test]
fn the_clock_decides_what_is_answered() {
    let with_auth = request(true, true, None);
    let login = LoginRequest { email: "ann@example.com".to_string(), password: "right".to_string() };
    let user = stored("right");
    let email = Some("ann@example.com".to_string());
    let token = AuthContext::new("secret").unwrap().create_token_at(7, ID, email, "editor", 86400).unwrap();
    let signed_in = login_found_at(&with_auth, &login, Ok(Some(user.clone())), Some(7));
    assert_eq!(signed_in.status().as_u16(), 200);
    assert_eq!(
        signed_in.body(),
        format!(
            "{{\"token\":\"{}\",\"user_id\":\"{}\",\"email\":\"ann@example.com\",\"role\":\"editor\",\"expires_in\":86400}}",
            token, ID_TEXT
        )
    );
    let signed_up = register_stored_at(&with_auth, Ok(user.clone()), Some(7));
    assert_eq!(signed_up.status().as_u16(), 201);
    assert_eq!(
        signed_up.body(),
        format!(
            "{{\"token\":\"{}\",\"user_id\":\"{}\",\"email\":\"ann@example.com\",\"role\":\"editor\"}}",
            token, ID_TEXT
        )
    );
    let no_clock = "Failed to create token: second time provided was later than self";
    let late = "Failed to create token: token expiry is out of range";
    let at = |clock| login_found_at(&with_auth, &login, Ok(Some(user.clone())), clock);
    assert_eq!(error_of(&at(None)), refused(500, no_clock));
    assert_eq!(error_of(&at(Some(i64::MAX as u64 - 86399))), refused(500, late));
    assert_eq!(at(Some(i64::MAX as u64 - 86400)).status().as_u16(), 200);
    let up = |clock| register_stored_at(&with_auth, Ok(user.clone()), clock);
    assert_eq!(error_of(&up(None)), refused(500, no_clock));
    assert_eq!(error_of(&up(Some(u64::MAX))), refused(500, late));
}
