use lime::auth::{AuthContext, AuthError, Claims};
use serde::de::{Deserialize, Deserializer, Error, IgnoredAny, MapAccess, SeqAccess, Visitor};

const ID: u128 = 0x0123_4567_89ab_cdef_0123_4567_89ab_cdef;
const ID_TEXT: &str = "01234567-89ab-cdef-0123-456789abcdef";

/// Claims as a structure that `serde` reads field by field.
struct Plain {
    sub: uuid::Uuid,
    email: Option<String>,
    role: String,
    exp: i64,
    iat: i64,
}

struct PlainVisitor;

fn put<T, E: Error>(slot: &mut Option<T>, name: &'static str) -> Result<(), E> {
    match slot {
        Some(_) => Err(E::duplicate_field(name)),
        None => Ok(()),
    }
}

impl<'de> Visitor<'de> for PlainVisitor {
    type Value = Plain;

    fn expecting(&self, f: &mut std::fmt::Formatter) -> std::fmt::Result {
        f.write_str("struct Claims")
    }

    fn visit_seq<A: SeqAccess<'de>>(self, mut seq: A) -> Result<Plain, A::Error> {
        let short = |n| A::Error::invalid_length(n, &"struct Claims with 5 elements");
        Ok(Plain {
            sub: seq.next_element()?.ok_or_else(|| short(0))?,
            email: seq.next_element()?.ok_or_else(|| short(1))?,
            role: seq.next_element()?.ok_or_else(|| short(2))?,
            exp: seq.next_element()?.ok_or_else(|| short(3))?,
            iat: seq.next_element()?.ok_or_else(|| short(4))?,
        })
    }

    fn visit_map<A: MapAccess<'de>>(self, mut map: A) -> Result<Plain, A::Error> {
        let mut sub = None;
        let mut email: Option<Option<String>> = None;
        let mut role = None;
        let mut exp = None;
        let mut iat = None;
        while let Some(key) = map.next_key::<String>()? {
            match key.as_str() {
                "sub" => {
                    put(&mut sub, "sub")?;
                    sub = Some(map.next_value()?);
                }
                "email" => {
                    put(&mut email, "email")?;
                    email = Some(map.next_value()?);
                }
                "role" => {
                    put(&mut role, "role")?;
                    role = Some(map.next_value()?);
                }
                "exp" => {
                    put(&mut exp, "exp")?;
                    exp = Some(map.next_value()?);
                }
                "iat" => {
                    put(&mut iat, "iat")?;
                    iat = Some(map.next_value()?);
                }
                _ => {
                    map.next_value::<IgnoredAny>()?;
                }
            }
        }
        Ok(Plain {
            sub: sub.ok_or_else(|| A::Error::missing_field("sub"))?,
            email: email.unwrap_or(None),
            role: role.ok_or_else(|| A::Error::missing_field("role"))?,
            exp: exp.ok_or_else(|| A::Error::missing_field("exp"))?,
            iat: iat.ok_or_else(|| A::Error::missing_field("iat"))?,
        })
    }
}

impl<'de> Deserialize<'de> for Plain {
    fn deserialize<D: Deserializer<'de>>(deserializer: D) -> Result<Plain, D::Error> {
        deserializer.deserialize_struct(
            "Claims",
            &["sub", "email", "role", "exp", "iat"],
            PlainVisitor,
        )
    }
}

fn signed(payload: &str) -> String {
    jsonwebtoken::encode(
        &jsonwebtoken::Header::default(),
        &serde_json::value::RawValue::from_string(payload.to_string()).unwrap(),
        &jsonwebtoken::EncodingKey::from_secret(b"secret"),
    )
    .unwrap()
}

fn expected(token: &str) -> Result<Plain, String> {
    jsonwebtoken::decode::<Plain>(
        token,
        &jsonwebtoken::DecodingKey::from_secret(b"secret"),
        &jsonwebtoken::Validation::default(),
    )
    .map(|data| data.claims)
    .map_err(|e| e.to_string())
}

fn check(payload: &str) -> Result<Claims, AuthError> {
    let token = signed(payload);
    let found = AuthContext::new("secret").unwrap().verify_token(&token);
    match (&found, expected(&token)) {
        (Ok(claims), Ok(plain)) => {
            assert_eq!(claims.sub, plain.sub.as_u128());
            assert_eq!(claims.email, plain.email);
            assert_eq!(claims.role, plain.role);
            assert_eq!(claims.exp, plain.exp);
            assert_eq!(claims.iat, plain.iat);
        }
        (Err(e), Err(reason)) => assert_eq!(e.message(), reason, "{}", payload),
        (found, expected) => panic!("{}: {:?} {:?}", payload, found, expected.err()),
    }
    found
}

fn object(members: &str) -> String {
    format!("{{\"sub\":\"{}\",\"role\":\"user\",\"exp\":99999999999{}}}", ID_TEXT, members)
}

#[test]
fn claims_are_read_wherever_they_stand() {
    assert_eq!(check(&object(",\"iat\":5")).unwrap().sub, ID);
    assert_eq!(check(&object(",\"iat\":-5,\"email\":\"a@b\"")).unwrap().iat, -5);
    assert_eq!(check(&object(",\"iat\":5,\"email\":null")).unwrap().email, None);
    let spread = format!(
        "{{ \"iat\" :\t7 ,\n\"ex\\u0070\":\r99999999999,\"role\" : \"\u{e9}\\n\" , \"sub\": \"{}\" }}",
        ID_TEXT.replace('-', "").to_uppercase()
    );
    let claims = check(&spread).unwrap();
    assert_eq!((claims.sub, claims.role.as_str(), claims.iat), (ID, "\u{e9}\n", 7));
}

#[test]
fn other_members_are_passed_over() {
    let deep = format!(",\"iat\":5,\"deep\":{}{}", "[".repeat(200), "]".repeat(200));
    assert_eq!(check(&object(&deep)).unwrap().iat, 5);
    assert_eq!(check(&object(",\"iat\":5,\"far\":1e999")).unwrap().iat, 5);
    assert_eq!(check(&object(",\"iat\":5,\"x\":1,\"x\":{\"iat\":\"no\"}")).unwrap().iat, 5);
    assert_eq!(check(&object(",\"iat\":5,\"$serde_json::private::RawValue\":\"5\"")).unwrap().iat, 5);
}

#[test]
fn a_claim_may_not_occur_twice() {
    for repeated in ["\"iat\":5,\"iat\":6", "\"iat\":5, \"role\" \n : \"x\"", "\"email\":null,\"email\":\"a\"",
        "\"iat\":5,\"\u{e9}\":1,\"\\u0072ole\":1"]
    {
        assert!(matches!(check(&object(&format!(",{}", repeated))), Err(AuthError::Claims(_))));
    }
    assert_eq!(
        check(&object(",\"iat\":5,\"iat\":6")).err().unwrap().message(),
        "JSON error: duplicate field `iat` at line 1 column 91"
    );
}

#[test]
fn a_claim_is_of_its_kind() {
    for (name, value) in [
        ("iat", "1.5"),
        ("iat", "\"5\""),
        ("iat", "null"),
        ("iat", "9223372036854775808"),
        ("iat", "-9223372036854775809"),
        ("iat", "1e999"),
        ("iat", "[1,2]"),
        ("iat", "true"),
        ("email", "5"),
        ("email", "{\"a\":1}"),
        ("email", "\"\\ud800\""),
        ("email", "\"\\ud800\\n\""),
    ] {
        for before in ["", ",\"\u{1f600}\":\"\u{e9}\"", ",\n\"a\":\n[1,\n2]"] {
            let payload = object(&format!("{} ,\"{}\": {} ,\"z\":0", before, name, value));
            assert!(matches!(check(&payload), Err(AuthError::Claims(_))), "{}", payload);
        }
    }
    for sub in ["\"nobody\"", "5", "-1.5", "\"\"", "null", "true"] {
        let payload = format!("{{\"role\":\"u\",\"sub\":{},\"exp\":1,\"iat\":2}}", sub);
        assert!(matches!(check(&payload), Err(AuthError::Claims(_))), "{}", payload);
    }
    assert_eq!(
        check(&object(",\"iat\":1.5")).err().unwrap().message(),
        "JSON error: invalid type: floating point `1.5`, expected i64 at line 1 column 87"
    );
}

#[test]
fn the_first_missing_claim_is_named() {
    for payload in [
        "{}",
        "{\n}",
        "{\"exp\":1}",
        "{\"exp\":1,\"iat\":2 ,\n \"role\":\"u\" } ",
        "{\"a\":{}}",
    ] {
        assert!(matches!(check(payload), Err(AuthError::Claims(_))));
    }
    for rest in ["", ",\"role\":\"u\"", ",\"role\":\"u\",\"exp\":1", ",\"exp\":1,\"iat\":1", ",\"role\":\"u\",\"iat\":1"] {
        let payload = format!("{{\"sub\":\"{}\"{}}}", ID_TEXT, rest);
        assert!(matches!(check(&payload), Err(AuthError::Claims(_))));
    }
}

#[test]
fn an_array_holds_claims_in_their_order() {
    let array = format!("[ \"{}\" , null,\"user\", 99999999999,5 ]", ID_TEXT);
    assert_eq!(check(&array).err().unwrap().message(), "Missing required claim: exp");
    assert_eq!(lime::auth::read_claims(&array).unwrap().sub, ID);
    for payload in [
        format!("[\"{}\",1,\"user\",99999999999,5]", ID_TEXT),
        format!("[\"{}\",null,\"user\",\"x\",5]", ID_TEXT),
        "[1,2,3,4,5]".to_string(),
    ] {
        assert!(matches!(check(&payload), Err(AuthError::Claims(_))), "{}", payload);
    }
    let reason = |payload: &str| lime::auth::read_claims(payload).err().unwrap();
    let real = |payload: &str| serde_json::from_str::<Plain>(payload).err().unwrap().to_string();
    for payload in [
        "[]".to_string(),
        format!("[\"{}\",\n null ]", ID_TEXT),
        format!("[\"{}\",null,\"u\",1,2,3]", ID_TEXT),
        format!("[\"{}\",null,\"u\",1,2 , []]", ID_TEXT),
    ] {
        assert_eq!(reason(&payload), real(&payload));
    }
    assert_eq!(reason("5"), "invalid type: expected struct Claims");
    assert_eq!(reason(""), "invalid type: expected struct Claims");
    assert_eq!(reason("{\"a\""), "invalid type: expected struct Claims");
}

#[test]
fn a_payload_without_registered_claims_is_not_read() {
    let auth = AuthContext::new("secret").unwrap();
    for payload in ["5", "[]", "{\"sub\":[],\"role\":\"u\"}", "{\"aud\":\"a\",\"aud\":\"b\"}"] {
        let token = signed(payload);
        assert!(matches!(auth.verify_token(&token), Err(AuthError::Token(_))), "{}", payload);
        assert!(expected(&token).is_err());
    }
}
