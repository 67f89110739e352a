//! Token codec behaviour: issue/parse round trips, expiry, tampering, and
//! interoperability with the jsonwebtoken crate.

use auth_gateway::claims::{payload_decode, payload_encode, Claims};
use auth_gateway::errors::CustomError;
use auth_gateway::jwt::{generate_token_from_claims, parse_token, now_ts, TOKEN_LIFETIME_SECS};

fn sample_claims() -> Claims {
    Claims {
        sub: "42".to_string(),
        exp: 2_000_000_000,
        iat: 1_000_000_000,
        jti: "c0ffee00-0000-4000-8000-000000000000".to_string(),
        user_id: 42,
        email: "amelie@example.fr".to_string(),
        role: "FOSTER".to_string(),
    }
}

const SECRET: &[u8] = b"test_signing_secret";

#[test]
fn issued_token_parses_back_to_equal_claims() {
    let claims = sample_claims();
    let token = generate_token_from_claims(&claims, SECRET).unwrap();
    let parsed = parse_token(&token, SECRET, 1_500_000_000).unwrap();
    assert_eq!(parsed, claims);
}

#[test]
fn parsing_is_idempotent() {
    let claims = sample_claims();
    let token = generate_token_from_claims(&claims, SECRET).unwrap();
    let first = parse_token(&token, SECRET, 1_500_000_000).unwrap();
    let second = parse_token(&token, SECRET, 1_500_000_000).unwrap();
    assert_eq!(first, second);
    assert_eq!(first, claims);
}

#[test]
fn expired_token_is_rejected() {
    let claims = sample_claims();
    let token = generate_token_from_claims(&claims, SECRET).unwrap();
    assert_eq!(
        parse_token(&token, SECRET, claims.exp),
        Err(CustomError::BadClientData)
    );
    assert_eq!(
        parse_token(&token, SECRET, claims.exp + 1),
        Err(CustomError::BadClientData)
    );
    assert!(parse_token(&token, SECRET, claims.exp - 1).is_ok());
}

#[test]
fn wrong_secret_is_rejected() {
    let claims = sample_claims();
    let token = generate_token_from_claims(&claims, SECRET).unwrap();
    assert_eq!(
        parse_token(&token, b"another_secret", 1_500_000_000),
        Err(CustomError::BadClientData)
    );
}

#[test]
fn tampered_token_is_rejected() {
    let claims = sample_claims();
    let token = generate_token_from_claims(&claims, SECRET).unwrap();
    // Flip one character of the payload part.
    let mut bytes = token.clone().into_bytes();
    let first_dot = token.find('.').unwrap();
    let target = first_dot + 2;
    bytes[target] = if bytes[target] == b'A' { b'B' } else { b'A' };
    let tampered = String::from_utf8(bytes).unwrap();
    assert_eq!(
        parse_token(&tampered, SECRET, 1_500_000_000),
        Err(CustomError::BadClientData)
    );
}

#[test]
fn garbage_tokens_are_rejected() {
    for bad in [
        "",
        "abc",
        "a.b",
        "a.b.c",
        "..",
        "eyJ0eXAiOiJKV1QiLCJhbGciOiJIUzI1NiJ9..",
    ] {
        assert_eq!(
            parse_token(bad, SECRET, 1_500_000_000),
            Err(CustomError::BadClientData),
            "{bad:?} should be rejected"
        );
    }
}

#[test]
fn jsonwebtoken_accepts_our_tokens() {
    let mut claims = sample_claims();
    // A real-clock expiry, since jsonwebtoken validates against the clock.
    claims.iat = now_ts();
    claims.exp = claims.iat + 3600;
    let token = generate_token_from_claims(&claims, SECRET).unwrap();
    let decoded = jsonwebtoken::decode::<serde_json::Value>(
        &token,
        &jsonwebtoken::DecodingKey::from_secret(SECRET),
        &jsonwebtoken::Validation::default(),
    )
    .expect("jsonwebtoken should accept our token");
    assert_eq!(decoded.claims.get("sub").unwrap().as_str().unwrap(), "42");
    assert_eq!(decoded.claims.get("user_id").unwrap().as_i64().unwrap(), 42);
    assert_eq!(
        decoded.claims.get("email").unwrap().as_str().unwrap(),
        "amelie@example.fr"
    );
    assert_eq!(decoded.claims.get("role").unwrap().as_str().unwrap(), "FOSTER");
}

#[test]
fn we_accept_jsonwebtoken_tokens() {
    let iat = now_ts();
    let exp = iat + 3600;
    let mut payload = serde_json::Map::new();
    payload.insert("sub".to_string(), serde_json::Value::from("42"));
    payload.insert("exp".to_string(), serde_json::Value::from(exp));
    payload.insert("iat".to_string(), serde_json::Value::from(iat));
    payload.insert(
        "jti".to_string(),
        serde_json::Value::from("c0ffee00-0000-4000-8000-000000000000"),
    );
    payload.insert("user_id".to_string(), serde_json::Value::from(42));
    payload.insert(
        "email".to_string(),
        serde_json::Value::from("amelie@example.fr"),
    );
    payload.insert("role".to_string(), serde_json::Value::from("FOSTER"));
    let token = jsonwebtoken::encode(
        &jsonwebtoken::Header::default(),
        &serde_json::Value::Object(payload),
        &jsonwebtoken::EncodingKey::from_secret(SECRET),
    )
    .unwrap();
    let parsed = parse_token(&token, SECRET, iat + 10).expect("canonical token should parse");
    assert_eq!(parsed.sub, "42");
    assert_eq!(parsed.exp, exp);
    assert_eq!(parsed.iat, iat);
    assert_eq!(parsed.user_id, 42);
    assert_eq!(parsed.email, "amelie@example.fr");
    assert_eq!(parsed.role, "FOSTER");
}

#[test]
fn token_round_trips_with_awkward_claims() {
    let claims = Claims {
        sub: "-2147483648".to_string(),
        exp: u64::MAX,
        iat: 0,
        jti: "\"\\\u{1}".to_string(),
        user_id: -2147483648,
        email: "quoted \"name\"@example.fr".to_string(),
        role: "".to_string(),
    };
    let token = generate_token_from_claims(&claims, SECRET).unwrap();
    assert_eq!(parse_token(&token, SECRET, u64::MAX - 1).unwrap(), claims);
}

#[test]
fn payload_round_trips_with_escapes() {
    let claims = Claims {
        sub: "-7".to_string(),
        exp: 1,
        iat: 0,
        jti: "id with \"quotes\" and \\slashes\\".to_string(),
        user_id: -7,
        email: "tab\there\nnewline".to_string(),
        role: "".to_string(),
    };
    let bytes = payload_encode(&claims);
    let back = payload_decode(&bytes).expect("own payload must decode");
    assert_eq!(back, claims);
}

#[test]
fn payload_spelling_is_canonical_json() {
    let claims = sample_claims();
    let bytes = payload_encode(&claims);
    let text = String::from_utf8(bytes).unwrap();
    assert_eq!(
        text,
        "{\"sub\":\"42\",\"exp\":2000000000,\"iat\":1000000000,\
         \"jti\":\"c0ffee00-0000-4000-8000-000000000000\",\"user_id\":42,\
         \"email\":\"amelie@example.fr\",\"role\":\"FOSTER\"}"
    );
}

#[test]
fn payload_decoder_rejects_non_canonical_text() {
    for bad in [
        "",
        "{}",
        "{\"sub\":\"1\"}",
        // Reordered fields.
        "{\"exp\":1,\"sub\":\"1\",\"iat\":0,\"jti\":\"j\",\"user_id\":1,\"email\":\"e\",\"role\":\"r\"}",
        // Whitespace.
        "{\"sub\": \"1\",\"exp\":1,\"iat\":0,\"jti\":\"j\",\"user_id\":1,\"email\":\"e\",\"role\":\"r\"}",
        // Leading zero in a number.
        "{\"sub\":\"1\",\"exp\":01,\"iat\":0,\"jti\":\"j\",\"user_id\":1,\"email\":\"e\",\"role\":\"r\"}",
        // Trailing garbage.
        "{\"sub\":\"1\",\"exp\":1,\"iat\":0,\"jti\":\"j\",\"user_id\":1,\"email\":\"e\",\"role\":\"r\"}x",
    ] {
        assert!(
            payload_decode(bad.as_bytes()).is_none(),
            "{bad:?} should be rejected"
        );
    }
}
