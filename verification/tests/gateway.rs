//! Gateway behaviour: password hashing, interceptors, role gate and the
//! login flow, end to end.

use auth_gateway::auth_middleware::{authenticate, AuthMiddleware, AuthReject};
use auth_gateway::errors::CustomError;
use auth_gateway::identity::StoredIdentity;
use auth_gateway::jwt::{
    decode_jwt, extract_user_id_from_token, generate_claims, generate_claims_at,
    generate_token_from_claims, generate_uuid, now_ts,
};
use auth_gateway::login::{login, LoginRequest};
use auth_gateway::password::{hash_password, verify_password};
use auth_gateway::role_middleware::RoleGuard;

const SECRET: &[u8] = b"test_signing_secret";

fn foster_identity(hash: String) -> StoredIdentity {
    StoredIdentity {
        id: 42,
        email: "amelie@example.fr".to_string(),
        mot_de_passe: hash,
        refuge: None,
        accueillant: Some(7),
    }
}

#[test]
fn verify_accepts_the_hashed_secret_and_rejects_others() {
    let h = hash_password("grenouille-8").unwrap();
    assert_eq!(verify_password("grenouille-8", &h), Ok(true));
    assert_eq!(verify_password("grenouille-9", &h), Ok(false));
    assert_eq!(verify_password("", &h), Ok(false));
}

#[test]
fn verify_interoperates_with_bcrypt() {
    let h = bcrypt::hash("hunter2-hunter2", 8).unwrap();
    assert_eq!(verify_password("hunter2-hunter2", &h), Ok(true));
    let ours = hash_password("hunter2-hunter2").unwrap();
    assert_eq!(bcrypt::verify("hunter2-hunter2", &ours).unwrap(), true);
}

#[test]
fn malformed_digest_is_an_internal_error_not_a_wrong_password() {
    assert_eq!(
        verify_password("anything", "not-a-bcrypt-digest"),
        Err(CustomError::InternalError)
    );
}

#[test]
fn missing_header_is_rejected_with_its_exact_message() {
    let r = authenticate(None, SECRET, 0);
    assert_eq!(r, Err(AuthReject::MissingHeader));
    let e = r.unwrap_err();
    assert_eq!(e.message(), "Authorization header not found");
    assert_eq!(e.status_code(), 401);
}

#[test]
fn wrong_scheme_is_rejected_with_its_exact_message() {
    let r = authenticate(Some("Token abc"), SECRET, 0);
    assert_eq!(r, Err(AuthReject::BadScheme));
    let e = r.unwrap_err();
    assert_eq!(e.message(), "Invalid authorization header format");
    assert_eq!(e.status_code(), 401);
}

#[test]
fn bare_scheme_word_is_a_bad_scheme() {
    assert_eq!(
        authenticate(Some("Bearer"), SECRET, 0),
        Err(AuthReject::BadScheme)
    );
    assert_eq!(authenticate(Some(""), SECRET, 0), Err(AuthReject::BadScheme));
}

#[test]
fn unparsable_bearer_token_is_rejected_with_its_exact_message() {
    let r = authenticate(Some("Bearer not.a.token"), SECRET, 0);
    assert_eq!(r, Err(AuthReject::BadToken));
    assert_eq!(
        r.unwrap_err().message(),
        "Invalid token format. Please log in again."
    );
}

#[test]
fn valid_bearer_token_attaches_the_claims() {
    let user = foster_identity("unused".to_string());
    let claims = generate_claims_at(&user, 1_000_000, "jti-1".to_string());
    let token = generate_token_from_claims(&claims, SECRET).unwrap();
    let header = format!("Bearer {token}");
    let attached = authenticate(Some(&header), SECRET, 1_000_030).unwrap();
    assert_eq!(attached, claims);
    // Whitespace around the token is tolerated, as is a repeated scheme word.
    let padded = format!("Bearer   {token}  ");
    assert_eq!(authenticate(Some(&padded), SECRET, 1_000_030).unwrap(), claims);
}

#[test]
fn middleware_service_carries_the_secret() {
    let mw = AuthMiddleware::new(SECRET.to_vec());
    let svc = mw.new_transform();
    let user = foster_identity("unused".to_string());
    let claims = generate_claims_at(&user, 1_000_000, "jti-2".to_string());
    let token = generate_token_from_claims(&claims, SECRET).unwrap();
    let header = format!("Bearer {token}");
    assert_eq!(svc.call_at(Some(&header), 1_000_030).unwrap(), claims);
    assert_eq!(
        svc.call_at(Some(&header), claims.exp),
        Err(AuthReject::BadToken)
    );
}

#[test]
fn foster_token_passes_foster_gate_and_fails_shelter_gate() {
    let user = foster_identity("unused".to_string());
    let claims = generate_claims_at(&user, 1_000_000, "jti-3".to_string());
    assert_eq!(claims.role, "FOSTER");
    let token = generate_token_from_claims(&claims, SECRET).unwrap();
    let header = format!("Bearer {token}");
    let attached = authenticate(Some(&header), SECRET, 1_000_030).unwrap();

    let shelter_gate = RoleGuard::shelter().new_transform();
    let r = shelter_gate.call(Some(&attached));
    assert_eq!(r, Err(AuthReject::InsufficientPermissions));
    assert_eq!(r.unwrap_err().message(), "Insufficient permissions.");

    let foster_gate = RoleGuard::foster().new_transform();
    assert_eq!(foster_gate.call(Some(&attached)), Ok(()));

    // The downstream handler observes the user id matching the subject.
    assert_eq!(attached.user_id.to_string(), attached.sub);
    assert_eq!(
        extract_user_id_from_token(&token, SECRET, 1_000_030),
        Some(42)
    );
}

#[test]
fn role_gate_without_attached_claims_fails_the_request() {
    let gate = RoleGuard::new("shelter".to_string()).new_transform();
    assert_eq!(gate.call(None), Err(AuthReject::InsufficientPermissions));
}

#[test]
fn role_match_is_case_normalized() {
    let user = StoredIdentity {
        refuge: Some(3),
        ..foster_identity("unused".to_string())
    };
    let claims = generate_claims_at(&user, 1_000_000, "jti-4".to_string());
    assert_eq!(claims.role, "SHELTER");
    let gate = RoleGuard::shelter().new_transform();
    assert_eq!(gate.call(Some(&claims)), Ok(()));
}

#[test]
fn shelter_wins_when_both_associations_are_present() {
    let user = StoredIdentity {
        refuge: Some(3),
        accueillant: Some(7),
        ..foster_identity("unused".to_string())
    };
    let claims = generate_claims_at(&user, 1_000_000, "jti-5".to_string());
    assert_eq!(claims.role, "SHELTER");
}

#[test]
fn no_association_yields_the_empty_role() {
    let user = StoredIdentity {
        refuge: None,
        accueillant: None,
        ..foster_identity("unused".to_string())
    };
    let claims = generate_claims_at(&user, 1_000_000, "jti-6".to_string());
    assert_eq!(claims.role, "");
    let gate = RoleGuard::foster().new_transform();
    assert_eq!(gate.call(Some(&claims)), Err(AuthReject::InsufficientPermissions));
}

#[test]
fn unknown_email_and_wrong_password_reject_identically() {
    let h = hash_password("bon-mot-de-passe").unwrap();
    let user = foster_identity(h);
    let good = LoginRequest {
        email: "inconnue@example.fr".to_string(),
        mot_de_passe: "bon-mot-de-passe".to_string(),
    };
    let bad = LoginRequest {
        email: "amelie@example.fr".to_string(),
        mot_de_passe: "mauvais-mot-de-passe".to_string(),
    };
    let r_unknown = login(None, &good, 1_000_000, "jti-7".to_string(), SECRET);
    let r_wrong = login(Some(user), &bad, 1_000_000, "jti-8".to_string(), SECRET);
    assert_eq!(r_unknown, Err(CustomError::WrongLogin));
    assert_eq!(r_wrong, Err(CustomError::WrongLogin));
    let e1 = r_unknown.unwrap_err();
    let e2 = r_wrong.unwrap_err();
    assert_eq!(e1.status_code(), e2.status_code());
    assert_eq!(e1.message(), e2.message());
    assert_eq!(e1.error_response(), e2.error_response());
}

#[test]
fn successful_login_issues_a_working_token_and_a_safe_snapshot() {
    let h = hash_password("bon-mot-de-passe").unwrap();
    let user = foster_identity(h);
    let req = LoginRequest {
        email: "amelie@example.fr".to_string(),
        mot_de_passe: "bon-mot-de-passe".to_string(),
    };
    let resp = login(Some(user), &req, 1_000_000, "jti-9".to_string(), SECRET).unwrap();
    assert_eq!(resp.user.id, 42);
    assert_eq!(resp.user.email, "amelie@example.fr");
    assert_eq!(resp.user.accueillant, Some(7));
    let header = format!("Bearer {}", resp.access_token);
    let attached = authenticate(Some(&header), SECRET, 1_000_030).unwrap();
    assert_eq!(attached.user_id, 42);
    assert_eq!(attached.email, "amelie@example.fr");
    assert_eq!(attached.role, "FOSTER");
    assert_eq!(attached.iat, 1_000_000);
    assert_eq!(attached.exp, 1_000_060);
    assert_eq!(attached.jti, "jti-9");
}

#[test]
fn decode_jwt_returns_the_email_snapshot() {
    let user = foster_identity("unused".to_string());
    let claims = generate_claims_at(&user, 1_000_000, "jti-10".to_string());
    let token = generate_token_from_claims(&claims, SECRET).unwrap();
    let u = decode_jwt(&token, SECRET, 1_000_030).unwrap();
    assert_eq!(u.email, "amelie@example.fr");
    let err = decode_jwt("broken", SECRET, 1_000_030).unwrap_err();
    assert_eq!(
        err,
        "Les informations saisies n'ont pas l'air correctes. Merci de réessayer."
    );
}

#[test]
fn generated_claims_expire_one_lifetime_after_issuance() {
    let user = foster_identity("unused".to_string());
    let claims = generate_claims(&user);
    assert_eq!(claims.exp, claims.iat + 60);
    assert!(claims.iat <= now_ts());
    assert_eq!(claims.user_id, 42);
    assert_eq!(claims.sub, "42");
}

#[test]
fn generated_uuids_are_fresh_hyphenated_v4_identifiers() {
    let a = generate_uuid();
    let b = generate_uuid();
    assert_ne!(a, b);
    for s in [&a, &b] {
        let bytes = s.as_bytes();
        assert_eq!(bytes.len(), 36);
        for (i, &c) in bytes.iter().enumerate() {
            if i == 8 || i == 13 || i == 18 || i == 23 {
                assert_eq!(c, b'-');
            } else {
                assert!(c.is_ascii_digit() || (b'a'..=b'f').contains(&c), "{s}");
            }
        }
        assert_eq!(bytes[14], b'4');
        assert!(matches!(bytes[19], b'8' | b'9' | b'a' | b'b'), "{s}");
    }
}
