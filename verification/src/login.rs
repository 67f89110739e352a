//! The login flow: check a credential against a looked-up account record
//! and issue a signed token with a public-safe snapshot of the identity.
//!
//! An unknown email and a wrong password yield one and the same rejection,
//! so the login endpoint cannot be used to enumerate registered emails.

use vstd::prelude::*;
use vstd::utf8::{decode_utf8, encode_utf8, encode_utf8_decode_utf8};

use crate::claims::ClaimsV;
use crate::errors::CustomError;
use crate::identity::{spec_role, PublicIdentity, StoredIdentity};
use crate::jwt::{generate_claims_at, generate_token_from_claims, token_spec, TOKEN_LIFETIME_SECS};
use crate::password::{bcrypt_check, verify_password};

verus! {

/// The login request body: email and plaintext secret, never persisted.
#[derive(Debug, Clone, PartialEq, Eq)]
pub struct LoginRequest {
    pub email: String,
    pub mot_de_passe: String,
}

/// A successful login: the signed token and the public-safe snapshot of
/// the identity, without its password digest.
#[derive(Debug, Clone, PartialEq, Eq)]
pub struct LoginResponse {
    pub access_token: String,
    pub user: PublicIdentity,
}

/// The claims the login flow builds for an identity at a clock reading
/// with a fresh token identifier.
pub open spec fn claims_for(u: StoredIdentity, now: u64, jti: Seq<char>) -> ClaimsV {
    ClaimsV {
        sub: decode_utf8(crate::jsontext::dec_i32_spec(u.id as int)),
        exp: (now + TOKEN_LIFETIME_SECS) as u64,
        iat: now,
        jti: jti,
        user_id: u.id,
        email: u.email@,
        role: spec_role(u.refuge, u.accueillant),
    }
}

/// How the login flow rejects a credential: an unknown email and a wrong
/// password yield the identical rejection; only a malformed stored digest
/// surfaces as an internal error. `None` means the credential is good.
pub open spec fn login_reject(lookup: Option<StoredIdentity>, password: Seq<char>) -> Option<
    CustomError,
> {
    match lookup {
        None => Some(CustomError::WrongLogin),
        Some(u) => match bcrypt_check(password, u.mot_de_passe@) {
            None => Some(CustomError::InternalError),
            Some(false) => Some(CustomError::WrongLogin),
            Some(true) => None,
        },
    }
}

/// Logs a credential in against the record the store looked up by the
/// request's email: on a good credential, a token for the identity and its
/// public-safe snapshot; otherwise exactly the rejection
/// [`login_reject`] states.
pub fn login(
    lookup: Option<StoredIdentity>,
    req: &LoginRequest,
    now: u64,
    jti: String,
    secret: &[u8],
) -> (r: Result<LoginResponse, CustomError>)
    requires
        now <= u64::MAX - TOKEN_LIFETIME_SECS,
    ensures
        match login_reject(lookup, req.mot_de_passe@) {
            Some(e) => r == Err::<LoginResponse, CustomError>(e),
            None => r matches Ok(resp) && {
                let u = lookup.unwrap();
                &&& encode_utf8(resp.access_token@) == token_spec(
                    claims_for(u, now, jti@),
                    secret@,
                )
                &&& resp.user.id == u.id
                &&& resp.user.email@ == u.email@
                &&& resp.user.refuge == u.refuge
                &&& resp.user.accueillant == u.accueillant
            },
        },
{
    let u = match lookup {
        Some(u) => u,
        None => {
            return Err(CustomError::WrongLogin);
        },
    };
    let ok = match verify_password(req.mot_de_passe.as_str(), u.mot_de_passe.as_str()) {
        Ok(b) => b,
        Err(e) => {
            return Err(e);
        },
    };
    if !ok {
        return Err(CustomError::WrongLogin);
    }
    let claims = generate_claims_at(&u, now, jti);
    proof {
        encode_utf8_decode_utf8(claims@.sub);
        assert(claims@ =~= claims_for(u, now, claims@.jti));
    }
    let access_token = match generate_token_from_claims(&claims, secret) {
        Ok(t) => t,
        Err(e) => {
            return Err(e);
        },
    };
    Ok(LoginResponse { access_token, user: u.public_snapshot() })
}

/// An unknown email and a wrong password are indistinguishable: the login
/// flow rejects both with the very same error.
pub proof fn lemma_login_uniform_rejection(
    u: StoredIdentity,
    pw_absent: Seq<char>,
    pw_wrong: Seq<char>,
)
    requires
        bcrypt_check(pw_wrong, u.mot_de_passe@) == Some(false),
    ensures
        login_reject(None, pw_absent) == login_reject(Some(u), pw_wrong),
        login_reject(Some(u), pw_wrong) == Some(CustomError::WrongLogin),
{
}

} // verus!
