//! A request-authentication and role-authorization gateway.
//!
//! Clients authenticate once with email and password to obtain a signed,
//! time-limited token encoding identity and a coarse role; later requests
//! present that token, and a two-stage interceptor chain verifies it and
//! enforces which role may reach which protected route.

pub mod auth_middleware;
pub mod b64;
pub mod claims;
pub mod errors;
pub mod identity;
pub mod jsontext;
pub mod jwt;
pub mod login;
pub mod password;
pub mod role_middleware;

pub use auth_middleware::{authenticate, AuthMiddleware, AuthMiddlewareService, AuthReject};
pub use claims::Claims;
pub use errors::{CustomError, FormattedErrorResponse};
pub use identity::{PublicIdentity, StoredIdentity};
pub use jwt::{
    decode_jwt, extract_user_id_from_token, generate_claims, generate_claims_at, generate_uuid,
    generate_token_from_claims, now_ts, parse_token, User,
};
pub use login::{login, LoginRequest, LoginResponse};
pub use password::{hash_password, verify_password};
pub use role_middleware::{RoleGuard, RoleGuardMiddleware};
