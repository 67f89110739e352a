//! The role gate interceptor: a route-attached policy that compares the
//! verified identity's role against a required role.
//!
//! The role gate runs strictly later than the authentication interceptor and
//! reads the claims which that interceptor attached. A request carrying no
//! claims at all, which means the role gate was wired up without the interceptor
//! in front, fails rather than silently passing. The comparison is a case-normalized exact match;
//! no other side effect occurs.

use vstd::prelude::*;

use crate::auth_middleware::AuthReject;
use crate::claims::{Claims, ClaimsV};

verus! {

/// The case-normalized value of one character: ASCII letters fold to
/// lowercase, everything else stands for itself.
pub open spec fn lower_val(c: char) -> u32 {
    if 65 <= c as u32 && c as u32 <= 90 {
        (c as u32 + 32) as u32
    } else {
        c as u32
    }
}

/// Whether two role strings match after case normalization of both sides.
pub open spec fn role_matches(a: Seq<char>, b: Seq<char>) -> bool {
    a.len() == b.len() && forall|i: int| 0 <= i < a.len() ==> lower_val(a[i]) == lower_val(b[i])
}

/// The decision of the role gate: forward exactly when claims are attached
/// and their role matches the required one, case-normalized.
pub open spec fn role_gate_spec(claims: Option<ClaimsV>, required: Seq<char>) -> Result<
    (),
    AuthReject,
> {
    match claims {
        None => Err(AuthReject::InsufficientPermissions),
        Some(c) => if role_matches(c.role, required) {
            Ok(())
        } else {
            Err(AuthReject::InsufficientPermissions)
        },
    }
}

/// Whether two role strings match, case-normalized.
pub fn roles_match(a: &str, b: &str) -> (r: bool)
    ensures
        r == role_matches(a@, b@),
{
    let la = a.unicode_len();
    let lb = b.unicode_len();
    if la != lb {
        return false;
    }
    let mut i: usize = 0;
    while i < la
        invariant
            i <= la,
            la == a@.len(),
            lb == b@.len(),
            la == lb,
            forall|j: int| 0 <= j < i ==> lower_val(a@[j]) == lower_val(b@[j]),
        decreases la - i,
    {
        let ca = a.get_char(i);
        let cb = b.get_char(i);
        let ua = ca as u32;
        let ub = cb as u32;
        let fa = if 65 <= ua && ua <= 90 {
            ua + 32
        } else {
            ua
        };
        let fb = if 65 <= ub && ub <= 90 {
            ub + 32
        } else {
            ub
        };
        if fa != fb {
            return false;
        }
        i = i + 1;
    }
    true
}

/// The role gate's construction-time half: the required role is fixed at
/// route registration, not at request time.
pub struct RoleGuard {
    /// The role a request's verified identity must carry.
    pub role: String,
}

/// The per-route service of the role gate.
pub struct RoleGuardMiddleware {
    /// The role a request's verified identity must carry.
    pub role: String,
}

impl RoleGuard {
    /// A gate for an arbitrary required role.
    pub fn new(role: String) -> (r: Self)
        ensures
            r.role@ == role@,
    {
        RoleGuard { role }
    }

    /// The role gate that admits fosters alone.
    pub fn foster() -> (r: Self)
        ensures
            r.role@ == "foster"@,
    {
        RoleGuard { role: "foster".to_owned() }
    }

    /// The role gate that admits shelters alone.
    pub fn shelter() -> (r: Self)
        ensures
            r.role@ == "shelter"@,
    {
        RoleGuard { role: "shelter".to_owned() }
    }

    /// Wraps one route: the service that gates its requests.
    pub fn new_transform(&self) -> (r: RoleGuardMiddleware)
        ensures
            r.role@ == self.role@,
    {
        RoleGuardMiddleware { role: self.role.clone() }
    }
}

impl RoleGuardMiddleware {
    /// Gates one request on the claims the authentication interceptor
    /// attached: forward exactly on a case-normalized role match, and
    /// reject a request that carries no claims at all.
    pub fn call(&self, claims: Option<&Claims>) -> (r: Result<(), AuthReject>)
        ensures
            ({
                let cv = match claims {
                    Some(c) => Some(c@),
                    None => None::<ClaimsV>,
                };
                r == role_gate_spec(cv, self.role@)
            }),
    {
        match claims {
            None => Err(AuthReject::InsufficientPermissions),
            Some(c) => {
                if roles_match(c.role.as_str(), self.role.as_str()) {
                    Ok(())
                } else {
                    Err(AuthReject::InsufficientPermissions)
                }
            },
        }
    }
}

} // verus!
