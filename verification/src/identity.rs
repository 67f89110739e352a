//! The account record as the gateway reads it, and the role rule.
//!
//! The gateway does not own the account store; it only reads a looked-up
//! record: id, email, password digest, and the zero-or-one role-defining
//! associations. The role is derived by one deterministic rule: a shelter
//! association wins over a foster one, and neither gives the empty role.

use vstd::prelude::*;

verus! {

/// A looked-up account record, as handed to the gateway by the store.
#[derive(Debug, Clone, PartialEq, Eq)]
pub struct StoredIdentity {
    /// Opaque account id.
    pub id: i32,
    /// Login email, unique in the store.
    pub email: String,
    /// The bcrypt digest of the account's password.
    pub mot_de_passe: String,
    /// The shelter association's id, when the account operates a shelter.
    pub refuge: Option<i32>,
    /// The foster family's id, when the account is a foster.
    pub accueillant: Option<i32>,
}

/// The public-safe snapshot of an identity: everything but the digest.
#[derive(Debug, Clone, PartialEq, Eq)]
pub struct PublicIdentity {
    pub id: i32,
    pub email: String,
    pub refuge: Option<i32>,
    pub accueillant: Option<i32>,
}

/// The role carried in a token: a shelter association wins over a foster
/// one; neither present means the empty role.
pub open spec fn spec_role(refuge: Option<i32>, accueillant: Option<i32>) -> Seq<char> {
    if refuge is Some {
        "SHELTER"@
    } else if accueillant is Some {
        "FOSTER"@
    } else {
        ""@
    }
}

impl StoredIdentity {
    /// The role string this identity's associations yield.
    pub fn role(&self) -> (r: String)
        ensures
            r@ == spec_role(self.refuge, self.accueillant),
    {
        if self.refuge.is_some() {
            "SHELTER".to_owned()
        } else if self.accueillant.is_some() {
            "FOSTER".to_owned()
        } else {
            "".to_owned()
        }
    }

    /// The public-safe snapshot: the record without its password digest.
    pub fn public_snapshot(&self) -> (r: PublicIdentity)
        ensures
            r.id == self.id,
            r.email@ == self.email@,
            r.refuge == self.refuge,
            r.accueillant == self.accueillant,
    {
        PublicIdentity {
            id: self.id,
            email: self.email.clone(),
            refuge: self.refuge,
            accueillant: self.accueillant,
        }
    }
}

} // verus!
