//! Identities: decentralised identifiers, signatures, and the roles that hold keys.

use vstd::prelude::*;

pub mod ed25519;
pub mod gitlawb;
pub mod local;

verus! {

/// A decentralised identifier.
#[derive(Debug, PartialEq, Eq)]
pub struct Did(pub String);

impl Clone for Did {
    fn clone(&self) -> (r: Self)
        ensures
            r == *self,
    {
        Did(self.0.clone())
    }
}

/// A signature, as the ASCII bytes of its base64 text.
#[derive(Debug)]
pub struct Signature(pub Vec<u8>);

/// Who a key belongs to.
#[derive(Clone, Copy, Debug, PartialEq, Eq, Structural)]
pub enum IdentityRole {
    Operator,
    Soul,
    Builder,
}

/// The name of a role.
pub open spec fn role_name(role: IdentityRole) -> Seq<char> {
    match role {
        IdentityRole::Operator => "Operator"@,
        IdentityRole::Soul => "Soul"@,
        IdentityRole::Builder => "Builder"@,
    }
}

impl IdentityRole {
    /// The name of the role.
    pub fn name(&self) -> (r: &'static str)
        ensures
            r@ == role_name(*self),
    {
        match self {
            IdentityRole::Operator => "Operator",
            IdentityRole::Soul => "Soul",
            IdentityRole::Builder => "Builder",
        }
    }
}

/// What each role has, if it has anything.
pub struct Roles<T> {
    pub operator: Option<T>,
    pub soul: Option<T>,
    pub builder: Option<T>,
}

impl<T> Roles<T> {
    /// What `role` has.
    pub open spec fn at(&self, role: IdentityRole) -> Option<T> {
        match role {
            IdentityRole::Operator => self.operator,
            IdentityRole::Soul => self.soul,
            IdentityRole::Builder => self.builder,
        }
    }

    /// What `role` has.
    pub fn get(&self, role: IdentityRole) -> (r: Option<&T>)
        ensures
            (match r {
                Some(x) => self.at(role) == Some(*x),
                None => self.at(role) is None,
            }),
    {
        match role {
            IdentityRole::Operator => self.operator.as_ref(),
            IdentityRole::Soul => self.soul.as_ref(),
            IdentityRole::Builder => self.builder.as_ref(),
        }
    }
}

/// Each role has its name.
pub proof fn each_role_has_its_name()
    ensures
        role_name(IdentityRole::Operator) == "Operator"@,
        role_name(IdentityRole::Soul) == "Soul"@,
        role_name(IdentityRole::Builder) == "Builder"@,
{
}

} // verus!
