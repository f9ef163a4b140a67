//! The native identity backend: each role's key comes from a PKCS8 file, and signing happens in
//! process.

use vstd::prelude::*;

use crate::error::DackError;
use crate::error::Result;
use crate::identity::ed25519;
use crate::identity::Did;
use crate::identity::IdentityRole;
use crate::identity::Roles;
use crate::identity::Signature;
use crate::identity;

verus! {

/// The PKCS8 text of a secret key, or why it has none.
pub uninterp spec fn pkcs8_text(secret: Seq<u8>) -> std::result::Result<Seq<char>, Seq<char>>;

/// The secret key in a PKCS8 text, or why it holds none.
pub uninterp spec fn pkcs8_key(pem: Seq<char>) -> std::result::Result<Seq<u8>, Seq<char>>;

/// `SigningKey::to_pkcs8_pem` with line feeds, an error by its message. The text reads back as the
/// same key.
#[verifier::external_body]
fn pkcs8_encode(secret: &[u8; 32]) -> (r: std::result::Result<String, String>)
    ensures
        (match r {
            Ok(t) => pkcs8_text(secret@) matches Ok(w) && w == t@,
            Err(e) => pkcs8_text(secret@) matches Err(w) && w == e@,
        }),
        (match r {
            Ok(t) => ed25519::gives(pkcs8_key(t@), secret@),
            Err(_) => true,
        }),
{
    let key = ed25519_dalek::SigningKey::from_bytes(secret);
    ed25519_dalek::pkcs8::EncodePrivateKey::to_pkcs8_pem(&key, pkcs8::LineEnding::LF)
        .map(|pem| pem.to_string())
        .map_err(|e| e.to_string())
}

/// `SigningKey::from_pkcs8_pem`, an error by its message.
#[verifier::external_body]
fn pkcs8_decode(pem: &str) -> (r: std::result::Result<[u8; 32], String>)
    ensures
        (match r {
            Ok(k) => ed25519::gives(pkcs8_key(pem@), k@),
            Err(e) => ed25519::fails(pkcs8_key(pem@), e@),
        }),
{
    <ed25519_dalek::SigningKey as ed25519_dalek::pkcs8::DecodePrivateKey>::from_pkcs8_pem(pem)
        .map(|key| key.to_bytes())
        .map_err(|e| e.to_string())
}

/// A key file as read: where it stands and what it holds.
pub struct KeyFile {
    pub path: String,
    pub pem: String,
}

/// A secret key and its identifier.
pub struct LocalKey {
    secret: [u8; 32],
    did: Did,
}

impl LocalKey {
    #[verifier::type_invariant]
    closed spec fn matching(self) -> bool {
        &&& self.did.0@ == ed25519::did_of(ed25519::public_of(self.secret@))
        &&& ed25519::gives(ed25519::did_key(self.did.0@), ed25519::public_of(self.secret@))
        &&& ed25519::point_error(ed25519::public_of(self.secret@)) is None
    }

    /// The secret key.
    pub closed spec fn secret(self) -> Seq<u8> {
        self.secret@
    }

    /// The identifier of the key.
    pub closed spec fn did(self) -> Seq<char> {
        self.did.0@
    }
}

/// What a key file holds, or the message that refuses it.
pub open spec fn loaded(f: KeyFile) -> std::result::Result<Seq<u8>, Seq<char>> {
    match pkcs8_key(f.pem@) {
        Ok(k) => Ok(k),
        Err(e) => Err("parse "@ + f.path@ + " as PKCS8 Ed25519: "@ + e),
    }
}

fn load_key(f: &KeyFile) -> (r: Result<LocalKey>)
    ensures
        (match (r, loaded(*f)) {
            (Ok(k), Ok(secret)) => k.secret() == secret && k.did() == ed25519::did_of(
                ed25519::public_of(secret),
            ),
            (Err(DackError::Identity(m)), Err(w)) => m@ == w,
            _ => false,
        }),
{
    match pkcs8_decode(&f.pem) {
        Ok(secret) => {
            let did = ed25519::did_of_secret(&secret);
            Ok(LocalKey { secret, did })
        },
        Err(e) => {
            let mut m = "parse ".to_owned();
            m.append(&f.path);
            m.append(" as PKCS8 Ed25519: ");
            m.append(&e);
            Err(DackError::Identity(m))
        },
    }
}

/// The message that refuses the file of `role`, if it has one that cannot be read.
pub open spec fn refusal(files: Roles<KeyFile>, role: IdentityRole) -> Option<Seq<char>> {
    match files.at(role) {
        Some(f) => match loaded(f) {
            Ok(_) => None,
            Err(e) => Some(e),
        },
        None => None,
    }
}

/// The first refusal, in the order operator, soul, builder.
pub open spec fn first_refusal(files: Roles<KeyFile>) -> Option<Seq<char>> {
    if refusal(files, IdentityRole::Operator) is Some {
        refusal(files, IdentityRole::Operator)
    } else if refusal(files, IdentityRole::Soul) is Some {
        refusal(files, IdentityRole::Soul)
    } else {
        refusal(files, IdentityRole::Builder)
    }
}

/// The keys that the roles hold.
pub struct LocalIdentity {
    pub keys: Roles<LocalKey>,
}

fn load_role(file: &Option<KeyFile>) -> (r: Result<Option<LocalKey>>)
    ensures
        (match (r, *file) {
            (Ok(Some(k)), Some(f)) => loaded(f) matches Ok(secret) && k.secret() == secret && k.did()
                == ed25519::did_of(ed25519::public_of(secret)),
            (Ok(None), None) => true,
            (Err(DackError::Identity(m)), Some(f)) => loaded(f) matches Err(w) && m@ == w,
            _ => false,
        }),
{
    match file {
        Some(f) => match load_key(f) {
            Ok(k) => Ok(Some(k)),
            Err(e) => Err(e),
        },
        None => Ok(None),
    }
}

impl LocalIdentity {
    /// Loads the key of each role that has a file. Fails closed: a configured key that cannot be
    /// read is an error, never an absent key.
    pub fn resolve(files: Roles<KeyFile>) -> (r: Result<LocalIdentity>)
        ensures
            (match (r, first_refusal(files)) {
                (Ok(id), None) => forall|role: IdentityRole|
                    match (#[trigger] id.keys.at(role), files.at(role)) {
                        (Some(k), Some(f)) => loaded(f) matches Ok(secret) && k.secret() == secret
                            && k.did() == ed25519::did_of(ed25519::public_of(secret)),
                        (None, None) => true,
                        _ => false,
                    },
                (Err(DackError::Identity(m)), Some(w)) => m@ == w,
                _ => false,
            }),
    {
        let operator = match load_role(&files.operator) {
            Ok(k) => k,
            Err(e) => {
                return Err(e);
            },
        };
        let soul = match load_role(&files.soul) {
            Ok(k) => k,
            Err(e) => {
                return Err(e);
            },
        };
        let builder = match load_role(&files.builder) {
            Ok(k) => k,
            Err(e) => {
                return Err(e);
            },
        };
        Ok(LocalIdentity { keys: Roles { operator, soul, builder } })
    }

    /// The identifier of a role.
    pub fn did(&self, role: IdentityRole) -> (r: Option<&Did>)
        ensures
            (match (r, self.keys.at(role)) {
                (Some(d), Some(k)) => d.0@ == k.did(),
                (None, None) => true,
                _ => false,
            }),
    {
        match self.keys.get(role) {
            Some(k) => Some(&k.did),
            None => None,
        }
    }

    /// Signs `payload` with a role's key. What a role signs verifies against the role's identifier.
    pub fn sign(&self, role: IdentityRole, payload: &[u8]) -> (r: Result<Signature>)
        ensures
            (match (r, self.keys.at(role)) {
                (Ok(sig), Some(k)) => {
                    &&& sig.0@ == vstd::utf8::encode_utf8(
                        ed25519::base64url_text(ed25519::signed(k.secret(), payload@)),
                    )
                    &&& ed25519::gives(ed25519::decoded_signature(sig.0@), ed25519::signed(k.secret(), payload@))
                    &&& ed25519::verdict(k.did(), payload@, sig.0@) matches Ok(true)
                },
                (Err(DackError::Identity(m)), None) => m@ == "no identity key for "@ + identity::role_name(
                    role,
                ),
                _ => false,
            }),
    {
        match self.keys.get(role) {
            Some(k) => {
                proof {
                    use_type_invariant(k);
                }
                Ok(ed25519::sign_with(&k.secret, payload))
            },
            None => {
                let mut m = "no identity key for ".to_owned();
                m.append(role.name());
                Err(DackError::Identity(m))
            },
        }
    }
}

/// A new key: the text of its file and its identifier.
pub struct NewIdentity {
    pub pem: String,
    pub did: Did,
}

/// Refuses to overwrite a key file: a lost key cannot be made again.
pub fn refuse_existing(path: &str, exists: bool) -> (r: Result<()>)
    ensures
        (match r {
            Ok(()) => !exists,
            Err(DackError::Identity(m)) => exists && m@ == path@
                + " already exists — refusing to overwrite an identity key (rm it first if you really mean to)"@,
            _ => false,
        }),
{
    if exists {
        let mut m = path.to_owned();
        m.append(
            " already exists — refusing to overwrite an identity key (rm it first if you really mean to)",
        );
        return Err(DackError::Identity(m));
    }
    Ok(())
}

/// Whether an outcome is the key of a seed: its file reads back as the seed, under the identifier
/// of the seed.
pub open spec fn made_of(r: Result<NewIdentity>, seed: Seq<u8>) -> bool {
    match (r, pkcs8_text(seed)) {
        (Ok(n), Ok(t)) => {
            &&& n.pem@ == t
            &&& n.did.0@ == ed25519::did_of(ed25519::public_of(seed))
            &&& ed25519::gives(pkcs8_key(n.pem@), seed)
        },
        (Err(DackError::Identity(m)), Err(e)) => m@ == "encode PKCS8: "@ + e,
        _ => false,
    }
}

/// Makes the key of a seed. Loading its file gives the seed back, and so the same identifier.
pub fn identity_of_seed(seed: [u8; 32]) -> (r: Result<NewIdentity>)
    ensures
        made_of(r, seed@),
{
    match pkcs8_encode(&seed) {
        Ok(pem) => Ok(NewIdentity { pem, did: ed25519::did_of_secret(&seed) }),
        Err(e) => {
            let mut m = "encode PKCS8: ".to_owned();
            m.append(&e);
            Err(DackError::Identity(m))
        },
    }
}

/// `getrandom::getrandom` over 32 bytes, an error by its message. Nothing holds of every outcome.
#[verifier::external_body]
fn random_seed() -> (r: std::result::Result<[u8; 32], String>) {
    let mut seed = [0u8; 32];
    getrandom::getrandom(&mut seed).map(|_| seed).map_err(|e| e.to_string())
}

/// Makes a fresh key: that of some seed, unless the system has no randomness to give.
pub fn generate() -> (r: Result<NewIdentity>)
    ensures
        (exists|seed: Seq<u8>| seed.len() == 32 && #[trigger] made_of(r, seed)) || (r matches Err(
            DackError::Identity(m),
        ) && "csprng: "@.is_prefix_of(m@)),
{
    match random_seed() {
        Ok(seed) => {
            let r = identity_of_seed(seed);
            assert(made_of(r, seed@));
            r
        },
        Err(e) => {
            let mut m = "csprng: ".to_owned();
            m.append(&e);
            assert("csprng: "@ == m@.subrange(0, "csprng: "@.len() as int));
            Err(DackError::Identity(m))
        },
    }
}

/// A key that was made and written down is the key that is loaded, under the same identifier.
pub proof fn a_generated_key_loads_as_itself(path: String, made: NewIdentity, seed: Seq<u8>)
    requires
        made_of(Ok(made), seed),
    ensures
        ed25519::gives(loaded(KeyFile { path, pem: made.pem }), seed),
        made.did.0@ == ed25519::did_of(ed25519::public_of(seed)),
{
}

/// The first key file that cannot be read is named, the operator's before the soul's before the
/// builder's, with its path and what is wrong with it.
pub proof fn the_first_unreadable_key_is_named(files: Roles<KeyFile>, f: KeyFile, e: Seq<char>)
    requires
        ed25519::fails(pkcs8_key(f.pem@), e),
    ensures
        files.at(IdentityRole::Operator) == Some(f) ==> first_refusal(files) == Some(
            "parse "@ + f.path@ + " as PKCS8 Ed25519: "@ + e,
        ),
        files.at(IdentityRole::Operator) is None && files.at(IdentityRole::Soul) == Some(f) ==> first_refusal(files)
            == Some("parse "@ + f.path@ + " as PKCS8 Ed25519: "@ + e),
        files.at(IdentityRole::Operator) is None && files.at(IdentityRole::Soul) is None && files.at(
            IdentityRole::Builder,
        ) == Some(f) ==> first_refusal(files) == Some("parse "@ + f.path@ + " as PKCS8 Ed25519: "@ + e),
        files.at(IdentityRole::Operator) is None && files.at(IdentityRole::Soul) is None && files.at(
            IdentityRole::Builder,
        ) is None ==> first_refusal(files) is None,
{
}

} // verus!
