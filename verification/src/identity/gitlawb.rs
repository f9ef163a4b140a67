//! The identity backend over an external signer: each role is a directory that the signer knows.

use vstd::prelude::*;

use crate::error::DackError;
use crate::error::Result;
use crate::identity::Did;
use crate::identity::IdentityRole;
use crate::identity::Roles;
use crate::identity;
use crate::text;

verus! {

/// The signer's program, the directory of each role, and the identifier of each role.
pub struct GitlawbIdentity {
    pub gl_bin: String,
    pub dirs: Roles<String>,
    pub dids: Roles<Did>,
}

/// The message for a role without a directory.
pub open spec fn no_dir(role: IdentityRole) -> Seq<char> {
    "no identity dir for "@ + identity::role_name(role)
}

/// What a command of the signer gave: its output, trimmed, or an error with what it complained of.
pub fn gl_answer(what: &str, success: bool, stdout: &str, stderr: &str) -> (r: Result<String>)
    ensures
        (match r {
            Ok(t) => success && t@ == text::trimmed(stdout@),
            Err(DackError::Identity(m)) => !success && m@ == "gl identity "@ + what@ + ": "@ + text::trimmed(stderr@),
            _ => false,
        }),
{
    if success {
        return Ok(text::trim(stdout));
    }
    let mut m = "gl identity ".to_owned();
    m.append(what);
    m.append(": ");
    let why = text::trim(stderr);
    m.append(&why);
    Err(DackError::Identity(m))
}

/// The arguments with which the signer shows the identifier of a directory.
pub fn show_args(dir: &str) -> (r: Vec<String>)
    ensures
        text::views(r@) == seq!["identity"@, "show"@, "--dir"@, dir@],
{
    let mut args: Vec<String> = Vec::new();
    args.push("identity".to_owned());
    args.push("show".to_owned());
    args.push("--dir".to_owned());
    args.push(dir.to_owned());
    assert(text::views(args@) == seq!["identity"@, "show"@, "--dir"@, dir@]);
    args
}

impl GitlawbIdentity {
    /// The directory of a role.
    pub fn dir(&self, role: IdentityRole) -> (r: Result<&String>)
        ensures
            (match (r, self.dirs.at(role)) {
                (Ok(d), Some(x)) => *d == x,
                (Err(DackError::Identity(m)), None) => m@ == no_dir(role),
                _ => false,
            }),
    {
        match self.dirs.get(role) {
            Some(d) => Ok(d),
            None => {
                let mut m = "no identity dir for ".to_owned();
                m.append(role.name());
                Err(DackError::Identity(m))
            },
        }
    }

    /// The identifier of a role.
    pub fn did(&self, role: IdentityRole) -> (r: Option<&Did>)
        ensures
            (match r {
                Some(x) => self.dids.at(role) == Some(*x),
                None => self.dids.at(role) is None,
            }),
    {
        self.dids.get(role)
    }

    /// The arguments with which the signer signs `payload` for a role. Only text can be signed.
    pub fn sign_args(&self, role: IdentityRole, payload: &[u8]) -> (r: Result<Vec<String>>)
        ensures
            (match (r, self.dirs.at(role)) {
                (Ok(args), Some(d)) => vstd::utf8::valid_utf8(payload@) && text::views(args@) == seq![
                    "identity"@,
                    "sign"@,
                    "--dir"@,
                    d@,
                    vstd::utf8::decode_utf8(payload@),
                ],
                (Err(DackError::Identity(m)), None) => m@ == no_dir(role),
                (Err(DackError::Identity(m)), Some(_)) => !vstd::utf8::valid_utf8(payload@) && m@
                    == "sign payload not UTF-8 (v1 limitation)"@,
                _ => false,
            }),
    {
        let dir = match self.dir(role) {
            Ok(d) => d,
            Err(e) => {
                return Err(e);
            },
        };
        match text::utf8_text(payload) {
            Some(message) => {
                proof {
                    vstd::utf8::encode_utf8_decode_utf8(message@);
                    vstd::utf8::encode_utf8_valid_utf8(message@);
                }
                let mut args: Vec<String> = Vec::new();
                args.push("identity".to_owned());
                args.push("sign".to_owned());
                args.push("--dir".to_owned());
                args.push(dir.clone());
                args.push(message.to_owned());
                assert(text::views(args@) == seq![
                    "identity"@,
                    "sign"@,
                    "--dir"@,
                    dir@,
                    message@,
                ]);
                Ok(args)
            },
            None => Err(DackError::Identity("sign payload not UTF-8 (v1 limitation)".to_owned())),
        }
    }
}

/// A role without a directory is named in the refusal.
pub proof fn a_role_without_a_directory_is_named()
    ensures
        no_dir(IdentityRole::Operator) == "no identity dir for Operator"@,
        no_dir(IdentityRole::Soul) == "no identity dir for Soul"@,
        no_dir(IdentityRole::Builder) == "no identity dir for Builder"@,
{
    reveal_strlit("no identity dir for ");
    reveal_strlit("Operator");
    reveal_strlit("Soul");
    reveal_strlit("Builder");
    reveal_strlit("no identity dir for Operator");
    reveal_strlit("no identity dir for Soul");
    reveal_strlit("no identity dir for Builder");
}

} // verus!
