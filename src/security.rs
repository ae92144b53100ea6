//! Checks on what is handed to the link executor and on key material.
use vstd::prelude::*;

use crate::config::ConfigError;
use crate::text::{contains_char, starts_with};

verus! {

/// Whether `s` holds a character that a shell would interpret: `;`, a backtick or `$`.
pub open spec fn has_shell_meta(s: Seq<char>) -> bool {
    s.contains(';') || s.contains('`') || s.contains('$')
}

/// Why key material was refused.
#[derive(Clone, Copy, Debug, PartialEq, Eq, Structural)]
pub enum KeyError {
    /// The permission bits, which allow more than the owner reading (and writing).
    InsecurePermissions(u32),
    /// The content does not start as a PEM block does.
    InvalidFormat,
}

/// Checks on the identity and key material used to reach the gateway.
pub struct SecureKeyManager;

fn has_meta(s: &str) -> (r: bool)
    ensures
        r == has_shell_meta(s@),
{
    contains_char(s, ';') || contains_char(s, '`') || contains_char(s, '$')
}

impl SecureKeyManager {
    /// The host and user unchanged, unless one of them holds a shell
    /// metacharacter; the host is checked first.
    pub fn sanitize_ssh_args(host: &str, user: &str) -> (r: Result<(String, String), ConfigError>)
        ensures
            has_shell_meta(host@) <==> r matches Err(ConfigError::InvalidHost),
            !has_shell_meta(host@) && has_shell_meta(user@) <==> r matches Err(
                ConfigError::InvalidUser,
            ),
            r is Ok <==> !has_shell_meta(host@) && !has_shell_meta(user@),
            r matches Ok(p) ==> p.0@ == host@ && p.1@ == user@,
    {
        if has_meta(host) {
            return Err(ConfigError::InvalidHost);
        }
        if has_meta(user) {
            return Err(ConfigError::InvalidUser);
        }
        Ok((host.to_owned(), user.to_owned()))
    }

    /// Checks a key file from its mode bits and its content: only the owner
    /// may have access (permissions 600 or 400), and the content must begin
    /// with `-----BEGIN`.
    pub fn check_key_material(mode: u32, content: &str) -> (r: Result<(), KeyError>)
        ensures
            ({
                let perm = mode & 0o777u32;
                &&& perm != 0o600u32 && perm != 0o400u32 <==> r == Err::<(), KeyError>(
                    KeyError::InsecurePermissions(perm),
                )
                &&& (perm == 0o600u32 || perm == 0o400u32) && !(10 <= content@.len()
                    && content@.subrange(0, 10) == "-----BEGIN"@) <==> r == Err::<(), KeyError>(
                    KeyError::InvalidFormat,
                )
                &&& r is Ok <==> (perm == 0o600u32 || perm == 0o400u32) && 10 <= content@.len()
                    && content@.subrange(0, 10) == "-----BEGIN"@
            }),
    {
        let perm = mode & 0o777u32;
        if perm != 0o600u32 && perm != 0o400u32 {
            return Err(KeyError::InsecurePermissions(perm));
        }
        proof {
            reveal_strlit("-----BEGIN");
        }
        if !starts_with(content, "-----BEGIN") {
            return Err(KeyError::InvalidFormat);
        }
        Ok(())
    }
}

} // verus!
