//! Login users and their password digests.

use vstd::prelude::*;
use vstd::string::StringSliceAdditionalSpecFns;
use vstd::utf8::encode_utf8;
use sha2::Digest;
use crate::catalog::names::NameSet;
use crate::text::{lemma_lower_hex_len, lower_hex, push_lower_hex, string_of};

verus! {

/// The SHA-256 digest of `data`.
pub uninterp spec fn sha256_digest(data: Seq<u8>) -> Seq<u8>;

/// Trusted: calls `sha2::Sha256::digest` on `data`. The result is the digest of
/// exactly these bytes, and a SHA-256 digest is 32 bytes long.
#[verifier::external_body]
fn sha256(data: &[u8]) -> (out: Vec<u8>)
    ensures
        out@ == sha256_digest(data@),
        out@.len() == 32,
{
    sha2::Sha256::digest(data).to_vec()
}

/// The stored form of a password: the lower-case hexadecimal SHA-256 digest of its UTF-8 bytes.
pub open spec fn password_digest(password: Seq<char>) -> Seq<char> {
    lower_hex(sha256_digest(encode_utf8(password)))
}

/// A database user.
#[derive(Clone, Debug)]
pub struct User {
    pub username: String,
    /// SHA-256 digest of the password, as lower-case hexadecimal.
    pub password_hash: String,
    /// Whether the user has every right.
    pub is_superuser: bool,
    /// Server-level rights.
    pub can_create_db: bool,
    pub can_create_user: bool,
    /// The roles the user holds.
    pub roles: NameSet,
}

impl User {
    /// A user with the given password and no roles; a superuser may create
    /// databases and users, any other may not.
    pub fn new(username: String, password: &str, is_superuser: bool) -> (u: Self)
        ensures
            u.username@ == username@,
            u.password_hash@ == password_digest(password@),
            u.password_hash@.len() == 64,
            u.is_superuser == is_superuser,
            u.can_create_db == is_superuser,
            u.can_create_user == is_superuser,
            u.roles@ == Set::<Seq<char>>::empty(),
    {
        User {
            username,
            password_hash: Self::hash_password(password),
            is_superuser,
            can_create_db: is_superuser,
            can_create_user: is_superuser,
            roles: NameSet::new(),
        }
    }

    /// Gives the user a role.
    pub fn add_role(&mut self, role_name: &str)
        ensures
            final(self).roles@ == old(self).roles@.insert(role_name@),
            final(self).username == old(self).username,
            final(self).password_hash == old(self).password_hash,
            final(self).is_superuser == old(self).is_superuser,
            final(self).can_create_db == old(self).can_create_db,
            final(self).can_create_user == old(self).can_create_user,
    {
        self.roles.insert(role_name);
    }

    /// Takes a role away from the user.
    pub fn remove_role(&mut self, role_name: &str)
        ensures
            final(self).roles@ == old(self).roles@.remove(role_name@),
            final(self).username == old(self).username,
            final(self).password_hash == old(self).password_hash,
            final(self).is_superuser == old(self).is_superuser,
            final(self).can_create_db == old(self).can_create_db,
            final(self).can_create_user == old(self).can_create_user,
    {
        self.roles.remove(role_name);
    }

    /// Whether the user holds `role_name`.
    pub fn has_role(&self, role_name: &str) -> (b: bool)
        ensures
            b == self.roles@.contains(role_name@),
    {
        self.roles.contains(role_name)
    }

    /// The lower-case hexadecimal SHA-256 digest of the password's UTF-8 bytes.
    pub fn hash_password(password: &str) -> (h: String)
        ensures
            h@ == password_digest(password@),
            h@.len() == 64,
    {
        let digest = sha256(password.as_bytes());
        let mut out: Vec<char> = Vec::new();
        push_lower_hex(&mut out, digest.as_slice());
        assert(out@ =~= lower_hex(digest@));
        proof { lemma_lower_hex_len(digest@); }
        string_of(&out)
    }

    /// Whether `password` is the user's password.
    pub fn verify_password(&self, password: &str) -> (ok: bool)
        ensures
            ok == (self.password_hash@ == password_digest(password@)),
    {
        let h = Self::hash_password(password);
        self.password_hash == h
    }

    /// Changes the password.
    pub fn set_password(&mut self, password: &str)
        ensures
            final(self).password_hash@ == password_digest(password@),
            final(self).password_hash@.len() == 64,
            final(self).username == old(self).username,
            final(self).roles == old(self).roles,
            final(self).is_superuser == old(self).is_superuser,
            final(self).can_create_db == old(self).can_create_db,
            final(self).can_create_user == old(self).can_create_user,
    {
        self.password_hash = Self::hash_password(password);
    }
}

} // verus!
