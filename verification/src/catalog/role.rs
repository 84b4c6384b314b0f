//! Group roles: named sets of users that share rights, possibly inheriting other roles.

use vstd::prelude::*;
use crate::catalog::names::NameSet;

verus! {

/// A database role: a group without login, whose rights its members share.
#[derive(Clone, Debug)]
pub struct Role {
    pub name: String,
    /// Whether the role has every right.
    pub is_superuser: bool,
    /// Server-level rights.
    pub can_create_db: bool,
    pub can_create_role: bool,
    /// The users the role was granted to.
    pub members: NameSet,
    /// The roles this role inherits.
    pub member_of: NameSet,
}

impl Role {
    /// A role with no members and no parents; a superuser role may create
    /// databases and roles, any other may not.
    pub fn new(name: String, is_superuser: bool) -> (r: Self)
        ensures
            r.name@ == name@,
            r.is_superuser == is_superuser,
            r.can_create_db == is_superuser,
            r.can_create_role == is_superuser,
            r.members@ == Set::<Seq<char>>::empty(),
            r.member_of@ == Set::<Seq<char>>::empty(),
    {
        Role {
            name,
            is_superuser,
            can_create_db: is_superuser,
            can_create_role: is_superuser,
            members: NameSet::new(),
            member_of: NameSet::new(),
        }
    }

    /// Adds a member.
    pub fn add_member(&mut self, username: &str)
        ensures
            final(self).members@ == old(self).members@.insert(username@),
            final(self).member_of == old(self).member_of,
            final(self).name == old(self).name,
            final(self).is_superuser == old(self).is_superuser,
            final(self).can_create_db == old(self).can_create_db,
            final(self).can_create_role == old(self).can_create_role,
    {
        self.members.insert(username);
    }

    /// Removes a member.
    pub fn remove_member(&mut self, username: &str)
        ensures
            final(self).members@ == old(self).members@.remove(username@),
            final(self).member_of == old(self).member_of,
            final(self).name == old(self).name,
            final(self).is_superuser == old(self).is_superuser,
            final(self).can_create_db == old(self).can_create_db,
            final(self).can_create_role == old(self).can_create_role,
    {
        self.members.remove(username);
    }

    /// Whether `username` is a member.
    pub fn has_member(&self, username: &str) -> (b: bool)
        ensures
            b == self.members@.contains(username@),
    {
        self.members.contains(username)
    }

    /// Makes this role inherit `role_name`.
    pub fn add_parent_role(&mut self, role_name: &str)
        ensures
            final(self).member_of@ == old(self).member_of@.insert(role_name@),
            final(self).members == old(self).members,
            final(self).name == old(self).name,
            final(self).is_superuser == old(self).is_superuser,
            final(self).can_create_db == old(self).can_create_db,
            final(self).can_create_role == old(self).can_create_role,
    {
        self.member_of.insert(role_name);
    }

    /// Stops this role from inheriting `role_name`.
    pub fn remove_parent_role(&mut self, role_name: &str)
        ensures
            final(self).member_of@ == old(self).member_of@.remove(role_name@),
            final(self).members == old(self).members,
            final(self).name == old(self).name,
            final(self).is_superuser == old(self).is_superuser,
            final(self).can_create_db == old(self).can_create_db,
            final(self).can_create_role == old(self).can_create_role,
    {
        self.member_of.remove(role_name);
    }
}

} // verus!
