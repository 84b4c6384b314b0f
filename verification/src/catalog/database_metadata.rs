//! A database's owner and the rights granted on it.

use vstd::prelude::*;
use crate::catalog::names::NameMap;
use crate::catalog::privilege::{Privilege, PrivilegeSet};
use crate::catalog::grants::{grant_view, grants_allow, held, owner_grants, owner_table, grant_in, allows_in};

verus! {

/// Owner and access rights of a database.
#[derive(Clone, Debug)]
pub struct DatabaseMetadata {
    pub name: String,
    pub owner: String,
    /// Rights per user: user name to the set of rights.
    pub privileges: NameMap<PrivilegeSet>,
}

impl DatabaseMetadata {
    pub open spec fn wf(&self) -> bool {
        self.privileges.wf()
    }

    /// The rights held by each user.
    pub open spec fn grants(&self) -> Map<Seq<char>, Set<Privilege>> {
        grant_view(self.privileges@)
    }

    /// Metadata in which the owner, and only the owner, holds every right.
    pub fn new(name: String, owner: String) -> (m: Self)
        ensures
            m.wf(),
            m.name@ == name@,
            m.owner@ == owner@,
            m.grants() == owner_grants(owner@),
    {
        let privileges = owner_table(&owner);
        DatabaseMetadata { name, owner, privileges }
    }

    /// Grants `privilege` to `username`.
    pub fn grant(&mut self, username: &str, privilege: Privilege)
        requires
            old(self).wf(),
        ensures
            final(self).wf(),
            final(self).grants() == old(self).grants().insert(username@, held(old(self).grants(), username@).insert(privilege)),
            final(self).name == old(self).name,
            final(self).owner == old(self).owner,
    {
        grant_in(&mut self.privileges, username, privilege);
    }

    /// Takes `privilege` away from `username`, when the user holds rights at all.
    pub fn revoke(&mut self, username: &str, privilege: &Privilege)
        requires
            old(self).wf(),
        ensures
            final(self).wf(),
            final(self).grants() == if old(self).grants().contains_key(username@) {
                old(self).grants().insert(username@, old(self).grants()[username@].remove(*privilege))
            } else {
                old(self).grants()
            },
            final(self).name == old(self).name,
            final(self).owner == old(self).owner,
    {
        match self.privileges.get_mut(username) {
            Some(set) => {
                set.remove(privilege);
            },
            None => {},
        }
        proof {
            if old(self).grants().contains_key(username@) {
                assert(self.grants() =~= old(self).grants().insert(username@, old(self).grants()[username@].remove(*privilege)));
            }
        }
    }

    /// Whether `username` holds `privilege`, directly or through `All`.
    pub fn has_privilege(&self, username: &str, privilege: &Privilege) -> (b: bool)
        requires
            self.wf(),
        ensures
            b == grants_allow(self.grants(), username@, *privilege),
    {
        allows_in(&self.privileges, username, privilege)
    }
}

} // verus!
