//! A table's owner and the rights granted on it.

use vstd::prelude::*;
use crate::catalog::names::NameMap;
use crate::catalog::privilege::{Privilege, PrivilegeSet};
use crate::catalog::grants::{grant_view, grants_allow, held, owner_grants, owner_table, grant_in, allows_in};

verus! {

/// Owner and access rights of a table. The owner starts with every right.
#[derive(Clone, Debug)]
pub struct TableMetadata {
    pub table_name: String,
    pub owner: String,
    /// Rights per user or role name.
    pub privileges: NameMap<PrivilegeSet>,
}

/// The grant table after taking `p` from `who`: an entry left with no right disappears.
pub open spec fn revoked(g: Map<Seq<char>, Set<Privilege>>, who: Seq<char>, p: Privilege) -> Map<Seq<char>, Set<Privilege>> {
    if g.contains_key(who) {
        if g[who].remove(p) == Set::<Privilege>::empty() {
            g.remove(who)
        } else {
            g.insert(who, g[who].remove(p))
        }
    } else {
        g
    }
}

impl TableMetadata {
    pub open spec fn wf(&self) -> bool {
        self.privileges.wf()
    }

    /// The rights held by each user or role.
    pub open spec fn grants(&self) -> Map<Seq<char>, Set<Privilege>> {
        grant_view(self.privileges@)
    }

    /// Metadata in which the owner, and only the owner, holds every right.
    pub fn new(table_name: String, owner: String) -> (m: Self)
        ensures
            m.wf(),
            m.table_name@ == table_name@,
            m.owner@ == owner@,
            m.grants() == owner_grants(owner@),
    {
        let privileges = owner_table(&owner);
        TableMetadata { table_name, owner, privileges }
    }

    /// Grants `privilege` to the user or role `grantee`.
    pub fn grant(&mut self, grantee: &str, privilege: Privilege)
        requires
            old(self).wf(),
        ensures
            final(self).wf(),
            final(self).grants() == old(self).grants().insert(grantee@, held(old(self).grants(), grantee@).insert(privilege)),
            final(self).table_name == old(self).table_name,
            final(self).owner == old(self).owner,
    {
        grant_in(&mut self.privileges, grantee, privilege);
    }

    /// Takes `privilege` away from `grantee`; an entry left empty is removed.
    pub fn revoke(&mut self, grantee: &str, privilege: &Privilege)
        requires
            old(self).wf(),
        ensures
            final(self).wf(),
            final(self).grants() == revoked(old(self).grants(), grantee@, *privilege),
            final(self).table_name == old(self).table_name,
            final(self).owner == old(self).owner,
    {
        let mut now_empty = false;
        match self.privileges.get_mut(grantee) {
            Some(set) => {
                set.remove(privilege);
                now_empty = set.is_empty();
            },
            None => {},
        }
        let ghost mid = self.grants();
        proof {
            if old(self).grants().contains_key(grantee@) {
                assert(mid =~= old(self).grants().insert(grantee@, old(self).grants()[grantee@].remove(*privilege)));
            }
        }
        if now_empty {
            self.privileges.remove(grantee);
            proof {
                assert(self.grants() =~= old(self).grants().remove(grantee@));
            }
        }
    }

    /// Whether `grantee` holds `privilege`, directly or through `All`.
    pub fn has_privilege(&self, grantee: &str, privilege: &Privilege) -> (b: bool)
        requires
            self.wf(),
        ensures
            b == grants_allow(self.grants(), grantee@, *privilege),
    {
        allows_in(&self.privileges, grantee, privilege)
    }

    /// Whether `username` owns the table.
    pub fn is_owner(&self, username: &str) -> (b: bool)
        ensures
            b == (self.owner@ == username@),
    {
        let u = username.to_owned();
        self.owner == u
    }
}

} // verus!
