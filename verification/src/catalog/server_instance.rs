//! The server: its databases, users and roles, and the access checks over them.

use vstd::prelude::*;
use crate::catalog::database::Database;
use crate::catalog::database_metadata::DatabaseMetadata;
use crate::catalog::error::DatabaseError;
use crate::catalog::grants::grants_allow;
use crate::catalog::names::NameMap;
use crate::catalog::names::NameSet;
use crate::catalog::privilege::Privilege;
use crate::catalog::role::Role;
use crate::catalog::roles_graph::{
    inherits, lemma_closed_holds_closure, lemma_inherits_self, lemma_inherits_step, parents, role_closure,
};
use crate::catalog::user::User;

verus! {

/// The whole server: every database and its metadata, every user and role.
#[derive(Clone, Debug)]
pub struct ServerInstance {
    pub databases: NameMap<Database>,
    pub database_metadata: NameMap<DatabaseMetadata>,
    pub users: NameMap<User>,
    pub roles: NameMap<Role>,
}

/// Whether `r` is a defined superuser role.
pub open spec fn role_is_super(roles: Map<Seq<char>, Role>, r: Seq<char>) -> bool {
    roles.contains_key(r) && roles[r].is_superuser
}

/// The step `collect` takes the decreasing measure through.
proof fn lemma_measure_drops(dom: Set<Seq<char>>, c: Set<Seq<char>>, c2: Set<Seq<char>>, r: Seq<char>)
    requires
        dom.finite(),
        dom.contains(r),
        !c.contains(r),
        c.subset_of(c2),
        c2.contains(r),
    ensures
        dom.difference(c2).len() < dom.difference(c).len(),
{
    let d = dom.difference(c);
    let d2 = dom.difference(c2);
    vstd::set_lib::lemma_len_subset(d, dom);
    assert(d2.subset_of(d.remove(r)));
    vstd::set_lib::lemma_len_subset(d2, d.remove(r));
}

impl ServerInstance {
    pub open spec fn wf(&self) -> bool {
        &&& self.databases.wf()
        &&& self.database_metadata.wf()
        &&& self.users.wf()
        &&& self.roles.wf()
        &&& forall|k: Seq<char>| #[trigger] self.databases@.contains_key(k) ==> self.databases@[k].wf()
        &&& forall|k: Seq<char>| #[trigger] self.database_metadata@.contains_key(k) ==> self.database_metadata@[k].wf()
    }

    /// Whether `u` is a defined superuser.
    pub open spec fn user_is_super(&self, u: Seq<char>) -> bool {
        self.users@.contains_key(u) && self.users@[u].is_superuser
    }

    /// Every role user `u` holds, directly or by inheritance; none for an unknown user.
    pub open spec fn user_roles(&self, u: Seq<char>) -> Set<Seq<char>> {
        if self.users@.contains_key(u) {
            role_closure(self.roles@, self.users@[u].roles@)
        } else {
            Set::empty()
        }
    }

    /// Whether `u` is a superuser, or holds (by inheritance too) a superuser role.
    pub open spec fn acts_as_super(&self, u: Seq<char>) -> bool {
        self.user_is_super(u) || exists|r: Seq<char>| #[trigger] self.user_roles(u).contains(r) && role_is_super(self.roles@, r)
    }

    /// An empty server.
    pub fn new() -> (s: Self)
        ensures
            s.wf(),
            s.databases@ == Map::<Seq<char>, Database>::empty(),
            s.database_metadata@ == Map::<Seq<char>, DatabaseMetadata>::empty(),
            s.users@ == Map::<Seq<char>, User>::empty(),
            s.roles@ == Map::<Seq<char>, Role>::empty(),
    {
        ServerInstance {
            databases: NameMap::new(),
            database_metadata: NameMap::new(),
            users: NameMap::new(),
            roles: NameMap::new(),
        }
    }

    /// A server with one superuser, who owns one empty database.
    pub fn initialize(superuser_name: &str, superuser_password: &str, initial_db_name: &str) -> (s: Self)
        ensures
            s.wf(),
            s.users@.dom() == Set::<Seq<char>>::empty().insert(superuser_name@),
            s.users@[superuser_name@].is_superuser,
            s.users@[superuser_name@].username@ == superuser_name@,
            s.users@[superuser_name@].password_hash@ == crate::catalog::user::password_digest(superuser_password@),
            s.users@[superuser_name@].roles@ == Set::<Seq<char>>::empty(),
            s.databases@.dom() == Set::<Seq<char>>::empty().insert(initial_db_name@),
            s.databases@[initial_db_name@].name@ == initial_db_name@,
            s.databases@[initial_db_name@].tables@ == Map::<Seq<char>, crate::catalog::table::Table>::empty(),
            s.database_metadata@.dom() == Set::<Seq<char>>::empty().insert(initial_db_name@),
            s.database_metadata@[initial_db_name@].owner@ == superuser_name@,
            s.database_metadata@[initial_db_name@].grants() == crate::catalog::grants::owner_grants(superuser_name@),
            s.roles@ == Map::<Seq<char>, Role>::empty(),
    {
        let mut instance = Self::new();
        let superuser = User::new(superuser_name.to_owned(), superuser_password, true);
        instance.users.insert(superuser_name.to_owned(), superuser);
        let db = Database::new(initial_db_name.to_owned());
        let meta = DatabaseMetadata::new(initial_db_name.to_owned(), superuser_name.to_owned());
        instance.databases.insert(initial_db_name.to_owned(), db);
        instance.database_metadata.insert(initial_db_name.to_owned(), meta);
        assert(instance.users@.dom() =~= Set::<Seq<char>>::empty().insert(superuser_name@));
        assert(instance.databases@.dom() =~= Set::<Seq<char>>::empty().insert(initial_db_name@));
        assert(instance.database_metadata@.dom() =~= Set::<Seq<char>>::empty().insert(initial_db_name@));
        instance
    }

    /// Adds a user; a name already taken is refused.
    pub fn create_user(&mut self, username: &str, password: &str, is_superuser: bool) -> (r: Result<(), DatabaseError>)
        requires
            old(self).wf(),
        ensures
            final(self).wf(),
            old(self).users@.contains_key(username@) ==> *final(self) == *old(self)
                && (r matches Err(DatabaseError::UserAlreadyExists(n)) && n@ == username@),
            !old(self).users@.contains_key(username@) ==> {
                &&& r is Ok
                &&& final(self).users@.dom() == old(self).users@.dom().insert(username@)
                &&& forall|k: Seq<char>| k != username@ ==> #[trigger] final(self).users@.contains_key(k) ==> final(self).users@[k] == old(self).users@[k]
                &&& final(self).users@[username@].username@ == username@
                &&& final(self).users@[username@].password_hash@ == crate::catalog::user::password_digest(password@)
                &&& final(self).users@[username@].is_superuser == is_superuser
                &&& final(self).users@[username@].roles@ == Set::<Seq<char>>::empty()
                &&& final(self).databases == old(self).databases
                &&& final(self).database_metadata == old(self).database_metadata
                &&& final(self).roles == old(self).roles
            },
    {
        if self.users.contains_key(username) {
            return Err(DatabaseError::UserAlreadyExists(username.to_owned()));
        }
        let user = User::new(username.to_owned(), password, is_superuser);
        self.users.insert(username.to_owned(), user);
        Ok(())
    }

    /// Removes a user; an unknown name is refused.
    pub fn drop_user(&mut self, username: &str) -> (r: Result<(), DatabaseError>)
        requires
            old(self).wf(),
        ensures
            final(self).wf(),
            !old(self).users@.contains_key(username@) ==> *final(self) == *old(self)
                && (r matches Err(DatabaseError::UserNotFound(n)) && n@ == username@),
            old(self).users@.contains_key(username@) ==> r is Ok
                && final(self).users@ == old(self).users@.remove(username@)
                && final(self).databases == old(self).databases
                && final(self).database_metadata == old(self).database_metadata
                && final(self).roles == old(self).roles,
    {
        if !self.users.contains_key(username) {
            return Err(DatabaseError::UserNotFound(username.to_owned()));
        }
        self.users.remove(username);
        Ok(())
    }

    /// Adds an empty database owned by an existing user; a taken name or an
    /// unknown owner is refused, in that order.
    pub fn create_database(&mut self, db_name: &str, owner: &str) -> (r: Result<(), DatabaseError>)
        requires
            old(self).wf(),
        ensures
            final(self).wf(),
            old(self).databases@.contains_key(db_name@) ==> *final(self) == *old(self)
                && (r matches Err(DatabaseError::DatabaseAlreadyExists(n)) && n@ == db_name@),
            !old(self).databases@.contains_key(db_name@) && !old(self).users@.contains_key(owner@) ==> *final(self) == *old(self)
                && (r matches Err(DatabaseError::UserNotFound(n)) && n@ == owner@),
            !old(self).databases@.contains_key(db_name@) && old(self).users@.contains_key(owner@) ==> {
                &&& r is Ok
                &&& final(self).databases@.dom() == old(self).databases@.dom().insert(db_name@)
                &&& final(self).database_metadata@.dom() == old(self).database_metadata@.dom().insert(db_name@)
                &&& final(self).databases@[db_name@].name@ == db_name@
                &&& final(self).databases@[db_name@].tables@ == Map::<Seq<char>, crate::catalog::table::Table>::empty()
                &&& final(self).database_metadata@[db_name@].owner@ == owner@
                &&& final(self).database_metadata@[db_name@].grants() == crate::catalog::grants::owner_grants(owner@)
                &&& forall|k: Seq<char>| k != db_name@ ==> #[trigger] final(self).databases@.contains_key(k) ==> final(self).databases@[k] == old(self).databases@[k]
                &&& forall|k: Seq<char>| k != db_name@ ==> #[trigger] final(self).database_metadata@.contains_key(k) ==> final(self).database_metadata@[k] == old(self).database_metadata@[k]
                &&& final(self).users == old(self).users
                &&& final(self).roles == old(self).roles
            },
    {
        if self.databases.contains_key(db_name) {
            return Err(DatabaseError::DatabaseAlreadyExists(db_name.to_owned()));
        }
        if !self.users.contains_key(owner) {
            return Err(DatabaseError::UserNotFound(owner.to_owned()));
        }
        let db = Database::new(db_name.to_owned());
        let meta = DatabaseMetadata::new(db_name.to_owned(), owner.to_owned());
        self.databases.insert(db_name.to_owned(), db);
        self.database_metadata.insert(db_name.to_owned(), meta);
        Ok(())
    }

    /// Removes a database and its metadata; an unknown name is refused.
    pub fn drop_database(&mut self, db_name: &str) -> (r: Result<(), DatabaseError>)
        requires
            old(self).wf(),
        ensures
            final(self).wf(),
            !old(self).databases@.contains_key(db_name@) ==> *final(self) == *old(self)
                && (r matches Err(DatabaseError::DatabaseNotFound(n)) && n@ == db_name@),
            old(self).databases@.contains_key(db_name@) ==> r is Ok
                && final(self).databases@ == old(self).databases@.remove(db_name@)
                && final(self).database_metadata@ == old(self).database_metadata@.remove(db_name@)
                && final(self).users == old(self).users
                && final(self).roles == old(self).roles,
    {
        if !self.databases.contains_key(db_name) {
            return Err(DatabaseError::DatabaseNotFound(db_name.to_owned()));
        }
        self.databases.remove(db_name);
        self.database_metadata.remove(db_name);
        Ok(())
    }

    pub fn get_database(&self, name: &str) -> (r: Option<&Database>)
        requires
            self.wf(),
        ensures
            match r {
                Some(d) => self.databases@.contains_key(name@) && *d == self.databases@[name@],
                None => !self.databases@.contains_key(name@),
            },
    {
        self.databases.get(name)
    }

    pub fn get_database_mut(&mut self, name: &str) -> (r: Option<&mut Database>)
        requires
            old(self).wf(),
        ensures
            final(self).database_metadata == old(self).database_metadata,
            final(self).users == old(self).users,
            final(self).roles == old(self).roles,
            match r {
                Some(d) => {
                    &&& old(self).databases@.contains_key(name@)
                    &&& *d == old(self).databases@[name@]
                    &&& final(self).databases@ == old(self).databases@.insert(name@, *final(d))
                    &&& final(d).wf() ==> final(self).wf()
                },
                None => !old(self).databases@.contains_key(name@) && *final(self) == *old(self),
            },
    {
        self.databases.get_mut(name)
    }

    pub fn get_database_metadata(&self, name: &str) -> (r: Option<&DatabaseMetadata>)
        requires
            self.wf(),
        ensures
            match r {
                Some(d) => self.database_metadata@.contains_key(name@) && *d == self.database_metadata@[name@],
                None => !self.database_metadata@.contains_key(name@),
            },
    {
        self.database_metadata.get(name)
    }

    pub fn get_database_metadata_mut(&mut self, name: &str) -> (r: Option<&mut DatabaseMetadata>)
        requires
            old(self).wf(),
        ensures
            final(self).databases == old(self).databases,
            final(self).users == old(self).users,
            final(self).roles == old(self).roles,
            match r {
                Some(d) => {
                    &&& old(self).database_metadata@.contains_key(name@)
                    &&& *d == old(self).database_metadata@[name@]
                    &&& final(self).database_metadata@ == old(self).database_metadata@.insert(name@, *final(d))
                    &&& final(d).wf() ==> final(self).wf()
                },
                None => !old(self).database_metadata@.contains_key(name@) && *final(self) == *old(self),
            },
    {
        self.database_metadata.get_mut(name)
    }

    /// Whether `username` names a user whose password is `password`.
    pub fn authenticate(&self, username: &str, password: &str) -> (ok: bool)
        requires
            self.wf(),
        ensures
            ok == (self.users@.contains_key(username@)
                && self.users@[username@].password_hash@ == crate::catalog::user::password_digest(password@)),
    {
        match self.users.get(username) {
            Some(user) => user.verify_password(password),
            None => false,
        }
    }

    /// Adds a role; a name already taken is refused.
    pub fn create_role(&mut self, role_name: &str, is_superuser: bool) -> (r: Result<(), DatabaseError>)
        requires
            old(self).wf(),
        ensures
            final(self).wf(),
            old(self).roles@.contains_key(role_name@) ==> *final(self) == *old(self)
                && (r matches Err(DatabaseError::RoleAlreadyExists(n)) && n@ == role_name@),
            !old(self).roles@.contains_key(role_name@) ==> {
                &&& r is Ok
                &&& final(self).roles@.dom() == old(self).roles@.dom().insert(role_name@)
                &&& forall|k: Seq<char>| k != role_name@ ==> #[trigger] final(self).roles@.contains_key(k) ==> final(self).roles@[k] == old(self).roles@[k]
                &&& final(self).roles@[role_name@].name@ == role_name@
                &&& final(self).roles@[role_name@].is_superuser == is_superuser
                &&& final(self).roles@[role_name@].members@ == Set::<Seq<char>>::empty()
                &&& final(self).roles@[role_name@].member_of@ == Set::<Seq<char>>::empty()
                &&& final(self).users == old(self).users
                &&& final(self).databases == old(self).databases
                &&& final(self).database_metadata == old(self).database_metadata
            },
    {
        if self.roles.contains_key(role_name) {
            return Err(DatabaseError::RoleAlreadyExists(role_name.to_owned()));
        }
        let role = Role::new(role_name.to_owned(), is_superuser);
        self.roles.insert(role_name.to_owned(), role);
        Ok(())
    }
}

impl ServerInstance {
    /// Removes a role, and every mention of it: from users' roles, from other
    /// roles' parents and members. An unknown role is refused.
    pub fn drop_role(&mut self, role_name: &str) -> (r: Result<(), DatabaseError>)
        requires
            old(self).wf(),
        ensures
            final(self).wf(),
            !old(self).roles@.contains_key(role_name@) ==> *final(self) == *old(self)
                && (r matches Err(DatabaseError::RoleNotFound(n)) && n@ == role_name@),
            old(self).roles@.contains_key(role_name@) ==> {
                &&& r is Ok
                &&& final(self).users@.dom() == old(self).users@.dom()
                &&& forall|k: Seq<char>| #[trigger] final(self).users@.contains_key(k) ==> {
                    &&& final(self).users@[k].roles@ == old(self).users@[k].roles@.remove(role_name@)
                    &&& final(self).users@[k].username == old(self).users@[k].username
                    &&& final(self).users@[k].password_hash == old(self).users@[k].password_hash
                    &&& final(self).users@[k].is_superuser == old(self).users@[k].is_superuser
                }
                &&& final(self).roles@.dom() == old(self).roles@.dom().remove(role_name@)
                &&& forall|k: Seq<char>| #[trigger] final(self).roles@.contains_key(k) ==> {
                    &&& final(self).roles@[k].member_of@ == old(self).roles@[k].member_of@.remove(role_name@)
                    &&& final(self).roles@[k].members@ == old(self).roles@[k].members@.remove(role_name@)
                    &&& final(self).roles@[k].name == old(self).roles@[k].name
                    &&& final(self).roles@[k].is_superuser == old(self).roles@[k].is_superuser
                }
                &&& final(self).databases == old(self).databases
                &&& final(self).database_metadata == old(self).database_metadata
            },
    {
        if !self.roles.contains_key(role_name) {
            return Err(DatabaseError::RoleNotFound(role_name.to_owned()));
        }
        let ghost users0 = self.users;
        let ghost roles0 = self.roles;
        proof { users0.lemma_lengths(); roles0.lemma_lengths(); }
        let n = self.users.len();
        let mut i: usize = 0;
        while i < n
            invariant
                i <= n,
                n == users0.keys().len(),
                self.users.wf(),
                self.users.keys() == users0.keys(),
                self.users.vals().len() == users0.vals().len(),
                forall|j: int| 0 <= j < i ==> {
                    &&& (#[trigger] self.users.vals()[j]).roles@ == users0.vals()[j].roles@.remove(role_name@)
                    &&& self.users.vals()[j].username == users0.vals()[j].username
                    &&& self.users.vals()[j].password_hash == users0.vals()[j].password_hash
                    &&& self.users.vals()[j].is_superuser == users0.vals()[j].is_superuser
                },
                forall|j: int| i <= j < n ==> #[trigger] self.users.vals()[j] == users0.vals()[j],
                self.roles == roles0,
                self.databases == old(self).databases,
                self.database_metadata == old(self).database_metadata,
                users0 == old(self).users,
                roles0 == old(self).roles,
            decreases n - i,
        {
            proof { self.users.lemma_lengths(); }
            let u = self.users.value_at_mut(i);
            u.remove_role(role_name);
            i = i + 1;
        }
        let ghost users1 = self.users;
        let m = self.roles.len();
        let mut i: usize = 0;
        while i < m
            invariant
                self.users == users1,
                i <= m,
                m == roles0.keys().len(),
                self.roles.wf(),
                self.roles.keys() == roles0.keys(),
                self.roles.vals().len() == roles0.vals().len(),
                forall|j: int| 0 <= j < i ==> {
                    &&& (#[trigger] self.roles.vals()[j]).member_of@ == roles0.vals()[j].member_of@.remove(role_name@)
                    &&& self.roles.vals()[j].members@ == roles0.vals()[j].members@.remove(role_name@)
                    &&& self.roles.vals()[j].name == roles0.vals()[j].name
                    &&& self.roles.vals()[j].is_superuser == roles0.vals()[j].is_superuser
                },
                forall|j: int| i <= j < m ==> #[trigger] self.roles.vals()[j] == roles0.vals()[j],
                self.databases == old(self).databases,
                self.database_metadata == old(self).database_metadata,
                roles0 == old(self).roles,
            decreases m - i,
        {
            proof { self.roles.lemma_lengths(); }
            let r = self.roles.value_at_mut(i);
            r.remove_parent_role(role_name);
            r.remove_member(role_name);
            i = i + 1;
        }
        let ghost roles1 = self.roles;
        proof {
            assert(users1@.dom() =~= users0@.dom());
            assert forall|k: Seq<char>| #[trigger] users1@.contains_key(k) implies {
                &&& users1@[k].roles@ == users0@[k].roles@.remove(role_name@)
                &&& users1@[k].username == users0@[k].username
                &&& users1@[k].password_hash == users0@[k].password_hash
                &&& users1@[k].is_superuser == users0@[k].is_superuser
            } by {
                let j = users1.keys().index_of(k);
                assert(users1.keys()[j] == k);
                users1.lemma_lookup(j);
                users0.lemma_lookup(j);
            }
            assert forall|k: Seq<char>| #[trigger] roles1@.contains_key(k) implies {
                &&& roles1@[k].member_of@ == roles0@[k].member_of@.remove(role_name@)
                &&& roles1@[k].members@ == roles0@[k].members@.remove(role_name@)
                &&& roles1@[k].name == roles0@[k].name
                &&& roles1@[k].is_superuser == roles0@[k].is_superuser
            } by {
                let j = roles1.keys().index_of(k);
                assert(roles1.keys()[j] == k);
                roles1.lemma_lookup(j);
                roles0.lemma_lookup(j);
            }
        }
        self.roles.remove(role_name);
        Ok(())
    }

    /// Gives a user a role, and records the user as a member of it. An unknown
    /// role or user is refused, in that order.
    pub fn grant_role_to_user(&mut self, role_name: &str, username: &str) -> (r: Result<(), DatabaseError>)
        requires
            old(self).wf(),
        ensures
            final(self).wf(),
            !old(self).roles@.contains_key(role_name@) ==> *final(self) == *old(self)
                && (r matches Err(DatabaseError::RoleNotFound(n)) && n@ == role_name@),
            old(self).roles@.contains_key(role_name@) && !old(self).users@.contains_key(username@) ==> *final(self) == *old(self)
                && (r matches Err(DatabaseError::UserNotFound(n)) && n@ == username@),
            old(self).roles@.contains_key(role_name@) && old(self).users@.contains_key(username@) ==> {
                &&& r is Ok
                &&& final(self).users@.dom() == old(self).users@.dom()
                &&& final(self).roles@.dom() == old(self).roles@.dom()
                &&& final(self).users@[username@].roles@ == old(self).users@[username@].roles@.insert(role_name@)
                &&& final(self).users@[username@].username == old(self).users@[username@].username
                &&& final(self).users@[username@].password_hash == old(self).users@[username@].password_hash
                &&& final(self).users@[username@].is_superuser == old(self).users@[username@].is_superuser
                &&& final(self).roles@[role_name@].members@ == old(self).roles@[role_name@].members@.insert(username@)
                &&& final(self).roles@[role_name@].member_of == old(self).roles@[role_name@].member_of
                &&& final(self).roles@[role_name@].name == old(self).roles@[role_name@].name
                &&& final(self).roles@[role_name@].is_superuser == old(self).roles@[role_name@].is_superuser
                &&& forall|k: Seq<char>| k != username@ && #[trigger] old(self).users@.contains_key(k) ==> final(self).users@[k] == old(self).users@[k]
                &&& forall|k: Seq<char>| k != role_name@ && #[trigger] old(self).roles@.contains_key(k) ==> final(self).roles@[k] == old(self).roles@[k]
                &&& final(self).databases == old(self).databases
                &&& final(self).database_metadata == old(self).database_metadata
            },
    {
        if !self.roles.contains_key(role_name) {
            return Err(DatabaseError::RoleNotFound(role_name.to_owned()));
        }
        if !self.users.contains_key(username) {
            return Err(DatabaseError::UserNotFound(username.to_owned()));
        }
        match self.users.get_mut(username) {
            Some(user) => user.add_role(role_name),
            None => {},
        }
        match self.roles.get_mut(role_name) {
            Some(role) => role.add_member(username),
            None => {},
        }
        Ok(())
    }

    /// Takes a role away from a user, and the user out of its members. An
    /// unknown role or user is refused, in that order.
    pub fn revoke_role_from_user(&mut self, role_name: &str, username: &str) -> (r: Result<(), DatabaseError>)
        requires
            old(self).wf(),
        ensures
            final(self).wf(),
            !old(self).roles@.contains_key(role_name@) ==> *final(self) == *old(self)
                && (r matches Err(DatabaseError::RoleNotFound(n)) && n@ == role_name@),
            old(self).roles@.contains_key(role_name@) && !old(self).users@.contains_key(username@) ==> *final(self) == *old(self)
                && (r matches Err(DatabaseError::UserNotFound(n)) && n@ == username@),
            old(self).roles@.contains_key(role_name@) && old(self).users@.contains_key(username@) ==> {
                &&& r is Ok
                &&& final(self).users@.dom() == old(self).users@.dom()
                &&& final(self).roles@.dom() == old(self).roles@.dom()
                &&& final(self).users@[username@].roles@ == old(self).users@[username@].roles@.remove(role_name@)
                &&& final(self).users@[username@].username == old(self).users@[username@].username
                &&& final(self).users@[username@].password_hash == old(self).users@[username@].password_hash
                &&& final(self).users@[username@].is_superuser == old(self).users@[username@].is_superuser
                &&& final(self).roles@[role_name@].members@ == old(self).roles@[role_name@].members@.remove(username@)
                &&& final(self).roles@[role_name@].member_of == old(self).roles@[role_name@].member_of
                &&& final(self).roles@[role_name@].name == old(self).roles@[role_name@].name
                &&& final(self).roles@[role_name@].is_superuser == old(self).roles@[role_name@].is_superuser
                &&& forall|k: Seq<char>| k != username@ && #[trigger] old(self).users@.contains_key(k) ==> final(self).users@[k] == old(self).users@[k]
                &&& forall|k: Seq<char>| k != role_name@ && #[trigger] old(self).roles@.contains_key(k) ==> final(self).roles@[k] == old(self).roles@[k]
                &&& final(self).databases == old(self).databases
                &&& final(self).database_metadata == old(self).database_metadata
            },
    {
        if !self.roles.contains_key(role_name) {
            return Err(DatabaseError::RoleNotFound(role_name.to_owned()));
        }
        if !self.users.contains_key(username) {
            return Err(DatabaseError::UserNotFound(username.to_owned()));
        }
        match self.users.get_mut(username) {
            Some(user) => user.remove_role(role_name),
            None => {},
        }
        match self.roles.get_mut(role_name) {
            Some(role) => role.remove_member(username),
            None => {},
        }
        Ok(())
    }

    /// Adds `role_name` and, for a defined role, everything it inherits, to `collected`;
    /// a name already collected is not followed again.
    fn collect_roles_recursive(&self, role_name: &str, collected: &mut NameSet)
        requires
            self.wf(),
        ensures
            old(collected)@.subset_of(final(collected)@),
            final(collected)@.contains(role_name@),
            forall|x: Seq<char>| #[trigger] final(collected)@.contains(x) && !old(collected)@.contains(x)
                ==> inherits(self.roles@, role_name@, x),
            forall|x: Seq<char>, p: Seq<char>|
                #[trigger] final(collected)@.contains(x) && !old(collected)@.contains(x) && #[trigger] parents(self.roles@, x).contains(p)
                ==> final(collected)@.contains(p),
        decreases self.roles@.dom().difference(collected@).len(),
    {
        if collected.contains(role_name) {
            return;
        }
        collected.insert(role_name);
        proof { lemma_inherits_self(self.roles@, role_name@); }
        match self.roles.get(role_name) {
            None => {},
            Some(role) => {
                proof { self.roles.lemma_dom_finite(); }
                let n = role.member_of.len();
                let mut i: usize = 0;
                while i < n
                    invariant
                        self.wf(),
                        self.roles@.dom().finite(),
                        self.roles@.contains_key(role_name@),
                        *role == self.roles@[role_name@],
                        n == role.member_of.ordered().len(),
                        i <= n,
                        !old(collected)@.contains(role_name@),
                        old(collected)@.subset_of(collected@),
                        collected@.contains(role_name@),
                        forall|x: Seq<char>| #[trigger] collected@.contains(x) && !old(collected)@.contains(x)
                            ==> inherits(self.roles@, role_name@, x),
                        forall|x: Seq<char>, p: Seq<char>|
                            #[trigger] collected@.contains(x) && !old(collected)@.contains(x) && x != role_name@
                            && #[trigger] parents(self.roles@, x).contains(p) ==> collected@.contains(p),
                        forall|j: int| 0 <= j < i ==> collected@.contains(#[trigger] role.member_of.ordered()[j]),
                    decreases n - i,
                {
                    let parent = role.member_of.get(i);
                    let ghost before = collected@;
                    proof {
                        lemma_measure_drops(self.roles@.dom(), old(collected)@, before, role_name@);
                        assert(parents(self.roles@, role_name@).contains(parent@));
                    }
                    self.collect_roles_recursive(parent.as_str(), collected);
                    proof {
                        assert forall|x: Seq<char>| #[trigger] collected@.contains(x) && !old(collected)@.contains(x)
                            implies inherits(self.roles@, role_name@, x) by {
                            if !before.contains(x) {
                                lemma_inherits_step(self.roles@, role_name@, parent@, x);
                            }
                        }
                    }
                    i = i + 1;
                }
                proof {
                    assert forall|p: Seq<char>| #[trigger] parents(self.roles@, role_name@).contains(p) implies collected@.contains(p) by {
                        let j = choose|j: int| 0 <= j < role.member_of.ordered().len() && role.member_of.ordered()[j] == p;
                        assert(collected@.contains(role.member_of.ordered()[j]));
                    }
                }
            },
        }
    }

    /// Every role `username` holds, directly or by inheritance (none for an unknown user).
    pub fn get_user_roles(&self, username: &str) -> (r: NameSet)
        requires
            self.wf(),
        ensures
            r@ == self.user_roles(username@),
    {
        let mut all = NameSet::new();
        match self.users.get(username) {
            None => {
                assert(all@ =~= self.user_roles(username@));
            },
            Some(user) => {
                let ghost start = user.roles@;
                let n = user.roles.len();
                let mut i: usize = 0;
                while i < n
                    invariant
                        self.wf(),
                        n == user.roles.ordered().len(),
                        start == user.roles@,
                        i <= n,
                        all@.subset_of(role_closure(self.roles@, start)),
                        forall|x: Seq<char>, p: Seq<char>| #[trigger] all@.contains(x) && #[trigger] parents(self.roles@, x).contains(p)
                            ==> all@.contains(p),
                        forall|j: int| 0 <= j < i ==> all@.contains(#[trigger] user.roles.ordered()[j]),
                    decreases n - i,
                {
                    let d = user.roles.get(i);
                    let ghost before = all@;
                    self.collect_roles_recursive(d.as_str(), &mut all);
                    proof {
                        assert(start.contains(d@));
                        assert forall|x: Seq<char>| all@.contains(x) implies role_closure(self.roles@, start).contains(x) by {
                            if !before.contains(x) {
                                assert(start.contains(d@) && inherits(self.roles@, d@, x));
                            }
                        }
                    }
                    i = i + 1;
                }
                proof {
                    assert(start.subset_of(all@)) by {
                        assert forall|x: Seq<char>| start.contains(x) implies all@.contains(x) by {
                            let j = choose|j: int| 0 <= j < user.roles.ordered().len() && user.roles.ordered()[j] == x;
                            assert(all@.contains(user.roles.ordered()[j]));
                        }
                    }
                    lemma_closed_holds_closure(self.roles@, start, all@);
                    assert(all@ =~= role_closure(self.roles@, start));
                }
            },
        }
        all
    }

    /// Whether one of `names` is a defined superuser role.
    fn any_super_role(&self, names: &NameSet) -> (b: bool)
        requires
            self.wf(),
        ensures
            b == exists|r: Seq<char>| #[trigger] names@.contains(r) && role_is_super(self.roles@, r),
    {
        let n = names.len();
        let mut i: usize = 0;
        while i < n
            invariant
                self.wf(),
                n == names.ordered().len(),
                i <= n,
                forall|j: int| 0 <= j < i ==> !role_is_super(self.roles@, #[trigger] names.ordered()[j]),
            decreases n - i,
        {
            let name = names.get(i);
            match self.roles.get(name.as_str()) {
                Some(role) => {
                    if role.is_superuser {
                        assert(names@.contains(name@));
                        return true;
                    }
                },
                None => {},
            }
            i = i + 1;
        }
        proof {
            assert forall|r: Seq<char>| names@.contains(r) implies !role_is_super(self.roles@, r) by {
                let j = choose|j: int| 0 <= j < names.ordered().len() && names.ordered()[j] == r;
                assert(!role_is_super(self.roles@, names.ordered()[j]));
            }
        }
        false
    }

    /// Whether `username` holds `privilege` on database `db_name`: as a superuser,
    /// directly, or through a role (a superuser role, or one granted the right).
    /// An unknown database is refused, unless the user is a superuser.
    pub fn check_privilege(&self, username: &str, db_name: &str, privilege: &Privilege) -> (r: Result<bool, DatabaseError>)
        requires
            self.wf(),
        ensures
            self.user_is_super(username@) ==> r == Ok::<bool, DatabaseError>(true),
            !self.user_is_super(username@) && !self.database_metadata@.contains_key(db_name@) ==>
                (r matches Err(DatabaseError::DatabaseNotFound(n)) && n@ == db_name@),
            !self.user_is_super(username@) && self.database_metadata@.contains_key(db_name@) ==>
                r == Ok::<bool, DatabaseError>(
                    grants_allow(self.database_metadata@[db_name@].grants(), username@, *privilege)
                    || exists|x: Seq<char>| #[trigger] self.user_roles(username@).contains(x) && (
                        role_is_super(self.roles@, x)
                        || grants_allow(self.database_metadata@[db_name@].grants(), x, *privilege))),
    {
        match self.users.get(username) {
            Some(user) => {
                if user.is_superuser {
                    return Ok(true);
                }
            },
            None => {},
        }
        match self.database_metadata.get(db_name) {
            None => Err(DatabaseError::DatabaseNotFound(db_name.to_owned())),
            Some(meta) => {
                if meta.has_privilege(username, privilege) {
                    return Ok(true);
                }
                let roles = self.get_user_roles(username);
                let n = roles.len();
                let mut i: usize = 0;
                while i < n
                    invariant
                        self.wf(),
                        meta.wf(),
                        self.database_metadata@.contains_key(db_name@),
                        *meta == self.database_metadata@[db_name@],
                        roles@ == self.user_roles(username@),
                        n == roles.ordered().len(),
                        i <= n,
                        forall|j: int| 0 <= j < i ==> !(role_is_super(self.roles@, #[trigger] roles.ordered()[j])
                            || grants_allow(meta.grants(), roles.ordered()[j], *privilege)),
                    decreases n - i,
                {
                    let name = roles.get(i);
                    assert(roles@.contains(name@));
                    match self.roles.get(name.as_str()) {
                        Some(role) => {
                            if role.is_superuser {
                                return Ok(true);
                            }
                        },
                        None => {},
                    }
                    if meta.has_privilege(name.as_str(), privilege) {
                        return Ok(true);
                    }
                    i = i + 1;
                }
                proof {
                    assert forall|x: Seq<char>| roles@.contains(x) implies !(role_is_super(self.roles@, x)
                        || grants_allow(meta.grants(), x, *privilege)) by {
                        let j = choose|j: int| 0 <= j < roles.ordered().len() && roles.ordered()[j] == x;
                        assert(!(role_is_super(self.roles@, roles.ordered()[j]) || grants_allow(meta.grants(), roles.ordered()[j], *privilege)));
                    }
                }
                Ok(false)
            },
        }
    }

    /// Whether `username` holds `privilege` on table `table_name` of database `db_name`:
    /// as a superuser (or through a superuser role), directly, or through a role.
    pub fn check_table_permission(&self, username: &str, db_name: &str, table_name: &str, privilege: &Privilege) -> (b: bool)
        requires
            self.wf(),
        ensures
            b == (self.acts_as_super(username@) || (self.databases@.contains_key(db_name@) && (
                self.databases@[db_name@].table_allows(username@, table_name@, *privilege)
                || exists|x: Seq<char>| #[trigger] self.user_roles(username@).contains(x)
                    && self.databases@[db_name@].table_allows(x, table_name@, *privilege)))),
    {
        match self.users.get(username) {
            Some(user) => {
                if user.is_superuser {
                    return true;
                }
            },
            None => {},
        }
        let roles = self.get_user_roles(username);
        if self.any_super_role(&roles) {
            return true;
        }
        match self.databases.get(db_name) {
            None => false,
            Some(db) => {
                if db.check_table_permission(username, table_name, *privilege) {
                    return true;
                }
                let n = roles.len();
                let mut i: usize = 0;
                while i < n
                    invariant
                        db.wf(),
                        self.databases@.contains_key(db_name@),
                        *db == self.databases@[db_name@],
                        roles@ == self.user_roles(username@),
                        n == roles.ordered().len(),
                        i <= n,
                        forall|j: int| 0 <= j < i ==> !db.table_allows(#[trigger] roles.ordered()[j], table_name@, *privilege),
                    decreases n - i,
                {
                    let name = roles.get(i);
                    if db.check_table_permission(name.as_str(), table_name, *privilege) {
                        assert(roles@.contains(name@));
                        return true;
                    }
                    i = i + 1;
                }
                proof {
                    assert forall|x: Seq<char>| roles@.contains(x) implies !db.table_allows(x, table_name@, *privilege) by {
                        let j = choose|j: int| 0 <= j < roles.ordered().len() && roles.ordered()[j] == x;
                        assert(!db.table_allows(roles.ordered()[j], table_name@, *privilege));
                    }
                }
                false
            },
        }
    }

    /// Whether `username` is a superuser (or holds a superuser role), or owns the table.
    pub fn is_table_owner_or_superuser(&self, username: &str, db_name: &str, table_name: &str) -> (b: bool)
        requires
            self.wf(),
        ensures
            b == (self.acts_as_super(username@) || (self.databases@.contains_key(db_name@)
                && self.databases@[db_name@].owns_table(username@, table_name@))),
    {
        match self.users.get(username) {
            Some(user) => {
                if user.is_superuser {
                    return true;
                }
            },
            None => {},
        }
        let roles = self.get_user_roles(username);
        if self.any_super_role(&roles) {
            return true;
        }
        match self.databases.get(db_name) {
            Some(db) => db.is_table_owner(username, table_name),
            None => false,
        }
    }
}

impl Default for ServerInstance {
    fn default() -> (s: Self)
        ensures
            s.wf(),
            s.databases@ == Map::<Seq<char>, Database>::empty(),
            s.users@ == Map::<Seq<char>, User>::empty(),
            s.roles@ == Map::<Seq<char>, Role>::empty(),
    {
        Self::new()
    }
}

/// The roles of a user hold every role they hold directly, and every parent of
/// every role they hold: inheritance is followed all the way.
pub proof fn law_user_roles_closed(s: ServerInstance, u: Seq<char>, r: Seq<char>, p: Seq<char>)
    requires
        s.users@.contains_key(u),
    ensures
        s.users@[u].roles@.contains(r) ==> s.user_roles(u).contains(r),
        s.user_roles(u).contains(r) && parents(s.roles@, r).contains(p) ==> s.user_roles(u).contains(p),
{
    if s.users@[u].roles@.contains(r) {
        lemma_inherits_self(s.roles@, r);
    }
    if s.user_roles(u).contains(r) && parents(s.roles@, r).contains(p) {
        let start = s.users@[u].roles@;
        let d = choose|d: Seq<char>| #[trigger] start.contains(d) && inherits(s.roles@, d, r);
        lemma_inherits_self(s.roles@, p);
        lemma_inherits_step(s.roles@, r, p, p);
        lemma_inherits_transitive(s.roles@, d, r, p);
    }
}

/// Inheritance is transitive.
pub proof fn lemma_inherits_transitive(roles: Map<Seq<char>, Role>, a: Seq<char>, b: Seq<char>, c: Seq<char>)
    requires
        inherits(roles, a, b),
        inherits(roles, b, c),
    ensures
        inherits(roles, a, c),
{
    let p1 = choose|path: Seq<Seq<char>>| #[trigger] crate::catalog::roles_graph::is_chain(roles, path) && path[0] == a && path.last() == b;
    let p2 = choose|path: Seq<Seq<char>>| #[trigger] crate::catalog::roles_graph::is_chain(roles, path) && path[0] == b && path.last() == c;
    let joined = p1 + p2.drop_first();
    assert forall|i: int| 0 < i < joined.len() implies parents(roles, joined[i - 1]).contains(#[trigger] joined[i]) by {
        if i < p1.len() {
            assert(joined[i - 1] == p1[i - 1]);
            assert(joined[i] == p1[i]);
        } else if i == p1.len() {
            assert(joined[i - 1] == p1.last());
            assert(joined[i] == p2[1]);
            assert(p2[0] == b);
        } else {
            assert(joined[i - 1] == p2[i - p1.len()]);
            assert(joined[i] == p2[i - p1.len() + 1]);
        }
    }
    assert(crate::catalog::roles_graph::is_chain(roles, joined));
    if p2.len() == 1 {
        assert(joined =~= p1);
    } else {
        assert(joined.last() == p2.last());
    }
}

/// A superuser, or a user holding a superuser role, is allowed every right on every table.
pub proof fn law_superuser_allowed(s: ServerInstance, u: Seq<char>)
    requires
        s.user_is_super(u),
    ensures
        s.acts_as_super(u),
{
}

} // verus!
