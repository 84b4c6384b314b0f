//! A database: its tables, enumerated types, indexes, views and table rights.

use vstd::prelude::*;
use crate::catalog::error::DatabaseError;
use crate::catalog::grants::grants_allow;
use crate::catalog::names::NameMap;
use crate::catalog::privilege::Privilege;
use crate::catalog::table::Table;
use crate::catalog::table_metadata::TableMetadata;
use crate::catalog::grants::owner_grants;
use crate::index::Index;
use crate::text::{push_str, string_of};

verus! {

/// A database.
#[derive(Clone, Debug)]
pub struct Database {
    pub name: String,
    pub tables: NameMap<Table>,
    /// Enumerated types: type name to its labels.
    pub enums: NameMap<Vec<String>>,
    /// Indexes by name.
    pub indexes: NameMap<Index>,
    /// Views: view name to the text of its query.
    pub views: NameMap<String>,
    /// Owner and rights of each table.
    pub table_metadata: NameMap<TableMetadata>,
}

/// The message of an enumerated type defined twice.
pub open spec fn enum_exists_message(name: Seq<char>) -> Seq<char> {
    "Enum '"@ + name + "' already exists"@
}

impl Database {
    pub open spec fn wf(&self) -> bool {
        &&& self.tables.wf()
        &&& self.enums.wf()
        &&& self.indexes.wf()
        &&& self.views.wf()
        &&& self.table_metadata.wf()
        &&& forall|k: Seq<char>| #[trigger] self.table_metadata@.contains_key(k) ==> self.table_metadata@[k].wf()
    }

    /// Whether `user` holds `p` on table `table` (directly or through `All`).
    pub open spec fn table_allows(&self, user: Seq<char>, table: Seq<char>, p: Privilege) -> bool {
        self.table_metadata@.contains_key(table) && grants_allow(self.table_metadata@[table].grants(), user, p)
    }

    /// Whether `user` owns table `table`.
    pub open spec fn owns_table(&self, user: Seq<char>, table: Seq<char>) -> bool {
        self.table_metadata@.contains_key(table) && self.table_metadata@[table].owner@ == user
    }

    /// An empty database.
    pub fn new(name: String) -> (db: Self)
        ensures
            db.wf(),
            db.name@ == name@,
            db.tables@ == Map::<Seq<char>, Table>::empty(),
            db.enums@ == Map::<Seq<char>, Vec<String>>::empty(),
            db.indexes@ == Map::<Seq<char>, Index>::empty(),
            db.views@ == Map::<Seq<char>, String>::empty(),
            db.table_metadata@ == Map::<Seq<char>, TableMetadata>::empty(),
    {
        Database {
            name,
            tables: NameMap::new(),
            enums: NameMap::new(),
            indexes: NameMap::new(),
            views: NameMap::new(),
            table_metadata: NameMap::new(),
        }
    }

    /// Defines an enumerated type; a name already defined is refused.
    pub fn create_enum(&mut self, name: String, values: Vec<String>) -> (r: Result<(), DatabaseError>)
        requires
            old(self).wf(),
        ensures
            final(self).wf(),
            old(self).enums@.contains_key(name@) ==> *final(self) == *old(self)
                && (r matches Err(DatabaseError::ParseError(m)) && m@ == enum_exists_message(name@)),
            !old(self).enums@.contains_key(name@) ==> r is Ok
                && final(self).enums@ == old(self).enums@.insert(name@, values)
                && final(self).tables == old(self).tables
                && final(self).indexes == old(self).indexes
                && final(self).views == old(self).views
                && final(self).table_metadata == old(self).table_metadata
                && final(self).name == old(self).name,
    {
        if self.enums.contains_key(name.as_str()) {
            let mut out: Vec<char> = Vec::new();
            push_str(&mut out, "Enum '");
            push_str(&mut out, name.as_str());
            push_str(&mut out, "' already exists");
            assert(out@ =~= enum_exists_message(name@));
            return Err(DatabaseError::ParseError(string_of(&out)));
        }
        self.enums.insert(name, values);
        Ok(())
    }

    /// The labels of an enumerated type.
    pub fn get_enum(&self, name: &str) -> (r: Option<&Vec<String>>)
        requires
            self.wf(),
        ensures
            match r {
                Some(v) => self.enums@.contains_key(name@) && *v == self.enums@[name@],
                None => !self.enums@.contains_key(name@),
            },
    {
        self.enums.get(name)
    }

    /// Adds a table, together with metadata giving its owner every right; a
    /// name already taken is refused.
    pub fn create_table(&mut self, table: Table) -> (r: Result<(), DatabaseError>)
        requires
            old(self).wf(),
        ensures
            final(self).wf(),
            old(self).tables@.contains_key(table.name@) ==> *final(self) == *old(self)
                && (r matches Err(DatabaseError::TableAlreadyExists(n)) && n@ == table.name@),
            !old(self).tables@.contains_key(table.name@) ==> {
                &&& r is Ok
                &&& final(self).tables@ == old(self).tables@.insert(table.name@, table)
                &&& final(self).table_metadata@.dom() == old(self).table_metadata@.dom().insert(table.name@)
                &&& forall|k: Seq<char>| k != table.name@ && #[trigger] old(self).table_metadata@.contains_key(k)
                    ==> final(self).table_metadata@[k] == old(self).table_metadata@[k]
                &&& final(self).table_metadata@[table.name@].owner@ == table.owner@
                &&& final(self).table_metadata@[table.name@].table_name@ == table.name@
                &&& final(self).table_metadata@[table.name@].grants() == owner_grants(table.owner@)
                &&& final(self).enums == old(self).enums
                &&& final(self).indexes == old(self).indexes
                &&& final(self).views == old(self).views
                &&& final(self).name == old(self).name
            },
    {
        if self.tables.contains_key(table.name.as_str()) {
            return Err(DatabaseError::TableAlreadyExists(table.name));
        }
        let metadata = TableMetadata::new(table.name.clone(), table.owner.clone());
        self.table_metadata.insert(table.name.clone(), metadata);
        let key = table.name.clone();
        self.tables.insert(key, table);
        Ok(())
    }

    pub fn get_table(&self, name: &str) -> (r: Option<&Table>)
        requires
            self.wf(),
        ensures
            match r {
                Some(t) => self.tables@.contains_key(name@) && *t == self.tables@[name@],
                None => !self.tables@.contains_key(name@),
            },
    {
        self.tables.get(name)
    }

    pub fn get_table_mut(&mut self, name: &str) -> (r: Option<&mut Table>)
        requires
            old(self).wf(),
        ensures
            final(self).wf(),
            final(self).name == old(self).name,
            final(self).enums == old(self).enums,
            final(self).indexes == old(self).indexes,
            final(self).views == old(self).views,
            final(self).table_metadata == old(self).table_metadata,
            match r {
                Some(t) => {
                    &&& old(self).tables@.contains_key(name@)
                    &&& *t == old(self).tables@[name@]
                    &&& final(self).tables@ == old(self).tables@.insert(name@, *final(t))
                },
                None => !old(self).tables@.contains_key(name@) && *final(self) == *old(self),
            },
    {
        self.tables.get_mut(name)
    }

    /// Removes a table and its metadata; an unknown name is refused.
    pub fn drop_table(&mut self, name: &str) -> (r: Result<(), DatabaseError>)
        requires
            old(self).wf(),
        ensures
            final(self).wf(),
            !old(self).tables@.contains_key(name@) ==> *final(self) == *old(self)
                && (r matches Err(DatabaseError::TableNotFound(n)) && n@ == name@),
            old(self).tables@.contains_key(name@) ==> r is Ok
                && final(self).tables@ == old(self).tables@.remove(name@)
                && final(self).table_metadata@ == old(self).table_metadata@.remove(name@)
                && final(self).enums == old(self).enums
                && final(self).indexes == old(self).indexes
                && final(self).views == old(self).views
                && final(self).name == old(self).name,
    {
        match self.tables.remove(name) {
            None => Err(DatabaseError::TableNotFound(name.to_owned())),
            Some(_) => {
                self.table_metadata.remove(name);
                Ok(())
            },
        }
    }

    /// Whether `username` holds `privilege` on `table_name`.
    pub fn check_table_permission(&self, username: &str, table_name: &str, privilege: Privilege) -> (b: bool)
        requires
            self.wf(),
        ensures
            b == self.table_allows(username@, table_name@, privilege),
    {
        match self.table_metadata.get(table_name) {
            Some(meta) => meta.has_privilege(username, &privilege),
            None => false,
        }
    }

    /// Whether `username` owns `table_name`.
    pub fn is_table_owner(&self, username: &str, table_name: &str) -> (b: bool)
        requires
            self.wf(),
        ensures
            b == self.owns_table(username@, table_name@),
    {
        match self.table_metadata.get(table_name) {
            Some(meta) => meta.is_owner(username),
            None => false,
        }
    }
}

} // verus!
