//! Column definitions and the constraints they carry.

use vstd::prelude::*;
use crate::catalog::data_type::DataType;

verus! {

/// A reference from a column to a column of another table.
#[derive(Clone, Debug)]
pub struct ForeignKey {
    pub referenced_table: String,
    pub referenced_column: String,
}

/// A column of a table.
#[derive(Clone, Debug)]
pub struct Column {
    pub name: String,
    pub data_type: DataType,
    pub nullable: bool,
    pub primary_key: bool,
    pub unique: bool,
    pub foreign_key: Option<ForeignKey>,
}

/// The names of a list of columns, in order.
pub open spec fn column_names(cols: Seq<Column>) -> Seq<Seq<char>> {
    cols.map_values(|c: Column| c.name@)
}

/// The position of the first column named `name`, if any.
#[verifier::opaque]
pub open spec fn first_column_named(cols: Seq<Column>, name: Seq<char>) -> Option<int> {
    if exists|i: int| 0 <= i < cols.len() && cols[i].name@ == name {
        Some(choose|i: int| 0 <= i < cols.len() && cols[i].name@ == name
            && forall|j: int| 0 <= j < i ==> cols[j].name@ != name)
    } else {
        None
    }
}

/// The position of the first column named `name`.
pub fn find_column(cols: &Vec<Column>, name: &str) -> (r: Option<usize>)
    ensures
        match r {
            Some(i) => i < cols@.len() && cols@[i as int].name@ == name@
                && forall|j: int| 0 <= j < i ==> cols@[j].name@ != name@,
            None => forall|j: int| 0 <= j < cols@.len() ==> cols@[j].name@ != name@,
        },
        r.is_some() == first_column_named(cols@, name@).is_some(),
        r.is_some() ==> r.unwrap() as int == first_column_named(cols@, name@).unwrap(),
{
    let key = name.to_owned();
    let mut i: usize = 0;
    while i < cols.len()
        invariant
            i <= cols@.len(),
            key@ == name@,
            forall|j: int| 0 <= j < i ==> cols@[j].name@ != name@,
        decreases cols@.len() - i,
    {
        if cols[i].name == key {
            proof {
                reveal(first_column_named);
                let k = choose|k: int| 0 <= k < cols@.len() && cols@[k].name@ == name@
                    && forall|j: int| 0 <= j < k ==> cols@[j].name@ != name@;
                assert(k == i) by {
                    if k < i { assert(cols@[k].name@ != name@); }
                    if k > i { assert(cols@[i as int].name@ != name@); }
                }
            }
            return Some(i);
        }
        i = i + 1;
    }
    proof {
        reveal(first_column_named);
    }
    None
}

/// The first column named `name` lies within the list and bears that name,
/// and no column before it does.
pub proof fn lemma_first_column_named(cols: Seq<Column>, name: Seq<char>)
    ensures
        match first_column_named(cols, name) {
            Some(i) => 0 <= i < cols.len() && cols[i].name@ == name
                && forall|j: int| 0 <= j < i ==> cols[j].name@ != name,
            None => forall|j: int| 0 <= j < cols.len() ==> cols[j].name@ != name,
        },
{
    reveal(first_column_named);
    if exists|i: int| 0 <= i < cols.len() && cols[i].name@ == name {
        let w = choose|i: int| 0 <= i < cols.len() && cols[i].name@ == name;
        lemma_least_named(cols, name, w);
    }
}

proof fn lemma_least_named(cols: Seq<Column>, name: Seq<char>, w: int)
    requires
        0 <= w < cols.len(),
        cols[w].name@ == name,
    ensures
        exists|i: int| 0 <= i < cols.len() && cols[i].name@ == name
            && forall|j: int| 0 <= j < i ==> cols[j].name@ != name,
    decreases w,
{
    if exists|j: int| 0 <= j < w && cols[j].name@ == name {
        let k = choose|j: int| 0 <= j < w && cols[j].name@ == name;
        lemma_least_named(cols, name, k);
    } else {
        assert(forall|j: int| 0 <= j < w ==> cols[j].name@ != name);
    }
}

} // verus!
