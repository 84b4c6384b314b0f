//! Grant tables: which rights each user or role holds on an object.

use vstd::prelude::*;
use crate::catalog::names::NameMap;
use crate::catalog::privilege::{Privilege, PrivilegeSet};

verus! {

/// The rights granted to each name.
pub open spec fn grant_view(m: Map<Seq<char>, PrivilegeSet>) -> Map<Seq<char>, Set<Privilege>> {
    m.map_values(|s: PrivilegeSet| s@)
}

/// Whether `who` holds `p` in `g`, directly or through `All`.
pub open spec fn grants_allow(g: Map<Seq<char>, Set<Privilege>>, who: Seq<char>, p: Privilege) -> bool {
    g.contains_key(who) && (g[who].contains(Privilege::All) || g[who].contains(p))
}

/// The rights `who` holds in `g`, empty when it holds none.
pub open spec fn held(g: Map<Seq<char>, Set<Privilege>>, who: Seq<char>) -> Set<Privilege> {
    if g.contains_key(who) { g[who] } else { Set::empty() }
}

/// The grant table holding only `All` for `owner`.
pub open spec fn owner_grants(owner: Seq<char>) -> Map<Seq<char>, Set<Privilege>> {
    Map::<Seq<char>, Set<Privilege>>::empty().insert(owner, Set::<Privilege>::empty().insert(Privilege::All))
}

/// A grant table whose only entry gives `owner` every right.
pub fn owner_table(owner: &String) -> (m: NameMap<PrivilegeSet>)
    ensures
        m.wf(),
        grant_view(m@) == owner_grants(owner@),
{
    let mut m = NameMap::new();
    m.insert(owner.clone(), PrivilegeSet::singleton(Privilege::All));
    assert(grant_view(m@) =~= owner_grants(owner@));
    m
}

/// Adds `p` to the rights of `who`.
pub fn grant_in(m: &mut NameMap<PrivilegeSet>, who: &str, p: Privilege)
    requires
        old(m).wf(),
    ensures
        final(m).wf(),
        grant_view(final(m)@) == grant_view(old(m)@).insert(who@, held(grant_view(old(m)@), who@).insert(p)),
{
    match m.get_mut(who) {
        Some(set) => {
            set.insert(p);
        },
        None => {
            let mut set = PrivilegeSet::new();
            set.insert(p);
            m.insert(who.to_owned(), set);
        },
    }
    assert(grant_view(m@) =~= grant_view(old(m)@).insert(who@, held(grant_view(old(m)@), who@).insert(p)));
}

/// Whether `who` holds `p` in `m`, directly or through `All`.
pub fn allows_in(m: &NameMap<PrivilegeSet>, who: &str, p: &Privilege) -> (b: bool)
    requires
        m.wf(),
    ensures
        b == grants_allow(grant_view(m@), who@, *p),
{
    match m.get(who) {
        Some(set) => set.contains(&Privilege::All) || set.contains(p),
        None => false,
    }
}

} // verus!
