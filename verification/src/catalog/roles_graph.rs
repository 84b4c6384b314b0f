//! Role inheritance: the roles a set of roles reaches through "member of" links.

use vstd::prelude::*;
use crate::catalog::role::Role;

verus! {

/// The roles `r` inherits directly: its parents when `r` is a defined role, none otherwise.
pub open spec fn parents(roles: Map<Seq<char>, Role>, r: Seq<char>) -> Set<Seq<char>> {
    if roles.contains_key(r) { roles[r].member_of@ } else { Set::empty() }
}

/// `path` leads from its first role to its last, each step to a parent.
pub open spec fn is_chain(roles: Map<Seq<char>, Role>, path: Seq<Seq<char>>) -> bool {
    &&& path.len() > 0
    &&& forall|i: int| 0 < i < path.len() ==> parents(roles, path[i - 1]).contains(#[trigger] path[i])
}

/// `to` is `from` or a role `from` inherits, directly or not.
pub open spec fn inherits(roles: Map<Seq<char>, Role>, from: Seq<char>, to: Seq<char>) -> bool {
    exists|path: Seq<Seq<char>>| #[trigger] is_chain(roles, path) && path[0] == from && path.last() == to
}

/// Every role reached from `start`, `start` included.
pub open spec fn role_closure(roles: Map<Seq<char>, Role>, start: Set<Seq<char>>) -> Set<Seq<char>> {
    Set::new(|x: Seq<char>| exists|d: Seq<char>| #[trigger] start.contains(d) && inherits(roles, d, x))
}

/// Every role inherits itself.
pub proof fn lemma_inherits_self(roles: Map<Seq<char>, Role>, r: Seq<char>)
    ensures
        inherits(roles, r, r),
{
    let path = seq![r];
    assert(is_chain(roles, path));
}

/// Inheriting a parent's inheritance.
pub proof fn lemma_inherits_step(roles: Map<Seq<char>, Role>, r: Seq<char>, p: Seq<char>, x: Seq<char>)
    requires
        parents(roles, r).contains(p),
        inherits(roles, p, x),
    ensures
        inherits(roles, r, x),
{
    let path = choose|path: Seq<Seq<char>>| #[trigger] is_chain(roles, path) && path[0] == p && path.last() == x;
    let longer = seq![r] + path;
    assert forall|i: int| 0 < i < longer.len() implies parents(roles, longer[i - 1]).contains(#[trigger] longer[i]) by {
        if i == 1 {
            assert(longer[1] == path[0]);
        } else {
            assert(longer[i - 1] == path[i - 2]);
            assert(longer[i] == path[i - 1]);
        }
    }
    assert(is_chain(roles, longer));
    assert(longer.last() == path.last());
}

/// A set that holds `start` and every parent of its members holds the whole closure of `start`.
pub proof fn lemma_closed_holds_closure(roles: Map<Seq<char>, Role>, start: Set<Seq<char>>, s: Set<Seq<char>>)
    requires
        start.subset_of(s),
        forall|x: Seq<char>, p: Seq<char>| #[trigger] s.contains(x) && parents(roles, x).contains(p) ==> #[trigger] s.contains(p),
    ensures
        role_closure(roles, start).subset_of(s),
{
    assert forall|x: Seq<char>| role_closure(roles, start).contains(x) implies s.contains(x) by {
        let d = choose|d: Seq<char>| #[trigger] start.contains(d) && inherits(roles, d, x);
        let path = choose|path: Seq<Seq<char>>| #[trigger] is_chain(roles, path) && path[0] == d && path.last() == x;
        lemma_chain_in_closed(roles, path, s, path.len() - 1);
    }
}

/// Every role of a chain that starts in a closed set is in that set.
proof fn lemma_chain_in_closed(roles: Map<Seq<char>, Role>, path: Seq<Seq<char>>, s: Set<Seq<char>>, n: int)
    requires
        is_chain(roles, path),
        s.contains(path[0]),
        0 <= n < path.len(),
        forall|x: Seq<char>, p: Seq<char>| #[trigger] s.contains(x) && parents(roles, x).contains(p) ==> #[trigger] s.contains(p),
    ensures
        s.contains(path[n]),
    decreases n,
{
    if n > 0 {
        lemma_chain_in_closed(roles, path, s, n - 1);
        assert(parents(roles, path[n - 1]).contains(path[n]));
    }
}

} // verus!
