//! Relation lists: what each user's list says of a peer, how the two sides
//! of a relation mirror each other, and the list updates (append, set the
//! first entry, remove every entry) that the friend transitions are made of.
use vstd::prelude::*;
use crate::model::{Relation, RelationStatus, User};
use crate::text::id_eq;

verus! {

/// The status of the first entry of `rels` for `peer`, if there is one.
pub open spec fn entry_of(rels: Seq<Relation>, peer: Seq<char>) -> Option<RelationStatus>
    decreases rels.len(),
{
    if rels.len() == 0 {
        None
    } else if rels[0].id@ == peer {
        Some(rels[0].status)
    } else {
        entry_of(rels.drop_first(), peer)
    }
}

/// How the owner of `rels` stands towards `peer`; no entry means `Unrelated`.
pub open spec fn status_in(rels: Seq<Relation>, peer: Seq<char>) -> RelationStatus {
    match entry_of(rels, peer) {
        Some(s) => s,
        None => RelationStatus::Unrelated,
    }
}

/// How a user stands towards `peer`; a user without a profile has no relations.
pub open spec fn relationship_spec(u: User, peer: Seq<char>) -> RelationStatus {
    match u.profile {
        Some(p) => status_in(p.relations@, peer),
        None => RelationStatus::Unrelated,
    }
}

/// The status that the other side of a relation holds.
pub open spec fn mirror(s: RelationStatus) -> RelationStatus {
    match s {
        RelationStatus::Unrelated => RelationStatus::Unrelated,
        RelationStatus::Friend => RelationStatus::Friend,
        RelationStatus::Blocked => RelationStatus::BlockedByOther,
        RelationStatus::BlockedByOther => RelationStatus::Blocked,
        RelationStatus::Incoming => RelationStatus::Outgoing,
        RelationStatus::Outgoing => RelationStatus::Incoming,
    }
}

/// `a`'s view of `b` and `b`'s view of `a` are mirror images.
pub open spec fn mirrored(a_rels: Seq<Relation>, a: Seq<char>, b_rels: Seq<Relation>, b: Seq<char>) -> bool {
    status_in(a_rels, b) == mirror(status_in(b_rels, a))
}

/// No two entries of the list name the same peer.
pub open spec fn unique_peers(rels: Seq<Relation>) -> bool {
    forall|i: int, j: int|
        0 <= i < rels.len() && 0 <= j < rels.len() && i != j ==> rels[i].id@ != rels[j].id@
}

/// No entry stores `Unrelated`: the absence of an entry means it.
pub open spec fn no_stored_unrelated(rels: Seq<Relation>) -> bool {
    forall|i: int| 0 <= i < rels.len() ==> rels[i].status != RelationStatus::Unrelated
}

/// `new` is `old` with one entry for `id` with status `st` appended.
pub open spec fn pushed(old: Seq<Relation>, new: Seq<Relation>, id: Seq<char>, st: RelationStatus) -> bool {
    &&& new.len() == old.len() + 1
    &&& new.subrange(0, old.len() as int) == old
    &&& new[old.len() as int].id@ == id
    &&& new[old.len() as int].status == st
}

/// `new` is `old` with the first entry for `id`, if any, set to status `st`.
pub open spec fn status_set(old: Seq<Relation>, new: Seq<Relation>, id: Seq<char>, st: RelationStatus) -> bool {
    &&& new.len() == old.len()
    &&& forall|i: int| 0 <= i < new.len() ==> new[i].id@ == old[i].id@
    &&& forall|i: int| 0 <= i < new.len() ==> new[i].status == old[i].status || new[i].status == st
    &&& forall|p: Seq<char>|
        entry_of(new, p) == if p == id && entry_of(old, p) is Some {
            Some(st)
        } else {
            entry_of(old, p)
        }
}

/// `new` is `old` without any entry for `id`, the others kept in order.
pub open spec fn pulled(old: Seq<Relation>, new: Seq<Relation>, id: Seq<char>) -> bool {
    &&& forall|p: Seq<char>| entry_of(new, p) == if p == id { None } else { entry_of(old, p) }
    &&& forall|i: int| 0 <= i < new.len() ==> new[i].id@ != id
    &&& forall|i: int| #![trigger new[i]] 0 <= i < new.len() ==> exists|j: int| #![trigger old[j]] 0 <= j < old.len() && new[i] == old[j]
    &&& unique_peers(old) ==> unique_peers(new)
}

pub(crate) proof fn lemma_entry_push(s: Seq<Relation>, x: Relation, p: Seq<char>)
    ensures
        entry_of(s.push(x), p) == match entry_of(s, p) {
            Some(v) => Some(v),
            None => if x.id@ == p { Some(x.status) } else { None },
        },
    decreases s.len(),
{
    if s.len() > 0 {
        assert(s.push(x).drop_first() =~= s.drop_first().push(x));
        assert(s.push(x)[0] == s[0]);
        lemma_entry_push(s.drop_first(), x, p);
    } else {
        assert(s.push(x).drop_first() =~= Seq::<Relation>::empty());
        assert(s.push(x)[0] == x);
        assert(entry_of(s.push(x).drop_first(), p) is None);
    }
}

pub(crate) proof fn lemma_entry_none(s: Seq<Relation>, p: Seq<char>)
    ensures
        (entry_of(s, p) is None) == (forall|i: int| 0 <= i < s.len() ==> s[i].id@ != p),
    decreases s.len(),
{
    if s.len() > 0 {
        lemma_entry_none(s.drop_first(), p);
        if s[0].id@ != p {
            assert forall|i: int| 0 <= i < s.len() && (forall|k: int| 0 <= k < s.len() - 1 ==> s.drop_first()[k].id@ != p) implies s[i].id@ != p by {
                if i > 0 {
                    assert(s[i] == s.drop_first()[i - 1]);
                }
            }
            if exists|i: int| 0 <= i < s.len() - 1 && s.drop_first()[i].id@ == p {
                let i = choose|i: int| 0 <= i < s.len() - 1 && s.drop_first()[i].id@ == p;
                assert(s[i + 1].id@ == p);
            }
        }
    }
}

pub(crate) proof fn lemma_entry_some(s: Seq<Relation>, p: Seq<char>)
    requires
        entry_of(s, p) is Some,
    ensures
        exists|i: int| 0 <= i < s.len() && s[i].id@ == p && s[i].status == entry_of(s, p).unwrap(),
    decreases s.len(),
{
    if s[0].id@ != p {
        lemma_entry_some(s.drop_first(), p);
        let i = choose|i: int|
            0 <= i < s.len() - 1 && s.drop_first()[i].id@ == p && s.drop_first()[i].status == entry_of(s.drop_first(), p).unwrap();
        assert(s[i + 1] == s.drop_first()[i]);
    }
}

proof fn lemma_take_push(s: Seq<Relation>, i: int)
    requires
        0 <= i < s.len(),
    ensures
        s.subrange(0, i + 1) == s.subrange(0, i).push(s[i]),
{
    assert(s.subrange(0, i + 1) =~= s.subrange(0, i).push(s[i]));
}

/// How the owner of `rels` stands towards `peer`.
pub fn relation_status(rels: &Vec<Relation>, peer: &str) -> (r: RelationStatus)
    ensures
        r == status_in(rels@, peer@),
{
    let mut i: usize = 0;
    while i < rels.len()
        invariant
            i <= rels.len(),
            entry_of(rels@.subrange(0, i as int), peer@) is None,
        decreases rels.len() - i,
    {
        proof {
            lemma_take_push(rels@, i as int);
            lemma_entry_push(rels@.subrange(0, i as int), rels@[i as int], peer@);
        }
        if id_eq(rels[i].id.as_str(), peer) {
            proof {
                lemma_entry_prefix(rels@, i as int + 1, peer@);
            }
            return rels[i].status;
        }
        i = i + 1;
    }
    assert(rels@.subrange(0, i as int) == rels@);
    RelationStatus::Unrelated
}

proof fn lemma_entry_prefix(s: Seq<Relation>, n: int, p: Seq<char>)
    requires
        0 <= n <= s.len(),
        entry_of(s.subrange(0, n), p) is Some,
    ensures
        entry_of(s, p) == entry_of(s.subrange(0, n), p),
    decreases s.len() - n,
{
    if n < s.len() {
        lemma_take_push(s, n);
        lemma_entry_push(s.subrange(0, n), s[n], p);
        lemma_entry_prefix(s, n + 1, p);
    } else {
        assert(s.subrange(0, n) == s);
    }
}

/// How `user` stands towards `peer`.
pub fn relationship_of(user: &User, peer: &str) -> (r: RelationStatus)
    ensures
        r == relationship_spec(*user, peer@),
{
    match &user.profile {
        Some(profile) => relation_status(&profile.relations, peer),
        None => RelationStatus::Unrelated,
    }
}

/// Appends an entry for `id` with status `status`.
pub fn push_relation(rels: &mut Vec<Relation>, id: String, status: RelationStatus)
    ensures
        pushed(old(rels)@, final(rels)@, id@, status),
{
    rels.push(Relation { id, status });
    assert(final(rels)@.subrange(0, old(rels)@.len() as int) =~= old(rels)@);
}

/// Sets the first entry for `id`, if any, to `status`.
pub fn set_relation_status(rels: &mut Vec<Relation>, id: &str, status: RelationStatus)
    ensures
        status_set(old(rels)@, final(rels)@, id@, status),
{
    let ghost old_rels = rels@;
    let mut out: Vec<Relation> = Vec::new();
    let mut found = false;
    let mut i: usize = 0;
    while i < rels.len()
        invariant
            rels@ == old_rels,
            i <= rels.len(),
            out.len() == i,
            found == (entry_of(old_rels.subrange(0, i as int), id@) is Some),
            forall|j: int| 0 <= j < i ==> out@[j].id@ == old_rels[j].id@,
            forall|j: int| 0 <= j < i ==> out@[j].status == old_rels[j].status || out@[j].status == status,
            forall|p: Seq<char>|
                entry_of(out@, p) == if p == id@ && entry_of(old_rels.subrange(0, i as int), p) is Some {
                    Some(status)
                } else {
                    entry_of(old_rels.subrange(0, i as int), p)
                },
        decreases rels.len() - i,
    {
        let item = &rels[i];
        let hit = !found && id_eq(item.id.as_str(), id);
        let next = Relation {
            id: item.id.clone(),
            status: if hit { status } else { item.status },
        };
        proof {
            lemma_take_push(old_rels, i as int);
            lemma_entry_push(old_rels.subrange(0, i as int), old_rels[i as int], id@);
            assert forall|p: Seq<char>|
                entry_of(out@.push(next), p) == if p == id@ && entry_of(old_rels.subrange(0, i + 1), p) is Some {
                    Some(status)
                } else {
                    entry_of(old_rels.subrange(0, i + 1), p)
                } by {
                lemma_entry_push(out@, next, p);
                lemma_entry_push(old_rels.subrange(0, i as int), old_rels[i as int], p);
            }
        }
        out.push(next);
        if hit {
            found = true;
        }
        i = i + 1;
    }
    assert(old_rels.subrange(0, i as int) == old_rels);
    *rels = out;
}

/// Removes every entry for `id`, keeping the others in order.
pub fn pull_relation(rels: &mut Vec<Relation>, id: &str)
    ensures
        pulled(old(rels)@, final(rels)@, id@),
{
    let ghost old_rels = rels@;
    let mut out: Vec<Relation> = Vec::new();
    let mut i: usize = 0;
    while i < rels.len()
        invariant
            rels@ == old_rels,
            i <= rels.len(),
            forall|p: Seq<char>|
                entry_of(out@, p) == if p == id@ { None } else { entry_of(old_rels.subrange(0, i as int), p) },
            forall|j: int| 0 <= j < out.len() ==> out@[j].id@ != id@,
            forall|j: int| #![trigger out@[j]] 0 <= j < out.len() ==> exists|k: int| #![trigger old_rels[k]] 0 <= k < i && out@[j] == old_rels[k],
            unique_peers(old_rels) ==> unique_peers(out@),
        decreases rels.len() - i,
    {
        proof {
            lemma_take_push(old_rels, i as int);
        }
        if !id_eq(rels[i].id.as_str(), id) {
            let next = Relation { id: rels[i].id.clone(), status: rels[i].status };
            proof {
                let ghost grown = out@.push(next);
                assert(grown[out.len() as int] == old_rels[i as int]);
                assert forall|j: int| #![trigger grown[j]] 0 <= j < grown.len() implies exists|k: int| #![trigger old_rels[k]] 0 <= k < i + 1 && grown[j] == old_rels[k] by {
                    if j < out.len() {
                        assert(grown[j] == out@[j]);
                    }
                }
                if unique_peers(old_rels) {
                    assert forall|a: int, b: int| 0 <= a < grown.len() && 0 <= b < grown.len() && a != b implies grown[a].id@ != grown[b].id@ by {
                        if a < out.len() && b < out.len() {
                            assert(grown[a] == out@[a] && grown[b] == out@[b]);
                        } else if a < out.len() {
                            let k = choose|k: int| 0 <= k < i && out@[a] == old_rels[k];
                            assert(grown[a] == old_rels[k]);
                        } else {
                            let k = choose|k: int| 0 <= k < i && out@[b] == old_rels[k];
                            assert(grown[b] == old_rels[k]);
                        }
                    }
                }
                assert forall|p: Seq<char>|
                    entry_of(out@.push(next), p) == if p == id@ { None } else { entry_of(old_rels.subrange(0, i + 1), p) } by {
                    lemma_entry_push(out@, next, p);
                    lemma_entry_push(old_rels.subrange(0, i as int), old_rels[i as int], p);
                }
            }
            out.push(next);
        } else {
            proof {
                assert forall|p: Seq<char>|
                    entry_of(out@, p) == if p == id@ { None } else { entry_of(old_rels.subrange(0, i + 1), p) } by {
                    lemma_entry_push(old_rels.subrange(0, i as int), old_rels[i as int], p);
                }
            }
        }
        i = i + 1;
    }
    assert(old_rels.subrange(0, i as int) == old_rels);
    *rels = out;
}

} // verus!
