//! The concurrent maps that hold the routing tables, keyed by user id and by
//! chat id, and what each holds as mathematical maps.
use vstd::prelude::*;
use dashmap::DashMap;
use crate::registry::UserSocket;
use crate::text::ids_of;

verus! {

#[verifier::external_type_specification]
#[verifier::external_body]
#[verifier::reject_recursive_types(K)]
#[verifier::reject_recursive_types(V)]
#[verifier::reject_recursive_types(S)]
pub struct ExDashMap<K, V, S>(DashMap<K, V, S>);

/// A presence record as plain values: online, last seen, the live channel
/// handles, and the cached chat ids.
pub type SocketModel = (bool, Option<u64>, Seq<u64>, Seq<Seq<char>>);

/// The plain values a presence record holds.
pub open spec fn socket_model(s: UserSocket) -> SocketModel {
    (s.online, s.last_seen_s, s.channel@, ids_of(s.chats@))
}

/// Presence records by user id.
pub type PresenceTable = DashMap<String, UserSocket>;

/// Member lists by chat id.
pub type MemberTable = DashMap<String, Vec<String>>;

/// What the presence table holds, by user id.
pub uninterp spec fn presence_entries(m: PresenceTable) -> Map<Seq<char>, SocketModel>;

/// What the membership table holds: the member ids of each chat, by chat id.
pub uninterp spec fn member_entries(m: MemberTable) -> Map<Seq<char>, Seq<Seq<char>>>;

/// A copy of a list of ids.
pub fn copy_ids(v: &Vec<String>) -> (r: Vec<String>)
    ensures
        r@ == v@,
{
    let mut out: Vec<String> = Vec::new();
    let mut i: usize = 0;
    while i < v.len()
        invariant
            i <= v.len(),
            out@ == v@.subrange(0, i as int),
        decreases v.len() - i,
    {
        out.push(v[i].clone());
        assert(out@ =~= v@.subrange(0, i + 1));
        i = i + 1;
    }
    assert(v@.subrange(0, i as int) == v@);
    out
}

/// A copy of a presence record.
pub fn copy_socket(s: &UserSocket) -> (r: UserSocket)
    ensures
        socket_model(r) == socket_model(*s),
{
    let mut channel: Vec<u64> = Vec::new();
    let mut i: usize = 0;
    while i < s.channel.len()
        invariant
            i <= s.channel.len(),
            channel@ == s.channel@.subrange(0, i as int),
        decreases s.channel.len() - i,
    {
        channel.push(s.channel[i]);
        assert(channel@ =~= s.channel@.subrange(0, i + 1));
        i = i + 1;
    }
    assert(s.channel@.subrange(0, i as int) == s.channel@);
    UserSocket { online: s.online, last_seen_s: s.last_seen_s, channel, chats: copy_ids(&s.chats) }
}

/// Relies on `dashmap::DashMap::new`: an empty map.
#[verifier::external_body]
pub(crate) fn new_presence_table() -> (r: PresenceTable)
    ensures
        presence_entries(r).dom() == Set::<Seq<char>>::empty(),
{
    DashMap::new()
}

/// Relies on `dashmap::DashMap::contains_key`: whether a record is held
/// under the key.
#[verifier::external_body]
pub(crate) fn presence_contains(m: &PresenceTable, k: &str) -> (r: bool)
    ensures
        r == presence_entries(*m).contains_key(k@),
{
    m.contains_key(k)
}

/// Relies on `dashmap::DashMap::insert`: the record is held under the key,
/// replacing any record held there.
#[verifier::external_body]
pub(crate) fn presence_insert(m: &mut PresenceTable, k: String, v: UserSocket)
    ensures
        presence_entries(*final(m)) == presence_entries(*old(m)).insert(k@, socket_model(v)),
{
    m.insert(k, v);
}

/// Relies on `dashmap::DashMap::remove`: takes the record under the key
/// out of the map.
#[verifier::external_body]
pub(crate) fn presence_remove(m: &mut PresenceTable, k: &str) -> (r: Option<UserSocket>)
    ensures
        presence_entries(*final(m)) == presence_entries(*old(m)).remove(k@),
        (r is Some) == presence_entries(*old(m)).contains_key(k@),
        r is Some ==> socket_model(r.unwrap()) == presence_entries(*old(m))[k@],
{
    m.remove(k).map(|(_, v)| v)
}

/// Relies on `dashmap::DashMap::get`: reads the record under the key,
/// which is copied out.
#[verifier::external_body]
pub(crate) fn presence_get(m: &PresenceTable, k: &str) -> (r: Option<UserSocket>)
    ensures
        (r is Some) == presence_entries(*m).contains_key(k@),
        r is Some ==> socket_model(r.unwrap()) == presence_entries(*m)[k@],
{
    m.get(k).map(|s| copy_socket(&s))
}

/// Relies on `dashmap::DashMap::new`: an empty map.
#[verifier::external_body]
pub(crate) fn new_member_table() -> (r: MemberTable)
    ensures
        member_entries(r).dom() == Set::<Seq<char>>::empty(),
{
    DashMap::new()
}

/// Relies on `dashmap::DashMap::contains_key`: whether a member list is
/// held under the key.
#[verifier::external_body]
pub(crate) fn member_contains(m: &MemberTable, k: &str) -> (r: bool)
    ensures
        r == member_entries(*m).contains_key(k@),
{
    m.contains_key(k)
}

/// Relies on `dashmap::DashMap::insert`: the list is held under the key,
/// replacing any list held there.
#[verifier::external_body]
pub(crate) fn member_insert(m: &mut MemberTable, k: String, v: Vec<String>)
    ensures
        member_entries(*final(m)) == member_entries(*old(m)).insert(k@, ids_of(v@)),
{
    m.insert(k, v);
}

/// Relies on `dashmap::DashMap::remove`: takes the list under the key out
/// of the map.
#[verifier::external_body]
pub(crate) fn member_remove(m: &mut MemberTable, k: &str) -> (r: Option<Vec<String>>)
    ensures
        member_entries(*final(m)) == member_entries(*old(m)).remove(k@),
        (r is Some) == member_entries(*old(m)).contains_key(k@),
        r is Some ==> ids_of(r.unwrap()@) == member_entries(*old(m))[k@],
{
    m.remove(k).map(|(_, v)| v)
}

/// Relies on `dashmap::DashMap::get`: reads the list under the key, which
/// is copied out.
#[verifier::external_body]
pub(crate) fn member_get(m: &MemberTable, k: &str) -> (r: Option<Vec<String>>)
    ensures
        (r is Some) == member_entries(*m).contains_key(k@),
        r is Some ==> ids_of(r.unwrap()@) == member_entries(*m)[k@],
{
    m.get(k).map(|v| copy_ids(&v))
}

} // verus!
