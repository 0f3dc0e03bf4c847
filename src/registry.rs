//! The in-process routing tables: who is connected on which channels, and
//! which users take part in which chat. Events are fanned out from here to
//! channel handles; sending on them is left to the caller.
use vstd::prelude::*;
use crate::tables::{
    member_contains, member_entries, member_get, member_insert, member_remove, new_member_table,
    new_presence_table, presence_contains, presence_entries, presence_get, presence_insert, presence_remove,
    MemberTable, PresenceTable, SocketModel,
};
use crate::text::{
    contains_id, distinct_ids, id_eq, id_set, ids_of, lemma_id_set_full, lemma_id_set_prefix,
    lemma_ids_model, lemma_ids_of_contains, lemma_push_fresh_id, seq_set, without_id,
};

verus! {

/// The presence record of one user: whether any channel is live, when the
/// last one closed, the live channel handles, and the chats the user takes
/// part in as last loaded.
pub struct UserSocket {
    pub online: bool,
    pub last_seen_s: Option<u64>,
    pub channel: Vec<u64>,
    pub chats: Vec<String>,
}

/// A user is online exactly while a channel is live, has a last-seen time
/// exactly while offline, and caches each chat once.
pub open spec fn presence_ok(s: SocketModel) -> bool {
    &&& s.0 == (s.2.len() > 0)
    &&& (s.1 is None) == s.0
    &&& s.3.no_duplicates()
}

/// The list without any occurrence of `x`, in order.
pub open spec fn without_channel(s: Seq<u64>, x: u64) -> Seq<u64>
    decreases s.len(),
{
    if s.len() == 0 {
        s
    } else if s.last() == x {
        without_channel(s.drop_last(), x)
    } else {
        without_channel(s.drop_last(), x).push(s.last())
    }
}

/// `b` knows the same users as `a`, each with the same online flag,
/// last-seen time and channels.
pub open spec fn keeps_presence(a: AppState, b: AppState) -> bool {
    forall|u: Seq<char>| #![trigger b.socket_view().contains_key(u)] {
        &&& b.socket_view().contains_key(u) == a.socket_view().contains_key(u)
        &&& b.socket_view().contains_key(u) ==> {
            &&& b.socket_view()[u].0 == a.socket_view()[u].0
            &&& b.socket_view()[u].1 == a.socket_view()[u].1
            &&& b.socket_view()[u].2 == a.socket_view()[u].2
        }
    }
}

/// The presence registry and the chat membership index.
pub struct AppState {
    sockets: PresenceTable,
    chats: MemberTable,
}

impl AppState {
    /// The presence record of each known user: online, last seen, live
    /// channels, cached chats.
    pub closed spec fn socket_view(&self) -> Map<Seq<char>, SocketModel> {
        presence_entries(self.sockets)
    }

    /// The member list of each indexed chat, in the order members joined.
    pub closed spec fn member_view(&self) -> Map<Seq<char>, Seq<Seq<char>>> {
        member_entries(self.chats)
    }

    /// Whether the chat has an entry in the membership index.
    pub open spec fn indexed(&self, chat: Seq<char>) -> bool {
        self.member_view().contains_key(chat)
    }

    /// The members of a chat, in the order they joined; none where it has no entry.
    pub open spec fn member_list(&self, chat: Seq<char>) -> Seq<Seq<char>> {
        if self.member_view().contains_key(chat) {
            self.member_view()[chat]
        } else {
            Seq::empty()
        }
    }

    /// The members of a chat; empty where it has no entry.
    pub open spec fn members(&self, chat: Seq<char>) -> Set<Seq<char>> {
        if self.member_view().contains_key(chat) {
            seq_set(self.member_view()[chat])
        } else {
            Set::empty()
        }
    }

    /// The live channels of a user; none for an unknown user.
    pub open spec fn channels_of(&self, user: Seq<char>) -> Seq<u64> {
        if self.socket_view().contains_key(user) {
            self.socket_view()[user].2
        } else {
            Seq::empty()
        }
    }

    /// The chats cached for a user; none for an unknown user.
    pub open spec fn chats_of(&self, user: Seq<char>) -> Set<Seq<char>> {
        if self.socket_view().contains_key(user) {
            seq_set(self.socket_view()[user].3)
        } else {
            Set::empty()
        }
    }

    /// Every presence record is consistent, and every indexed chat has at
    /// least one member, each listed once.
    pub closed spec fn wf(&self) -> bool {
        &&& forall|u: Seq<char>| #[trigger] presence_entries(self.sockets).contains_key(u)
            ==> presence_ok(presence_entries(self.sockets)[u])
        &&& forall|c: Seq<char>| #[trigger] member_entries(self.chats).contains_key(c)
            ==> member_entries(self.chats)[c].len() > 0 && member_entries(self.chats)[c].no_duplicates()
    }

    /// The channels reached by sending to each user of `ids` in turn,
    /// skipping `except`.
    pub open spec fn fanout(&self, ids: Seq<Seq<char>>, except: Option<Seq<char>>) -> Seq<u64>
        decreases ids.len(),
    {
        if ids.len() == 0 {
            Seq::empty()
        } else if except == Some(ids.last()) {
            self.fanout(ids.drop_last(), except)
        } else {
            self.fanout(ids.drop_last(), except) + self.channels_of(ids.last())
        }
    }


    /// Empty tables.
    pub fn new() -> (r: AppState)
        ensures
            r.wf(),
            r.socket_view() == Map::<Seq<char>, SocketModel>::empty(),
            r.member_view() == Map::<Seq<char>, Seq<Seq<char>>>::empty(),
    {
        let r = AppState { sockets: new_presence_table(), chats: new_member_table() };
        assert(r.socket_view() =~= Map::<Seq<char>, SocketModel>::empty());
        assert(r.member_view() =~= Map::<Seq<char>, Seq<Seq<char>>>::empty());
        r
    }

    proof fn lemma_members_nonempty(&self, c: Seq<char>)
        requires
            self.wf(),
        ensures
            self.indexed(c) == (self.members(c) != Set::<Seq<char>>::empty()),
    {
        if self.indexed(c) {
            let m = member_entries(self.chats)[c];
            assert(seq_set(m).contains(m[0]));
        }
    }

    /// A chat has an entry in the index exactly when it has a member.
    pub proof fn lemma_indexed_iff_members(&self, c: Seq<char>)
        requires
            self.wf(),
        ensures
            self.indexed(c) == (self.members(c) != Set::<Seq<char>>::empty()),
    {
        self.lemma_members_nonempty(c);
    }

    /// Every known user is online exactly while one of its channels is live,
    /// has a last-seen time exactly while offline, and caches each chat once.
    pub proof fn lemma_presence_consistent(&self, u: Seq<char>)
        requires
            self.wf(),
            self.socket_view().contains_key(u),
        ensures
            self.socket_view()[u].0 == (self.socket_view()[u].2.len() > 0),
            (self.socket_view()[u].1 is None) == self.socket_view()[u].0,
            self.socket_view()[u].3.no_duplicates(),
    {
    }

    /// Adds `user_id` to the members of `chat_id`, creating its entry.
    pub fn add_member(&mut self, chat_id: &str, user_id: &str)
        requires
            old(self).wf(),
        ensures
            final(self).wf(),
            final(self).socket_view() == old(self).socket_view(),
            forall|c: Seq<char>| #[trigger] final(self).members(c) == if c == chat_id@ {
                old(self).members(c).insert(user_id@)
            } else {
                old(self).members(c)
            },
            forall|c: Seq<char>| #[trigger] final(self).indexed(c) == (old(self).indexed(c) || c == chat_id@),
    {
        let ghost old_chats = member_entries(self.chats);
        match member_remove(&mut self.chats, chat_id) {
            Some(mut m) => {
                proof {
                    lemma_ids_model(m@);
                }
                if !contains_id(&m, user_id) {
                    let ghost before = m@;
                    let name = user_id.to_owned();
                    proof {
                        lemma_ids_of_contains(before, user_id@);
                        lemma_push_fresh_id(before, name);
                    }
                    m.push(name);
                    proof {
                        lemma_ids_model(m@);
                        lemma_ids_model(before);
                    }
                } else {
                    proof {
                        assert(seq_set(ids_of(m@)) =~= seq_set(ids_of(m@)).insert(user_id@));
                    }
                }
                member_insert(&mut self.chats, chat_id.to_owned(), m);
            },
            None => {
                let m = vec![user_id.to_owned()];
                proof {
                    assert(ids_of(m@) =~= seq![user_id@]);
                    assert(seq_set(seq![user_id@]) =~= Set::<Seq<char>>::empty().insert(user_id@)) by {
                        assert(seq![user_id@][0] == user_id@);
                    }
                }
                member_insert(&mut self.chats, chat_id.to_owned(), m);
            },
        }
        proof {
            assert forall|c: Seq<char>| #[trigger] member_entries(self.chats).contains_key(c) implies
                member_entries(self.chats)[c].len() > 0 && member_entries(self.chats)[c].no_duplicates() by {
                if c != chat_id@ {
                    assert(old_chats.contains_key(c));
                }
            }
        }
    }

    /// Removes `user_id` from the members of `chat_id`; an entry left without
    /// members is deleted.
    pub fn remove_member(&mut self, chat_id: &str, user_id: &str)
        requires
            old(self).wf(),
        ensures
            final(self).wf(),
            final(self).socket_view() == old(self).socket_view(),
            forall|c: Seq<char>| #[trigger] final(self).members(c) == if c == chat_id@ {
                old(self).members(c).remove(user_id@)
            } else {
                old(self).members(c)
            },
    {
        let ghost old_chats = member_entries(self.chats);
        match member_remove(&mut self.chats, chat_id) {
            Some(m) => {
                let rest = without_id(&m, user_id);
                proof {
                    lemma_ids_model(m@);
                    lemma_ids_model(rest@);
                }
                if rest.len() > 0 {
                    member_insert(&mut self.chats, chat_id.to_owned(), rest);
                } else {
                    assert(seq_set(ids_of(rest@)) =~= Set::<Seq<char>>::empty());
                }
            },
            None => {
                assert(old(self).members(chat_id@).remove(user_id@) =~= Set::<Seq<char>>::empty());
            },
        }
        proof {
            assert forall|c: Seq<char>| #[trigger] member_entries(self.chats).contains_key(c) implies
                member_entries(self.chats)[c].len() > 0 && member_entries(self.chats)[c].no_duplicates() by {
                if c != chat_id@ {
                    assert(old_chats.contains_key(c));
                }
            }
        }
    }
}

impl AppState {
    /// Registers a new live channel for `user_id`, marks the user online, and
    /// replaces the user's cached chats with `chat_ids` as freshly loaded
    /// (each kept once): the user joins each of them and leaves each formerly cached chat that
    /// is not among them. Returns whether the user was offline before.
    pub fn connect(&mut self, user_id: &str, channel: u64, chat_ids: Vec<String>) -> (was_offline: bool)
        requires
            old(self).wf(),
        ensures
            final(self).wf(),
            was_offline == !(old(self).socket_view().contains_key(user_id@) && old(self).socket_view()[user_id@].0),
            final(self).socket_view().contains_key(user_id@),
            final(self).socket_view()[user_id@].0,
            final(self).socket_view()[user_id@].1 is None,
            final(self).channels_of(user_id@) == old(self).channels_of(user_id@).push(channel),
            seq_set(final(self).socket_view()[user_id@].3) == id_set(chat_ids@),
            final(self).socket_view().remove(user_id@) == old(self).socket_view().remove(user_id@),
            forall|c: Seq<char>| #[trigger] final(self).members(c) == if id_set(chat_ids@).contains(c) {
                old(self).members(c).insert(user_id@)
            } else if old(self).chats_of(user_id@).contains(c) {
                old(self).members(c).remove(user_id@)
            } else {
                old(self).members(c)
            },
    {
        let mut i: usize = 0;
        let mut cache: Vec<String> = Vec::new();
        proof {
            lemma_id_set_full(chat_ids@);
            assert(id_set(cache@) =~= Set::<Seq<char>>::empty());
        }
        while i < chat_ids.len()
            invariant
                self.wf(),
                i <= chat_ids.len(),
                self.socket_view() == old(self).socket_view(),
                id_set(cache@) == id_set(chat_ids@.subrange(0, i as int)),
                distinct_ids(cache@),
                forall|c: Seq<char>| #[trigger] self.members(c) == if id_set(chat_ids@.subrange(0, i as int)).contains(c) {
                    old(self).members(c).insert(user_id@)
                } else {
                    old(self).members(c)
                },
            decreases chat_ids.len() - i,
        {
            proof {
                lemma_id_set_prefix(chat_ids@, i as int);
                lemma_ids_of_contains(cache@, chat_ids@[i as int]@);
            }
            self.add_member(chat_ids[i].as_str(), user_id);
            if !contains_id(&cache, chat_ids[i].as_str()) {
                let ghost prev = cache@;
                let name = chat_ids[i].clone();
                proof {
                    lemma_push_fresh_id(prev, name);
                }
                cache.push(name);
            } else {
                proof {
                    assert(id_set(cache@) =~= id_set(cache@).insert(chat_ids@[i as int]@));
                }
            }
            i = i + 1;
        }
        proof {
            lemma_id_set_full(chat_ids@);
        }
        let ghost mid = *self;
        let entry = presence_remove(&mut self.sockets, user_id);
        assert forall|c: Seq<char>| #[trigger] self.members(c) == mid.members(c) by {}
        let (was_offline, mut channels, old_chats) = match entry {
            Some(s) => (!s.online, s.channel, s.chats),
            None => (true, Vec::new(), Vec::new()),
        };
        proof {
            lemma_ids_model(old_chats@);
            if !old(self).socket_view().contains_key(user_id@) {
                assert(id_set(old_chats@) =~= Set::<Seq<char>>::empty());
            }
        }
        assert(id_set(old_chats@) == old(self).chats_of(user_id@));
        let mut j: usize = 0;
        proof {
            lemma_id_set_full(old_chats@);
        }
        while j < old_chats.len()
            invariant
                self.wf(),
                presence_entries(self.sockets) == old(self).socket_view().remove(user_id@),
                j <= old_chats.len(),
                forall|c: Seq<char>| #[trigger] self.members(c) == if id_set(chat_ids@).contains(c) {
                    old(self).members(c).insert(user_id@)
                } else if id_set(old_chats@.subrange(0, j as int)).contains(c) {
                    old(self).members(c).remove(user_id@)
                } else {
                    old(self).members(c)
                },
            decreases old_chats.len() - j,
        {
            proof {
                lemma_id_set_prefix(old_chats@, j as int);
                lemma_ids_of_contains(chat_ids@, old_chats@[j as int]@);
            }
            if !contains_id(&chat_ids, old_chats[j].as_str()) {
                self.remove_member(old_chats[j].as_str(), user_id);
            }
            j = j + 1;
        }
        proof {
            lemma_id_set_full(old_chats@);
        }
        channels.push(channel);
        let ghost before_insert = *self;
        proof {
            lemma_ids_model(cache@);
        }
        presence_insert(&mut self.sockets, user_id.to_owned(), UserSocket { online: true, last_seen_s: None, channel: channels, chats: cache });
        proof {
            assert forall|c: Seq<char>| #[trigger] self.members(c) == before_insert.members(c) by {}
            assert(self.socket_view().remove(user_id@) =~= old(self).socket_view().remove(user_id@));
        }
        was_offline
    }

    /// Closes one channel of `user_id`: every occurrence of the handle is
    /// dropped. Where no channel is left, the user goes offline with
    /// `now_s` as last seen, leaves every cached chat (a chat left without
    /// members is deleted from the index), and its cache is emptied; the
    /// last-seen time is then returned. An unknown user is ignored.
    pub fn disconnect(&mut self, user_id: &str, channel: u64, now_s: u64) -> (r: Option<u64>)
        requires
            old(self).wf(),
        ensures
            final(self).wf(),
            !old(self).socket_view().contains_key(user_id@) ==> r is None
                && final(self).socket_view() == old(self).socket_view()
                && forall|c: Seq<char>| #[trigger] final(self).members(c) == old(self).members(c),
            old(self).socket_view().contains_key(user_id@) ==> {
                let rest = without_channel(old(self).socket_view()[user_id@].2, channel);
                &&& final(self).socket_view().contains_key(user_id@)
                &&& final(self).socket_view()[user_id@].2 == rest
                &&& final(self).socket_view().remove(user_id@) == old(self).socket_view().remove(user_id@)
                &&& if rest.len() == 0 {
                    &&& r == Some(now_s)
                    &&& !final(self).socket_view()[user_id@].0
                    &&& final(self).socket_view()[user_id@].1 == Some(now_s)
                    &&& final(self).socket_view()[user_id@].3.len() == 0
                    &&& forall|c: Seq<char>| #[trigger] final(self).members(c) == if old(self).chats_of(user_id@).contains(c) {
                        old(self).members(c).remove(user_id@)
                    } else {
                        old(self).members(c)
                    }
                } else {
                    &&& r is None
                    &&& final(self).socket_view()[user_id@].0
                    &&& final(self).socket_view()[user_id@].1 is None
                    &&& final(self).socket_view()[user_id@].3 == old(self).socket_view()[user_id@].3
                    &&& forall|c: Seq<char>| #[trigger] final(self).members(c) == old(self).members(c)
                }
            },
            forall|c: Seq<char>| #[trigger] final(self).indexed(c) == (final(self).members(c) != Set::<Seq<char>>::empty()),
    {
        let ghost start = *self;
        let entry = presence_remove(&mut self.sockets, user_id);
        assert forall|c: Seq<char>| #[trigger] self.members(c) == start.members(c) by {}
        let s = match entry {
            Some(s) => s,
            None => {
                proof {
                    assert(self.socket_view() =~= old(self).socket_view());
                    assert forall|c: Seq<char>| #[trigger] self.indexed(c) == (self.members(c) != Set::<Seq<char>>::empty()) by {
                        self.lemma_members_nonempty(c);
                    }
                }
                return None;
            },
        };
        let mut rest: Vec<u64> = Vec::new();
        let mut i: usize = 0;
        while i < s.channel.len()
            invariant
                i <= s.channel.len(),
                rest@ == without_channel(s.channel@.subrange(0, i as int), channel),
            decreases s.channel.len() - i,
        {
            assert(s.channel@.subrange(0, i + 1).drop_last() == s.channel@.subrange(0, i as int));
            assert(s.channel@.subrange(0, i + 1).last() == s.channel@[i as int]);
            if s.channel[i] != channel {
                rest.push(s.channel[i]);
            }
            i = i + 1;
        }
        assert(s.channel@.subrange(0, i as int) == s.channel@);
        if rest.len() > 0 {
            let ghost before_insert = *self;
            presence_insert(&mut self.sockets, user_id.to_owned(), UserSocket { online: true, last_seen_s: None, channel: rest, chats: s.chats });
            proof {
                assert forall|c: Seq<char>| #[trigger] self.members(c) == before_insert.members(c) by {}
                assert(self.socket_view().remove(user_id@) =~= old(self).socket_view().remove(user_id@));
                assert forall|c: Seq<char>| #[trigger] self.indexed(c) == (self.members(c) != Set::<Seq<char>>::empty()) by {
                    self.lemma_members_nonempty(c);
                }
            }
            return None;
        }
        let old_chats = s.chats;
        proof {
            lemma_ids_model(old_chats@);
        }
        let mut j: usize = 0;
        proof {
            lemma_id_set_full(old_chats@);
        }
        while j < old_chats.len()
            invariant
                self.wf(),
                presence_entries(self.sockets) == old(self).socket_view().remove(user_id@),
                j <= old_chats.len(),
                forall|c: Seq<char>| #[trigger] self.members(c) == if id_set(old_chats@.subrange(0, j as int)).contains(c) {
                    old(self).members(c).remove(user_id@)
                } else {
                    old(self).members(c)
                },
            decreases old_chats.len() - j,
        {
            proof {
                lemma_id_set_prefix(old_chats@, j as int);
            }
            self.remove_member(old_chats[j].as_str(), user_id);
            j = j + 1;
        }
        proof {
            lemma_id_set_full(old_chats@);
        }
        let ghost before_insert = *self;
        let empty: Vec<String> = Vec::new();
        assert(ids_of(empty@) =~= Seq::<Seq<char>>::empty());
        presence_insert(
            &mut self.sockets,
            user_id.to_owned(),
            UserSocket { online: false, last_seen_s: Some(now_s), channel: rest, chats: empty },
        );
        proof {
            assert forall|c: Seq<char>| #[trigger] self.members(c) == before_insert.members(c) by {}
            assert(self.socket_view().remove(user_id@) =~= old(self).socket_view().remove(user_id@));
            assert forall|c: Seq<char>| #[trigger] self.indexed(c) == (self.members(c) != Set::<Seq<char>>::empty()) by {
                self.lemma_members_nonempty(c);
            }
        }
        Some(now_s)
    }
}

/// An optional identifier as a spec value.
pub open spec fn opt_id(x: Option<&str>) -> Option<Seq<char>> {
    match x {
        Some(s) => Some(s@),
        None => None,
    }
}

impl AppState {
    fn append_channels(&self, out: &mut Vec<u64>, user_id: &str)
        requires
            self.wf(),
        ensures
            final(out)@ == old(out)@ + self.channels_of(user_id@),
    {
        let ghost start = out@;
        match presence_get(&self.sockets, user_id) {
            Some(sock) => {
                let mut i: usize = 0;
                while i < sock.channel.len()
                    invariant
                        i <= sock.channel.len(),
                        out@ == start + sock.channel@.subrange(0, i as int),
                    decreases sock.channel.len() - i,
                {
                    out.push(sock.channel[i]);
                    assert(start + sock.channel@.subrange(0, i + 1) =~= (start + sock.channel@.subrange(0, i as int)).push(sock.channel@[i as int]));
                    i = i + 1;
                }
                assert(sock.channel@.subrange(0, i as int) == sock.channel@);
            },
            None => {
                assert(out@ =~= start + Seq::<u64>::empty());
            },
        }
    }

    /// The live channels of one user, to deliver an event to that user.
    pub fn user_channels(&self, user_id: &str) -> (r: Vec<u64>)
        requires
            self.wf(),
        ensures
            r@ == self.channels_of(user_id@),
    {
        let mut out: Vec<u64> = Vec::new();
        self.append_channels(&mut out, user_id);
        assert(out@ =~= self.channels_of(user_id@));
        out
    }

    /// The channels of each user in `ids` in turn, skipping `except`.
    pub fn users_channels(&self, ids: &Vec<String>, except: Option<&str>) -> (r: Vec<u64>)
        requires
            self.wf(),
        ensures
            r@ == self.fanout(ids_of(ids@), opt_id(except)),
    {
        let mut out: Vec<u64> = Vec::new();
        let mut i: usize = 0;
        while i < ids.len()
            invariant
                self.wf(),
                i <= ids.len(),
                out@ == self.fanout(ids_of(ids@.subrange(0, i as int)), opt_id(except)),
            decreases ids.len() - i,
        {
            let ghost pre = ids_of(ids@.subrange(0, i as int));
            let ghost next = ids_of(ids@.subrange(0, i + 1));
            assert(next.drop_last() =~= pre);
            assert(next.last() == ids@[i as int]@);
            let skip = match except {
                Some(e) => id_eq(ids[i].as_str(), e),
                None => false,
            };
            if !skip {
                self.append_channels(&mut out, ids[i].as_str());
            }
            i = i + 1;
        }
        assert(ids@.subrange(0, i as int) == ids@);
        out
    }

    /// The channels of every member of a chat, to deliver an event to the chat.
    pub fn chat_channels(&self, chat_id: &str) -> (r: Vec<u64>)
        requires
            self.wf(),
        ensures
            r@ == self.fanout(self.member_list(chat_id@), None),
    {
        match member_get(&self.chats, chat_id) {
            Some(m) => self.users_channels(&m, None),
            None => Vec::new(),
        }
    }

    /// The channels of every member of a chat but `except`: a typing
    /// indicator does not echo to the typist.
    pub fn chat_channels_except(&self, chat_id: &str, except: &str) -> (r: Vec<u64>)
        requires
            self.wf(),
        ensures
            r@ == self.fanout(self.member_list(chat_id@), Some(except@)),
    {
        match member_get(&self.chats, chat_id) {
            Some(m) => self.users_channels(&m, Some(except)),
            None => Vec::new(),
        }
    }

    /// Whether the user's cached chats include `chat_id`.
    pub fn user_perm_chat_exists(&self, user_id: &str, chat_id: &str) -> (r: bool)
        requires
            self.wf(),
        ensures
            r == self.chats_of(user_id@).contains(chat_id@),
    {
        match presence_get(&self.sockets, user_id) {
            Some(sock) => contains_id(&sock.chats, chat_id),
            None => false,
        }
    }

    /// The members of a chat, in the order they joined; none where it has no entry.
    pub fn members_of(&self, chat_id: &str) -> (r: Vec<String>)
        requires
            self.wf(),
        ensures
            ids_of(r@) == self.member_list(chat_id@),
            id_set(r@) == self.members(chat_id@),
    {
        match member_get(&self.chats, chat_id) {
            Some(m) => {
                proof {
                    lemma_ids_model(m@);
                }
                m
            },
            None => {
                let out: Vec<String> = Vec::new();
                assert(ids_of(out@) =~= Seq::<Seq<char>>::empty());
                assert(id_set(out@) =~= Set::<Seq<char>>::empty());
                out
            },
        }
    }

    /// Whether the chat has an entry in the membership index.
    pub fn has_chat(&self, chat_id: &str) -> (r: bool)
        requires
            self.wf(),
        ensures
            r == self.indexed(chat_id@),
    {
        member_contains(&self.chats, chat_id)
    }

    /// Whether the user has a presence record.
    pub fn is_known(&self, user_id: &str) -> (r: bool)
        requires
            self.wf(),
        ensures
            r == self.socket_view().contains_key(user_id@),
    {
        presence_contains(&self.sockets, user_id)
    }

    /// A user's presence at this instant: online, and last seen when offline.
    /// An unknown user is offline with no last-seen time.
    pub fn presence(&self, user_id: &str) -> (r: (bool, Option<u64>))
        requires
            self.wf(),
        ensures
            self.socket_view().contains_key(user_id@) ==> r == (
                self.socket_view()[user_id@].0,
                self.socket_view()[user_id@].1,
            ),
            !self.socket_view().contains_key(user_id@) ==> r == (false, None::<u64>),
    {
        match presence_get(&self.sockets, user_id) {
            Some(sock) => (sock.online, sock.last_seen_s),
            None => (false, None),
        }
    }

    /// Adds or drops `chat_id` in the cached chats of a known user.
    fn update_cache(&mut self, user_id: &str, chat_id: &str, join: bool)
        requires
            old(self).wf(),
        ensures
            final(self).wf(),
            forall|c: Seq<char>| #[trigger] final(self).members(c) == old(self).members(c),
            forall|c: Seq<char>| #[trigger] final(self).indexed(c) == old(self).indexed(c),
            forall|c: Seq<char>| #[trigger] final(self).member_list(c) == old(self).member_list(c),
            forall|u: Seq<char>| #[trigger] final(self).socket_view().contains_key(u) == old(self).socket_view().contains_key(u),
            forall|u: Seq<char>| #[trigger] final(self).socket_view().contains_key(u) ==> {
                &&& final(self).socket_view()[u].0 == old(self).socket_view()[u].0
                &&& final(self).socket_view()[u].1 == old(self).socket_view()[u].1
                &&& final(self).socket_view()[u].2 == old(self).socket_view()[u].2
            },
            forall|u: Seq<char>| #[trigger] final(self).chats_of(u) == if u == user_id@ && old(self).socket_view().contains_key(u) {
                if join { old(self).chats_of(u).insert(chat_id@) } else { old(self).chats_of(u).remove(chat_id@) }
            } else {
                old(self).chats_of(u)
            },
    {
        let ghost start = *self;
        match presence_remove(&mut self.sockets, user_id) {
            Some(sock) => {
                let UserSocket { online, last_seen_s, channel, chats } = sock;
                proof {
                    lemma_ids_model(chats@);
                }
                let new_chats = if join {
                    if contains_id(&chats, chat_id) {
                        proof {
                            lemma_ids_of_contains(chats@, chat_id@);
                            assert(id_set(chats@) =~= id_set(chats@).insert(chat_id@));
                        }
                        chats
                    } else {
                        let mut grown = chats;
                        let ghost before = grown@;
                        let name = chat_id.to_owned();
                        proof {
                            lemma_ids_of_contains(before, chat_id@);
                            lemma_push_fresh_id(before, name);
                        }
                        grown.push(name);
                        grown
                    }
                } else {
                    without_id(&chats, chat_id)
                };
                proof {
                    lemma_ids_model(new_chats@);
                }
                let ghost mid = *self;
                presence_insert(&mut self.sockets, user_id.to_owned(), UserSocket { online, last_seen_s, channel, chats: new_chats });
                proof {
                    assert forall|c: Seq<char>| #[trigger] self.members(c) == start.members(c) by {
                        assert(mid.members(c) == start.members(c));
                    }
                    assert forall|c: Seq<char>| #[trigger] self.member_list(c) == start.member_list(c) by {}
                }
            },
            None => {
                assert(presence_entries(self.sockets) =~= presence_entries(start.sockets));
                assert forall|c: Seq<char>| #[trigger] self.member_list(c) == start.member_list(c) by {}
            },
        }
    }

    /// Adds or drops `chat_id` in the cached chats of both users, where known.
    fn update_pair_cache(&mut self, a: &str, b: &str, chat_id: &str, join: bool)
        requires
            old(self).wf(),
        ensures
            final(self).wf(),
            final(self).member_view() == old(self).member_view(),
            keeps_presence(*old(self), *final(self)),
            forall|u: Seq<char>| #[trigger] final(self).chats_of(u) == if (u == a@ || u == b@) && old(self).socket_view().contains_key(u) {
                if join { old(self).chats_of(u).insert(chat_id@) } else { old(self).chats_of(u).remove(chat_id@) }
            } else {
                old(self).chats_of(u)
            },
    {
        self.update_cache(a, chat_id, join);
        let ghost s1 = *self;
        self.update_cache(b, chat_id, join);
        proof {
            assert(self.member_view() =~= old(self).member_view()) by {
                assert forall|c: Seq<char>| #[trigger] self.member_view().contains_key(c) == old(self).member_view().contains_key(c) by {
                    assert(self.indexed(c) == s1.indexed(c) && s1.indexed(c) == old(self).indexed(c));
                }
                assert forall|c: Seq<char>| self.member_view().contains_key(c) implies #[trigger] self.member_view()[c] == old(self).member_view()[c] by {
                    assert(self.member_list(c) == s1.member_list(c) && s1.member_list(c) == old(self).member_list(c));
                }
            }
            assert forall|u: Seq<char>| #![trigger self.socket_view().contains_key(u)] {
                &&& self.socket_view().contains_key(u) == old(self).socket_view().contains_key(u)
                &&& self.socket_view().contains_key(u) ==> {
                    &&& self.socket_view()[u].0 == old(self).socket_view()[u].0
                    &&& self.socket_view()[u].1 == old(self).socket_view()[u].1
                    &&& self.socket_view()[u].2 == old(self).socket_view()[u].2
                }
            } by {
                assert(self.socket_view().contains_key(u) == s1.socket_view().contains_key(u));
                assert(s1.socket_view().contains_key(u) == old(self).socket_view().contains_key(u));
                if self.socket_view().contains_key(u) {
                    assert(self.socket_view()[u].0 == s1.socket_view()[u].0);
                    assert(s1.socket_view()[u].0 == old(self).socket_view()[u].0);
                }
            }
            assert forall|u: Seq<char>| #[trigger] self.chats_of(u) == if (u == a@ || u == b@) && old(self).socket_view().contains_key(u) {
                if join { old(self).chats_of(u).insert(chat_id@) } else { old(self).chats_of(u).remove(chat_id@) }
            } else {
                old(self).chats_of(u)
            } by {
                assert(s1.socket_view().contains_key(u) == old(self).socket_view().contains_key(u));
                if u == a@ && u == b@ && old(self).socket_view().contains_key(u) {
                    assert(old(self).chats_of(u).insert(chat_id@).insert(chat_id@) =~= old(self).chats_of(u).insert(chat_id@));
                    assert(old(self).chats_of(u).remove(chat_id@).remove(chat_id@) =~= old(self).chats_of(u).remove(chat_id@));
                }
            }
        }
    }

    /// Registers a new direct chat between two users: the chat's members are
    /// exactly the two, and each of them that is known caches the chat.
    pub fn register_direct_chat(&mut self, a: &str, b: &str, chat_id: &str)
        requires
            old(self).wf(),
            a@ != b@,
        ensures
            final(self).wf(),
            final(self).members(chat_id@) == Set::<Seq<char>>::empty().insert(a@).insert(b@),
            final(self).member_list(chat_id@) == seq![a@, b@],
            forall|c: Seq<char>| c != chat_id@ ==> #[trigger] final(self).members(c) == old(self).members(c),
            forall|u: Seq<char>| #[trigger] final(self).chats_of(u) == if (u == a@ || u == b@) && old(self).socket_view().contains_key(u) {
                old(self).chats_of(u).insert(chat_id@)
            } else {
                old(self).chats_of(u)
            },
            forall|u: Seq<char>| #[trigger] final(self).socket_view().contains_key(u) == old(self).socket_view().contains_key(u),
            forall|u: Seq<char>| #[trigger] final(self).channels_of(u) == old(self).channels_of(u),
            keeps_presence(*old(self), *final(self)),
    {
        self.update_pair_cache(a, b, chat_id, true);
        let m = vec![a.to_owned(), b.to_owned()];
        let ghost before = *self;
        proof {
            assert(m@[0]@ == a@ && m@[1]@ == b@);
            assert(ids_of(m@) =~= seq![a@, b@]);
        }
        member_insert(&mut self.chats, chat_id.to_owned(), m);
        proof {
            let s = seq![a@, b@];
            assert(s[0] == a@ && s[1] == b@);
            assert forall|x: Seq<char>| seq_set(s).contains(x) == Set::<Seq<char>>::empty().insert(a@).insert(b@).contains(x) by {
                if s.contains(x) {
                    let k = choose|k: int| 0 <= k < s.len() && s[k] == x;
                }
            }
            assert(seq_set(s) =~= Set::<Seq<char>>::empty().insert(a@).insert(b@));
            assert forall|c: Seq<char>| #[trigger] member_entries(self.chats).contains_key(c) implies
                member_entries(self.chats)[c].len() > 0 && member_entries(self.chats)[c].no_duplicates() by {
                if c != chat_id@ {
                    assert(member_entries(before.chats).contains_key(c));
                }
            }
            assert forall|c: Seq<char>| c != chat_id@ implies #[trigger] self.members(c) == old(self).members(c) by {
                assert(before.members(c) == old(self).members(c));
            }
            assert forall|u: Seq<char>| #[trigger] self.socket_view().contains_key(u) == old(self).socket_view().contains_key(u) by {
                assert(before.socket_view().contains_key(u) == old(self).socket_view().contains_key(u));
            }
            assert forall|u: Seq<char>| #[trigger] self.channels_of(u) == old(self).channels_of(u) by {
                assert(before.socket_view().contains_key(u) == old(self).socket_view().contains_key(u));
            }
            assert forall|u: Seq<char>| #[trigger] self.chats_of(u) == before.chats_of(u) by {}
        }
    }

    /// Detaches both users from a direct chat: neither caches it any more and
    /// the chat leaves the index. Its history is not touched.
    pub fn detach_direct_chat(&mut self, a: &str, b: &str, chat_id: &str)
        requires
            old(self).wf(),
        ensures
            final(self).wf(),
            !final(self).indexed(chat_id@),
            final(self).members(chat_id@) == Set::<Seq<char>>::empty(),
            forall|c: Seq<char>| c != chat_id@ ==> #[trigger] final(self).members(c) == old(self).members(c),
            forall|u: Seq<char>| #[trigger] final(self).chats_of(u) == if (u == a@ || u == b@) && old(self).socket_view().contains_key(u) {
                old(self).chats_of(u).remove(chat_id@)
            } else {
                old(self).chats_of(u)
            },
            forall|u: Seq<char>| #[trigger] final(self).socket_view().contains_key(u) == old(self).socket_view().contains_key(u),
            forall|u: Seq<char>| #[trigger] final(self).channels_of(u) == old(self).channels_of(u),
            keeps_presence(*old(self), *final(self)),
    {
        self.update_pair_cache(a, b, chat_id, false);
        let ghost before = *self;
        let _ = member_remove(&mut self.chats, chat_id);
        proof {
            assert forall|c: Seq<char>| #[trigger] member_entries(self.chats).contains_key(c) implies
                member_entries(self.chats)[c].len() > 0 && member_entries(self.chats)[c].no_duplicates() by {
                assert(member_entries(before.chats).contains_key(c));
            }
            assert forall|c: Seq<char>| c != chat_id@ implies #[trigger] self.members(c) == old(self).members(c) by {
                assert(before.members(c) == old(self).members(c));
            }
            assert forall|u: Seq<char>| #[trigger] self.socket_view().contains_key(u) == old(self).socket_view().contains_key(u) by {
                assert(before.socket_view().contains_key(u) == old(self).socket_view().contains_key(u));
            }
            assert forall|u: Seq<char>| #[trigger] self.channels_of(u) == old(self).channels_of(u) by {
                assert(before.socket_view().contains_key(u) == old(self).socket_view().contains_key(u));
            }
            assert forall|u: Seq<char>| #[trigger] self.chats_of(u) == before.chats_of(u) by {}
        }
    }
}

} // verus!
