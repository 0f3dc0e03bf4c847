//! The per-socket session: the authentication handshake, the "ready"
//! payload, registering an authenticated connection, and interpreting the
//! frames a client sends afterwards.
use vstd::prelude::*;
use crate::error::ApiError;
use crate::events::{Delivery, ReadyData, ServerEvent};
use crate::model::{Chat, RelatedUserStatus, Relation, RelationStatus, User, UserUsername};
use crate::registry::AppState;
use crate::relation::{entry_of, unique_peers};
use crate::friends::has_recipient;
use crate::text::{contains_id, distinct_ids, seq_set, id_eq, id_set, ids_of, lemma_ids_of_contains, lemma_push_fresh_id};

verus! {

/// The authenticate envelope a client sends first.
#[derive(Debug, Clone)]
pub struct AuthReq {
    pub event: String,
    pub token: String,
}

/// The first thing that happened on a fresh socket.
#[derive(Debug, Clone)]
pub enum AuthFrame {
    /// Nothing arrived before the authentication deadline.
    TimedOut,
    /// The socket closed or failed, or sent a frame that is not text.
    Closed,
    /// A text frame; `None` where it is not a well-formed envelope.
    Text(Option<AuthReq>),
}

/// What the handshake does next.
#[derive(Debug, Clone)]
pub enum AuthStep {
    /// Give up silently.
    Stop,
    /// Send this reason as an error, then close.
    Reject(String),
    /// Validate this bearer token.
    Validate(String),
}

pub open spec fn auth_step_spec(frame: AuthFrame) -> (Option<Seq<char>>, Option<Seq<char>>) {
    match frame {
        AuthFrame::TimedOut => (Some("Authentication timed out: No data received."@), None),
        AuthFrame::Closed => (None, None),
        AuthFrame::Text(None) => (Some("Invalid JSON data."@), None),
        AuthFrame::Text(Some(req)) => if req.event@ == "Authenticate"@ {
            (None, Some(req.token@))
        } else {
            (Some("Invalid authentication type."@), None)
        },
    }
}

/// The handshake's first decision: a timeout or a malformed or wrong
/// envelope is rejected with its own reason, a closed socket ends silently,
/// and an `Authenticate` envelope has its token validated.
pub fn auth_step(frame: AuthFrame) -> (r: AuthStep)
    ensures
        match r {
            AuthStep::Stop => auth_step_spec(frame) == (None::<Seq<char>>, None::<Seq<char>>),
            AuthStep::Reject(m) => auth_step_spec(frame) == (Some(m@), None::<Seq<char>>),
            AuthStep::Validate(t) => auth_step_spec(frame) == (None::<Seq<char>>, Some(t@)),
        },
{
    match frame {
        AuthFrame::TimedOut => AuthStep::Reject("Authentication timed out: No data received.".to_owned()),
        AuthFrame::Closed => AuthStep::Stop,
        AuthFrame::Text(None) => AuthStep::Reject("Invalid JSON data.".to_owned()),
        AuthFrame::Text(Some(req)) => {
            if id_eq(req.event.as_str(), "Authenticate") {
                AuthStep::Validate(req.token)
            } else {
                AuthStep::Reject("Invalid authentication type.".to_owned())
            }
        },
    }
}

/// The reply that ends the handshake: `Ready` with the payload, or the
/// reason for closing (an unknown token, or an internal failure whose
/// detail is not shown).
pub fn auth_reply(outcome: Result<ReadyData, ApiError>) -> (r: ServerEvent)
    ensures
        match outcome {
            Ok(d) => r == ServerEvent::Ready(d),
            Err(e) => r is AuthError && r->AuthError_0@ == if e is Unauthorized {
                "Invalid token."@
            } else {
                "Internal Server Error"@
            },
        },
{
    match outcome {
        Ok(d) => ServerEvent::Ready(d),
        Err(ApiError::Unauthorized) => ServerEvent::AuthError("Invalid token.".to_owned()),
        Err(_) => ServerEvent::AuthError("Internal Server Error".to_owned()),
    }
}

/// The peers whose presence the ready payload shows: the user's relations
/// in order, then every other recipient of the user's chats, each once.
pub fn related_user_ids(user: &User, chats: &Vec<Chat>) -> (r: Vec<String>)
    ensures
        match user.profile {
            Some(p) => r@.len() >= p.relations@.len()
                && forall|k: int| 0 <= k < p.relations@.len() ==> #[trigger] r@[k]@ == p.relations@[k].id@,
            None => true,
        },
        forall|x: Seq<char>| id_set(r@).contains(x) <==> (
            (match user.profile {
                Some(p) => exists|k: int| 0 <= k < p.relations@.len() && #[trigger] p.relations@[k].id@ == x,
                None => false,
            }) || (x != user.account.id@ && exists|c: int| 0 <= c < chats@.len() && has_recipient(#[trigger] chats@[c], x))),
        match user.profile {
            Some(p) => unique_peers(p.relations@) ==> distinct_ids(r@),
            None => distinct_ids(r@),
        },
{
    let mut out: Vec<String> = Vec::new();
    let ghost rels: Seq<Relation> = match &user.profile {
        Some(p) => p.relations@,
        None => Seq::empty(),
    };
    match &user.profile {
        Some(profile) => {
            let mut i: usize = 0;
            while i < profile.relations.len()
                invariant
                    rels == profile.relations@,
                    i <= profile.relations.len(),
                    out.len() == i,
                    forall|k: int| 0 <= k < i ==> #[trigger] out@[k]@ == rels[k].id@,
                decreases profile.relations.len() - i,
            {
                out.push(profile.relations[i].id.clone());
                i = i + 1;
            }
        },
        None => {},
    }
    proof {
        if unique_peers(rels) {
            assert forall|a: int, b: int| 0 <= a < out@.len() && 0 <= b < out@.len() && a != b implies out@[a]@ != out@[b]@ by {
                assert(out@[a]@ == rels[a].id@ && out@[b]@ == rels[b].id@);
            }
        }
        assert forall|x: Seq<char>| id_set(out@).contains(x) <==> exists|k: int| 0 <= k < rels.len() && #[trigger] rels[k].id@ == x by {
            if id_set(out@).contains(x) {
                let k = choose|k: int| 0 <= k < out@.len() && #[trigger] out@[k]@ == x;
                assert(rels[k].id@ == x);
            }
            if exists|k: int| 0 <= k < rels.len() && #[trigger] rels[k].id@ == x {
                let k = choose|k: int| 0 <= k < rels.len() && #[trigger] rels[k].id@ == x;
                assert(out@[k]@ == x);
            }
        }
    }
    let n0 = out.len();
    let mut c: usize = 0;
    while c < chats.len()
        invariant
            n0 == rels.len(),
            n0 <= out.len(),
            c <= chats.len(),
            forall|k: int| 0 <= k < n0 ==> #[trigger] out@[k]@ == rels[k].id@,
            unique_peers(rels) ==> distinct_ids(out@),
            forall|x: Seq<char>| id_set(out@).contains(x) <==> (
                (exists|k: int| 0 <= k < rels.len() && #[trigger] rels[k].id@ == x)
                || (x != user.account.id@ && exists|d: int| 0 <= d < c && has_recipient(#[trigger] chats@[d], x))),
        decreases chats.len() - c,
    {
        let chat = &chats[c];
        let mut j: usize = 0;
        while j < chat.recipients.len()
            invariant
                n0 == rels.len(),
                n0 <= out.len(),
                c < chats.len(),
                chat == chats@[c as int],
                j <= chat.recipients.len(),
                forall|k: int| 0 <= k < n0 ==> #[trigger] out@[k]@ == rels[k].id@,
                unique_peers(rels) ==> distinct_ids(out@),
                forall|x: Seq<char>| id_set(out@).contains(x) <==> (
                    (exists|k: int| 0 <= k < rels.len() && #[trigger] rels[k].id@ == x)
                    || (x != user.account.id@ && exists|d: int| 0 <= d < c && has_recipient(#[trigger] chats@[d], x))
                    || (x != user.account.id@ && exists|q: int| 0 <= q < j && #[trigger] chat.recipients@[q].id@ == x)),
            decreases chat.recipients.len() - j,
        {
            let rid = &chat.recipients[j].id;
            proof {
                lemma_ids_of_contains(out@, rid@);
            }
            let ghost prev = out@;
            let add = !id_eq(rid.as_str(), user.account.id.as_str()) && !contains_id(&out, rid.as_str());
            if add {
                let name = rid.clone();
                proof {
                    lemma_push_fresh_id(prev, name);
                }
                out.push(name);
            }
            proof {
                assert forall|x: Seq<char>| #[trigger] id_set(out@).contains(x) == (id_set(prev).contains(x) || (add && x == rid@)) by {}
                assert forall|k: int| 0 <= k < n0 implies #[trigger] out@[k]@ == rels[k].id@ by {
                    if add {
                        assert(out@[k] == prev[k]);
                    }
                }
                assert(chat.recipients@[j as int].id@ == rid@);
                assert forall|x: Seq<char>| #[trigger] id_set(out@).contains(x) <==> (
                    (exists|k: int| 0 <= k < rels.len() && #[trigger] rels[k].id@ == x)
                    || (x != user.account.id@ && exists|d: int| 0 <= d < c && has_recipient(#[trigger] chats@[d], x))
                    || (x != user.account.id@ && exists|q: int| 0 <= q < j + 1 && #[trigger] chat.recipients@[q].id@ == x)) by {
                    assert(id_set(prev).contains(x) <==> (
                        (exists|k: int| 0 <= k < rels.len() && #[trigger] rels[k].id@ == x)
                        || (x != user.account.id@ && exists|d: int| 0 <= d < c && has_recipient(#[trigger] chats@[d], x))
                        || (x != user.account.id@ && exists|q: int| 0 <= q < j && #[trigger] chat.recipients@[q].id@ == x)));
                    if x != user.account.id@ && exists|q: int| 0 <= q < j + 1 && #[trigger] chat.recipients@[q].id@ == x {
                        let q = choose|q: int| 0 <= q < j + 1 && #[trigger] chat.recipients@[q].id@ == x;
                        if q == j {
                            assert(x == rid@);
                        }
                    }
                }
            }
            j = j + 1;
        }
        proof {
            assert forall|x: Seq<char>| (exists|d: int| 0 <= d < c + 1 && has_recipient(#[trigger] chats@[d], x))
                == ((exists|d: int| 0 <= d < c && has_recipient(#[trigger] chats@[d], x)) || has_recipient(chats@[c as int], x)) by {
                if has_recipient(chats@[c as int], x) {
                    assert(0 <= c < c + 1 && has_recipient(chats@[c as int], x));
                }
            }
        }
        c = c + 1;
    }
    out
}

/// The ids of the chats' last messages, in chat order, where they have one.
pub open spec fn last_ids(chats: Seq<Chat>) -> Seq<Seq<char>>
    decreases chats.len(),
{
    if chats.len() == 0 {
        Seq::empty()
    } else {
        match chats.last().last_message_id {
            Some(m) => last_ids(chats.drop_last()).push(m@),
            None => last_ids(chats.drop_last()),
        }
    }
}

/// The last message ids to load for the ready payload.
pub fn last_message_ids(chats: &Vec<Chat>) -> (r: Vec<String>)
    ensures
        ids_of(r@) == last_ids(chats@),
{
    let mut out: Vec<String> = Vec::new();
    let mut i: usize = 0;
    while i < chats.len()
        invariant
            i <= chats.len(),
            ids_of(out@) == last_ids(chats@.subrange(0, i as int)),
        decreases chats.len() - i,
    {
        assert(chats@.subrange(0, i + 1).drop_last() == chats@.subrange(0, i as int));
        assert(chats@.subrange(0, i + 1).last() == chats@[i as int]);
        match &chats[i].last_message_id {
            Some(m) => {
                out.push(m.clone());
                assert(ids_of(out@) =~= last_ids(chats@.subrange(0, i as int)).push(m@));
            },
            None => {},
        }
        i = i + 1;
    }
    assert(chats@.subrange(0, i as int) == chats@);
    out
}

/// How a related user is shown: name, presence as the registry has it, and
/// the relationship where the viewer has an entry for them.
pub open spec fn related_status_of(state: AppState, u: UserUsername, relations: Seq<Relation>, s: RelatedUserStatus) -> bool {
    &&& s.id == u.id
    &&& s.username == u.username
    &&& s.relationship == entry_of(relations, u.id@)
    &&& state.socket_view().contains_key(u.id@) ==> s.online == state.socket_view()[u.id@].0
        && s.last_seen_s == state.socket_view()[u.id@].1
    &&& !state.socket_view().contains_key(u.id@) ==> !s.online && s.last_seen_s is None
}

/// The presence and relationship of each related user, in order.
pub fn find_related_users_with_status(
    state: &AppState,
    users: Vec<UserUsername>,
    relations: &Vec<Relation>,
) -> (r: Vec<RelatedUserStatus>)
    requires
        state.wf(),
    ensures
        r.len() == users.len(),
        forall|k: int| 0 <= k < users.len() ==> related_status_of(*state, #[trigger] users@[k], relations@, r@[k]),
{
    let ghost given = users@;
    let mut out: Vec<RelatedUserStatus> = Vec::new();
    let mut i: usize = 0;
    while i < users.len()
        invariant
            state.wf(),
            users@ == given,
            i <= users.len(),
            out.len() == i,
            forall|k: int| 0 <= k < i ==> related_status_of(*state, #[trigger] given[k], relations@, out@[k]),
        decreases users.len() - i,
    {
        let u = &users[i];
        let relationship = relation_entry(relations, u.id.as_str());
        let (online, last_seen_s) = state.presence(u.id.as_str());
        out.push(RelatedUserStatus {
            id: u.id.clone(),
            username: u.username.clone(),
            online,
            last_seen_s,
            relationship,
        });
        i = i + 1;
    }
    out
}

/// The status of the first entry for `peer`, if any.
pub fn relation_entry(rels: &Vec<Relation>, peer: &str) -> (r: Option<RelationStatus>)
    ensures
        r == entry_of(rels@, peer@),
{
    let mut i: usize = 0;
    assert(rels@.subrange(0, rels@.len() as int) == rels@);
    while i < rels.len()
        invariant
            i <= rels.len(),
            entry_of(rels@, peer@) == entry_of(rels@.subrange(i as int, rels@.len() as int), peer@),
        decreases rels.len() - i,
    {
        let ghost rest = rels@.subrange(i as int, rels@.len() as int);
        assert(rest[0] == rels@[i as int]);
        assert(rest.drop_first() == rels@.subrange(i + 1, rels@.len() as int));
        if id_eq(rels[i].id.as_str(), peer) {
            return Some(rels[i].status);
        }
        i = i + 1;
    }
    None
}

/// The ids of the related users that are friends, in order.
pub open spec fn friend_ids_spec(users: Seq<RelatedUserStatus>) -> Seq<Seq<char>>
    decreases users.len(),
{
    if users.len() == 0 {
        Seq::empty()
    } else if users.last().relationship == Some(RelationStatus::Friend) {
        friend_ids_spec(users.drop_last()).push(users.last().id@)
    } else {
        friend_ids_spec(users.drop_last())
    }
}

/// The friends among the related users.
pub fn friend_ids_of(users: &Vec<RelatedUserStatus>) -> (r: Vec<String>)
    ensures
        ids_of(r@) == friend_ids_spec(users@),
{
    let mut out: Vec<String> = Vec::new();
    let mut i: usize = 0;
    while i < users.len()
        invariant
            i <= users.len(),
            ids_of(out@) == friend_ids_spec(users@.subrange(0, i as int)),
        decreases users.len() - i,
    {
        assert(users@.subrange(0, i + 1).drop_last() == users@.subrange(0, i as int));
        assert(users@.subrange(0, i + 1).last() == users@[i as int]);
        match users[i].relationship {
            Some(RelationStatus::Friend) => {
                out.push(users[i].id.clone());
                assert(ids_of(out@) =~= friend_ids_spec(users@.subrange(0, i as int)).push(users@[i as int].id@));
            },
            _ => {},
        }
        i = i + 1;
    }
    assert(users@.subrange(0, i as int) == users@);
    out
}

/// Some recipient of the chat is among `ids`.
pub open spec fn shares_recipient(c: Chat, ids: Seq<Seq<char>>) -> bool {
    exists|q: int| 0 <= q < c.recipients@.len() && ids.contains(#[trigger] c.recipients@[q].id@)
}

/// The ids of the chats that have a recipient among `ids`, in order.
pub open spec fn chats_with_spec(chats: Seq<Chat>, ids: Seq<Seq<char>>) -> Seq<Seq<char>>
    decreases chats.len(),
{
    if chats.len() == 0 {
        Seq::empty()
    } else if shares_recipient(chats.last(), ids) {
        chats_with_spec(chats.drop_last(), ids).push(chats.last().id@)
    } else {
        chats_with_spec(chats.drop_last(), ids)
    }
}

/// The chats that have a recipient among `ids`.
pub fn chats_with(chats: &Vec<Chat>, ids: &Vec<String>) -> (r: Vec<String>)
    ensures
        ids_of(r@) == chats_with_spec(chats@, ids_of(ids@)),
{
    let mut out: Vec<String> = Vec::new();
    let mut i: usize = 0;
    while i < chats.len()
        invariant
            i <= chats.len(),
            ids_of(out@) == chats_with_spec(chats@.subrange(0, i as int), ids_of(ids@)),
        decreases chats.len() - i,
    {
        assert(chats@.subrange(0, i + 1).drop_last() == chats@.subrange(0, i as int));
        assert(chats@.subrange(0, i + 1).last() == chats@[i as int]);
        let chat = &chats[i];
        let mut found = false;
        let mut j: usize = 0;
        while j < chat.recipients.len() && !found
            invariant
                j <= chat.recipients.len(),
                found == exists|q: int| 0 <= q < j && ids_of(ids@).contains(#[trigger] chat.recipients@[q].id@),
            decreases chat.recipients.len() - j,
        {
            if contains_id(ids, chat.recipients[j].id.as_str()) {
                found = true;
            }
            j = j + 1;
        }
        proof {
            if !found {
                assert(j == chat.recipients.len());
            }
        }
        if found {
            out.push(chat.id.clone());
            assert(ids_of(out@) =~= chats_with_spec(chats@.subrange(0, i as int), ids_of(ids@)).push(chat.id@));
        }
        i = i + 1;
    }
    assert(chats@.subrange(0, i as int) == chats@);
    out
}

/// Registers an authenticated connection on `channel`: the user's routed
/// chats are those shared with a friend; where the user was offline, its
/// friends are told it is online.
pub fn setup_user_socket(state: &mut AppState, data: &ReadyData, channel: u64) -> (r: Vec<Delivery>)
    requires
        old(state).wf(),
    ensures
        final(state).wf(),
        final(state).socket_view().contains_key(data.id@),
        final(state).socket_view()[data.id@].0,
        final(state).socket_view()[data.id@].1 is None,
        final(state).channels_of(data.id@) == old(state).channels_of(data.id@).push(channel),
        seq_set(final(state).socket_view()[data.id@].3) == seq_set(chats_with_spec(data.chats@, friend_ids_spec(data.users@))),
        forall|c: Seq<char>| #[trigger] final(state).members(c) == if chats_with_spec(data.chats@, friend_ids_spec(data.users@)).contains(c) {
            old(state).members(c).insert(data.id@)
        } else if old(state).chats_of(data.id@).contains(c) {
            old(state).members(c).remove(data.id@)
        } else {
            old(state).members(c)
        },
        (old(state).socket_view().contains_key(data.id@) && old(state).socket_view()[data.id@].0) ==> r@.len() == 0,
        !(old(state).socket_view().contains_key(data.id@) && old(state).socket_view()[data.id@].0) ==> {
            &&& r@.len() == 1
            &&& r@[0].channels@ == final(state).fanout(friend_ids_spec(data.users@), None)
            &&& crate::events::is_update(r@[0].event, data.id@, None, None, Some(true), Some(None), None)
        },
{
    let friend_ids = friend_ids_of(&data.users);
    let chat_ids = chats_with(&data.chats, &friend_ids);
    let ghost routed = chat_ids@;
    proof {
        assert forall|c: Seq<char>| id_set(routed).contains(c) == chats_with_spec(data.chats@, friend_ids_spec(data.users@)).contains(c) by {
            lemma_ids_of_contains(routed, c);
        }
    }
    proof {
        crate::text::lemma_ids_model(routed);
    }
    let was_offline = state.connect(data.id.as_str(), channel, chat_ids);
    if was_offline {
        vec![state.emit_user_online(data.id.as_str(), &friend_ids, true, None)]
    } else {
        Vec::new()
    }
}

/// A frame an authenticated client sent: its event name and data; `None`
/// where it is not a well-formed envelope.
#[derive(Debug, Clone)]
pub struct WsInput {
    pub event: String,
    pub data: String,
}

/// Interprets a frame from an authenticated client. A typing indicator for
/// a chat the user takes part in goes to the chat's other members (and is
/// dropped otherwise); an unknown event or a malformed frame is answered on
/// the user's own channels, and the connection stays open.
pub fn handle_client_frame(state: &AppState, user_id: &str, input: Option<WsInput>) -> (r: Vec<Delivery>)
    requires
        state.wf(),
    ensures
        match input {
            None => r@.len() == 1 && r@[0].channels@ == state.channels_of(user_id@)
                && r@[0].event is Error && r@[0].event->Error_0@ == "Invalid json data."@,
            Some(i) => if i.event@ == "ChatStartTyping"@ || i.event@ == "ChatEndTyping"@ {
                if state.chats_of(user_id@).contains(i.data@) {
                    &&& r@.len() == 1
                    &&& r@[0].channels@ == state.fanout(state.member_list(i.data@), Some(user_id@))
                    &&& if i.event@ == "ChatStartTyping"@ {
                        r@[0].event is ChatStartTyping && r@[0].event->ChatStartTyping_chat_id == i.data
                            && r@[0].event->ChatStartTyping_user_id@ == user_id@
                    } else {
                        r@[0].event is ChatEndTyping && r@[0].event->ChatEndTyping_chat_id == i.data
                            && r@[0].event->ChatEndTyping_user_id@ == user_id@
                    }
                } else {
                    r@.len() == 0
                }
            } else {
                r@.len() == 1 && r@[0].channels@ == state.channels_of(user_id@)
                    && r@[0].event is Error && r@[0].event->Error_0@ == "Unknown event."@
            },
        },
{
    match input {
        None => vec![Delivery { channels: state.user_channels(user_id), event: ServerEvent::Error("Invalid json data.".to_owned()) }],
        Some(i) => {
            let start = id_eq(i.event.as_str(), "ChatStartTyping");
            let end = id_eq(i.event.as_str(), "ChatEndTyping");
            if start || end {
                if state.user_perm_chat_exists(user_id, i.data.as_str()) {
                    let chat_id = i.data.clone();
                    let event = if start {
                        ServerEvent::ChatStartTyping { chat_id: i.data, user_id: user_id.to_owned() }
                    } else {
                        ServerEvent::ChatEndTyping { chat_id: i.data, user_id: user_id.to_owned() }
                    };
                    vec![state.emit_chat_data_except(chat_id.as_str(), event, user_id)]
                } else {
                    Vec::new()
                }
            } else {
                vec![Delivery { channels: state.user_channels(user_id), event: ServerEvent::Error("Unknown event.".to_owned()) }]
            }
        },
    }
}

} // verus!
