//! Outbound events and their fan-out: what each transition tells which
//! live channels. Serialising an event and writing it to a socket is left
//! to the caller.
use vstd::prelude::*;
use crate::model::{Chat, ChatJson, MessageJson, MessageSaveResponse, RelatedUserStatus, RelationStatus};
use crate::registry::{keeps_presence, AppState};
use crate::text::ids_of;

verus! {

/// A change of a related user, as shown to the user it relates to. Absent
/// fields are not sent; `last_seen` is `Some(None)` where it is sent empty.
#[derive(Debug, Clone)]
pub struct UserUpdate {
    pub id: String,
    pub username: Option<String>,
    pub relationship: Option<RelationStatus>,
    pub online: Option<bool>,
    pub last_seen: Option<Option<u64>>,
    pub message: Option<String>,
}

/// What a client receives once authenticated.
#[derive(Debug, Clone)]
pub struct ReadyData {
    pub id: String,
    pub username: String,
    pub users: Vec<RelatedUserStatus>,
    pub chats: Vec<Chat>,
    pub last_messages: Vec<MessageJson>,
    pub session_id: String,
}

/// Every event the server sends over a socket.
#[derive(Debug, Clone)]
pub enum ServerEvent {
    /// Authentication succeeded.
    Ready(ReadyData),
    /// Authentication failed; the connection closes after it.
    AuthError(String),
    /// An in-band protocol error; the connection stays open.
    Error(String),
    ChatNewMessage(MessageSaveResponse),
    UserUpdate(UserUpdate),
    ChatStartTyping { chat_id: String, user_id: String },
    ChatEndTyping { chat_id: String, user_id: String },
    /// A direct chat that the receivers now take part in.
    NewChat(ChatJson),
}

/// One event and the channels it goes to.
#[derive(Debug, Clone)]
pub struct Delivery {
    pub channels: Vec<u64>,
    pub event: ServerEvent,
}

impl AppState {
    /// An event for every member of a chat.
    pub fn emit_chat_data(&self, chat_id: &str, event: ServerEvent) -> (r: Delivery)
        requires
            self.wf(),
        ensures
            r.channels@ == self.fanout(self.member_list(chat_id@), None),
            r.event == event,
    {
        Delivery { channels: self.chat_channels(chat_id), event }
    }

    /// An event for every member of a chat but `except`.
    pub fn emit_chat_data_except(&self, chat_id: &str, event: ServerEvent, except: &str) -> (r: Delivery)
        requires
            self.wf(),
        ensures
            r.channels@ == self.fanout(self.member_list(chat_id@), Some(except@)),
            r.event == event,
    {
        Delivery { channels: self.chat_channels_except(chat_id, except), event }
    }

    /// A presence change of `user_id`, told to each of `recipients`.
    pub fn emit_user_online(
        &self,
        user_id: &str,
        recipients: &Vec<String>,
        is_online: bool,
        last_seen_s: Option<u64>,
    ) -> (r: Delivery)
        requires
            self.wf(),
        ensures
            r.channels@ == self.fanout(ids_of(recipients@), None),
            is_update(r.event, user_id@, None, None, Some(is_online), Some(last_seen_s), None),
    {
        let channels = self.users_channels(recipients, None);
        let update = UserUpdate {
            id: user_id.to_owned(),
            username: None,
            relationship: None,
            online: Some(is_online),
            last_seen: Some(last_seen_s),
            message: None,
        };
        Delivery { channels, event: ServerEvent::UserUpdate(update) }
    }
}

/// A new message goes to every member of its chat.
pub fn emit_new_message(state: &AppState, message: MessageSaveResponse) -> (r: Delivery)
    requires
        state.wf(),
    ensures
        r.channels@ == state.fanout(state.member_list(message.chat_id@), None),
        r.event == ServerEvent::ChatNewMessage(message),
{
    let chat_id = message.chat_id.clone();
    state.emit_chat_data(chat_id.as_str(), ServerEvent::ChatNewMessage(message))
}

/// Detaches both users from their direct chat in the index; its history is
/// not touched.
pub fn leave_direct_chat(state: &mut AppState, user_id: &str, receiver_user_id: &str, chat_id: &str)
    requires
        old(state).wf(),
    ensures
        final(state).wf(),
        !final(state).indexed(chat_id@),
        forall|c: Seq<char>| c != chat_id@ ==> #[trigger] final(state).members(c) == old(state).members(c),
        forall|u: Seq<char>| #[trigger] final(state).chats_of(u) == if (u == user_id@ || u == receiver_user_id@)
            && old(state).socket_view().contains_key(u) {
            old(state).chats_of(u).remove(chat_id@)
        } else {
            old(state).chats_of(u)
        },
        forall|u: Seq<char>| #[trigger] final(state).socket_view().contains_key(u) == old(state).socket_view().contains_key(u),
        forall|u: Seq<char>| #[trigger] final(state).channels_of(u) == old(state).channels_of(u),
        keeps_presence(*old(state), *final(state)),
{
    state.detach_direct_chat(user_id, receiver_user_id, chat_id);
}

/// Registers a new direct chat for both users and sends it to them.
pub fn emit_new_direct_chat_join(state: &mut AppState, user_id: &str, receiver_user_id: &str, chat: ChatJson) -> (r: Delivery)
    requires
        old(state).wf(),
        user_id@ != receiver_user_id@,
    ensures
        final(state).wf(),
        final(state).members(chat.id@) == Set::<Seq<char>>::empty().insert(user_id@).insert(receiver_user_id@),
        forall|c: Seq<char>| c != chat.id@ ==> #[trigger] final(state).members(c) == old(state).members(c),
        forall|u: Seq<char>| #[trigger] final(state).chats_of(u) == if (u == user_id@ || u == receiver_user_id@)
            && old(state).socket_view().contains_key(u) {
            old(state).chats_of(u).insert(chat.id@)
        } else {
            old(state).chats_of(u)
        },
        forall|u: Seq<char>| #[trigger] final(state).socket_view().contains_key(u) == old(state).socket_view().contains_key(u),
        forall|u: Seq<char>| #[trigger] final(state).channels_of(u) == old(state).channels_of(u),
        r.channels@ == final(state).fanout(seq![user_id@, receiver_user_id@], None),
        r.event == ServerEvent::NewChat(chat),
        keeps_presence(*old(state), *final(state)),
{
    let chat_id = chat.id.clone();
    state.register_direct_chat(user_id, receiver_user_id, chat_id.as_str());
    state.emit_chat_data(chat_id.as_str(), ServerEvent::NewChat(chat))
}

/// An optional text as a spec value.
pub open spec fn opt_text(o: Option<String>) -> Option<Seq<char>> {
    match o {
        Some(s) => Some(s@),
        None => None,
    }
}

/// The event is a `UserUpdate` with exactly these fields.
pub open spec fn is_update(
    e: ServerEvent,
    id: Seq<char>,
    username: Option<Seq<char>>,
    relationship: Option<RelationStatus>,
    online: Option<bool>,
    last_seen: Option<Option<u64>>,
    message: Option<Seq<char>>,
) -> bool {
    match e {
        ServerEvent::UserUpdate(u) => {
            &&& u.id@ == id
            &&& opt_text(u.username) == username
            &&& u.relationship == relationship
            &&& u.online == online
            &&& u.last_seen == last_seen
            &&& opt_text(u.message) == message
        },
        _ => false,
    }
}

/// A sent friend request: the receiver sees the sender as `Incoming`, the
/// sender sees the receiver as `Outgoing`, each with the other's name.
pub fn emit_new_friend_request(
    state: &AppState,
    user_id: &str,
    username: &str,
    receiver_id: &str,
    receiver_username: &str,
) -> (r: Vec<Delivery>)
    requires
        state.wf(),
    ensures
        r@.len() == 2,
        r@[0].channels@ == state.channels_of(receiver_id@),
        is_update(r@[0].event, user_id@, Some(username@), Some(RelationStatus::Incoming), None, None, None),
        r@[1].channels@ == state.channels_of(user_id@),
        is_update(r@[1].event, receiver_id@, Some(receiver_username@), Some(RelationStatus::Outgoing), None, None, None),
{
    let to_receiver = Delivery {
        channels: state.user_channels(receiver_id),
        event: ServerEvent::UserUpdate(UserUpdate {
            id: user_id.to_owned(),
            username: Some(username.to_owned()),
            relationship: Some(RelationStatus::Incoming),
            online: None,
            last_seen: None,
            message: None,
        }),
    };
    let to_sender = Delivery {
        channels: state.user_channels(user_id),
        event: ServerEvent::UserUpdate(UserUpdate {
            id: receiver_id.to_owned(),
            username: Some(receiver_username.to_owned()),
            relationship: Some(RelationStatus::Outgoing),
            online: None,
            last_seen: None,
            message: None,
        }),
    };
    vec![to_receiver, to_sender]
}

/// How `peer` is shown to a new friend: online with its last-seen time where
/// it is known, offline otherwise.
fn friend_update(state: &AppState, peer: &str) -> (r: ServerEvent)
    requires
        state.wf(),
    ensures
        state.socket_view().contains_key(peer@) ==> is_update(
            r,
            peer@,
            None,
            Some(RelationStatus::Friend),
            Some(state.socket_view()[peer@].0),
            Some(state.socket_view()[peer@].1),
            None,
        ),
        !state.socket_view().contains_key(peer@) ==> is_update(r, peer@, None, Some(RelationStatus::Friend), Some(false), None, None),
{
    let known = state.is_known(peer);
    let (online, last_seen_s) = state.presence(peer);
    ServerEvent::UserUpdate(UserUpdate {
        id: peer.to_owned(),
        username: None,
        relationship: Some(RelationStatus::Friend),
        online: Some(online),
        last_seen: if known { Some(last_seen_s) } else { None },
        message: None,
    })
}

/// An accepted friend request: each side is told the other is a friend,
/// with the other's presence; then the pair joins its direct chat in the
/// index and the chat is sent to both.
pub fn emit_friend_added(state: &mut AppState, user_id: &str, receiver_user_id: &str, chat: ChatJson) -> (r: Vec<Delivery>)
    requires
        old(state).wf(),
        user_id@ != receiver_user_id@,
    ensures
        final(state).wf(),
        r@.len() == 3,
        r@[0].channels@ == old(state).channels_of(user_id@),
        old(state).socket_view().contains_key(receiver_user_id@) ==> is_update(
            r@[0].event,
            receiver_user_id@,
            None,
            Some(RelationStatus::Friend),
            Some(old(state).socket_view()[receiver_user_id@].0),
            Some(old(state).socket_view()[receiver_user_id@].1),
            None,
        ),
        !old(state).socket_view().contains_key(receiver_user_id@) ==> is_update(
            r@[0].event, receiver_user_id@, None, Some(RelationStatus::Friend), Some(false), None, None),
        r@[1].channels@ == old(state).channels_of(receiver_user_id@),
        old(state).socket_view().contains_key(user_id@) ==> is_update(
            r@[1].event,
            user_id@,
            None,
            Some(RelationStatus::Friend),
            Some(old(state).socket_view()[user_id@].0),
            Some(old(state).socket_view()[user_id@].1),
            None,
        ),
        !old(state).socket_view().contains_key(user_id@) ==> is_update(
            r@[1].event, user_id@, None, Some(RelationStatus::Friend), Some(false), None, None),
        final(state).members(chat.id@) == Set::<Seq<char>>::empty().insert(user_id@).insert(receiver_user_id@),
        forall|c: Seq<char>| c != chat.id@ ==> #[trigger] final(state).members(c) == old(state).members(c),
        forall|u: Seq<char>| #[trigger] final(state).chats_of(u) == if (u == user_id@ || u == receiver_user_id@)
            && old(state).socket_view().contains_key(u) {
            old(state).chats_of(u).insert(chat.id@)
        } else {
            old(state).chats_of(u)
        },
        r@[2].channels@ == final(state).fanout(seq![user_id@, receiver_user_id@], None),
        r@[2].event == ServerEvent::NewChat(chat),
        keeps_presence(*old(state), *final(state)),
{
    let to_user = Delivery { channels: state.user_channels(user_id), event: friend_update(state, receiver_user_id) };
    let to_receiver = Delivery { channels: state.user_channels(receiver_user_id), event: friend_update(state, user_id) };
    let join = emit_new_direct_chat_join(state, user_id, receiver_user_id, chat);
    vec![to_user, to_receiver, join]
}

/// A removed friend or withdrawn request: where the pair had a direct chat
/// both leave it in the index, and each side is told the other is now
/// unrelated and offline to it, with the removal's message.
pub fn emit_friend_removed(
    state: &mut AppState,
    user_id: &str,
    receiver_user_id: &str,
    message: &str,
    chat_id: &Option<String>,
) -> (r: Vec<Delivery>)
    requires
        old(state).wf(),
    ensures
        final(state).wf(),
        r@.len() == 2,
        r@[0].channels@ == old(state).channels_of(user_id@),
        is_update(r@[0].event, receiver_user_id@, None, Some(RelationStatus::Unrelated), Some(false), None, Some(message@)),
        r@[1].channels@ == old(state).channels_of(receiver_user_id@),
        is_update(r@[1].event, user_id@, None, Some(RelationStatus::Unrelated), Some(false), None, Some(message@)),
        match chat_id {
            Some(c) => !final(state).indexed(c@)
                && (forall|x: Seq<char>| x != c@ ==> #[trigger] final(state).members(x) == old(state).members(x))
                && forall|u: Seq<char>| #[trigger] final(state).chats_of(u) == if (u == user_id@ || u == receiver_user_id@)
                    && old(state).socket_view().contains_key(u) {
                    old(state).chats_of(u).remove(c@)
                } else {
                    old(state).chats_of(u)
                },
            None => (forall|x: Seq<char>| #[trigger] final(state).members(x) == old(state).members(x))
                && forall|u: Seq<char>| #[trigger] final(state).chats_of(u) == old(state).chats_of(u),
        },
        keeps_presence(*old(state), *final(state)),
{
    match chat_id {
        Some(c) => leave_direct_chat(state, user_id, receiver_user_id, c.as_str()),
        None => {},
    }
    let to_user = Delivery {
        channels: state.user_channels(user_id),
        event: ServerEvent::UserUpdate(UserUpdate {
            id: receiver_user_id.to_owned(),
            username: None,
            relationship: Some(RelationStatus::Unrelated),
            online: Some(false),
            last_seen: None,
            message: Some(message.to_owned()),
        }),
    };
    let to_receiver = Delivery {
        channels: state.user_channels(receiver_user_id),
        event: ServerEvent::UserUpdate(UserUpdate {
            id: user_id.to_owned(),
            username: None,
            relationship: Some(RelationStatus::Unrelated),
            online: Some(false),
            last_seen: None,
            message: Some(message.to_owned()),
        }),
    };
    vec![to_user, to_receiver]
}

} // verus!
