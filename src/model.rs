//! The documents and payloads that the core reads and produces.
use vstd::prelude::*;

verus! {

/// How a user stands towards another user, seen from the first user's side.
/// `Unrelated` (sent as "None") is never stored: the absence of an entry means it.
#[derive(Debug, Clone, Copy, PartialEq, Eq, Structural)]
pub enum RelationStatus {
    Unrelated,
    Friend,
    Blocked,
    BlockedByOther,
    Incoming,
    Outgoing,
}

/// The name under which a status is stored and sent.
pub open spec fn status_name(s: RelationStatus) -> Seq<char> {
    match s {
        RelationStatus::Unrelated => "None"@,
        RelationStatus::Friend => "Friend"@,
        RelationStatus::Blocked => "Blocked"@,
        RelationStatus::BlockedByOther => "BlockedByOther"@,
        RelationStatus::Incoming => "Incoming"@,
        RelationStatus::Outgoing => "Outgoing"@,
    }
}

impl RelationStatus {
    pub fn to_string(&self) -> (r: String)
        ensures
            r@ == status_name(*self),
    {
        match self {
            RelationStatus::Unrelated => "None".to_owned(),
            RelationStatus::Friend => "Friend".to_owned(),
            RelationStatus::Blocked => "Blocked".to_owned(),
            RelationStatus::BlockedByOther => "BlockedByOther".to_owned(),
            RelationStatus::Incoming => "Incoming".to_owned(),
            RelationStatus::Outgoing => "Outgoing".to_owned(),
        }
    }
}

/// One entry of a user's relation list: the peer and how the user stands towards them.
#[derive(Debug, Clone)]
pub struct Relation {
    pub id: String,
    pub status: RelationStatus,
}

/// A user account without its profile.
#[derive(Debug, Clone)]
pub struct UserAccount {
    pub id: String,
    pub username: String,
    pub password_hash: String,
}

#[derive(Debug, Clone)]
pub struct UserProfile {
    pub relations: Vec<Relation>,
}

/// A user document: the account and, once the user has any relation, a profile.
#[derive(Debug, Clone)]
pub struct User {
    pub account: UserAccount,
    pub profile: Option<UserProfile>,
}

/// A user's id and name.
#[derive(Debug, Clone)]
pub struct UserUsername {
    pub id: String,
    pub username: String,
}

/// A related user as shown to the user it relates to: name, presence and relationship.
#[derive(Debug, Clone)]
pub struct RelatedUserStatus {
    pub id: String,
    pub username: String,
    pub online: bool,
    pub last_seen_s: Option<u64>,
    pub relationship: Option<RelationStatus>,
}

#[derive(Debug, Clone, Copy, PartialEq, Eq, Structural)]
pub enum ChatType {
    Direct,
    Group,
}

pub open spec fn chat_type_name(t: ChatType) -> Seq<char> {
    match t {
        ChatType::Direct => "Direct"@,
        ChatType::Group => "Group"@,
    }
}

impl ChatType {
    pub fn to_string(&self) -> (r: String)
        ensures
            r@ == chat_type_name(*self),
    {
        match self {
            ChatType::Direct => "Direct".to_owned(),
            ChatType::Group => "Group".to_owned(),
        }
    }
}

#[derive(Debug, Clone)]
pub struct ChatRecipient {
    pub id: String,
}

/// A chat document. A direct chat has exactly two recipients.
#[derive(Debug, Clone)]
pub struct Chat {
    pub id: String,
    pub chat_type: ChatType,
    pub recipients: Vec<ChatRecipient>,
    pub last_message_id: Option<String>,
}

/// A chat as sent to clients.
#[derive(Debug, Clone)]
pub struct ChatJson {
    pub id: String,
    pub chat_type: ChatType,
    pub recipients: Vec<ChatRecipient>,
    pub last_message_id: Option<String>,
}

/// A chat document as sent to clients: the same fields.
pub open spec fn chat_json_of(chat: Chat) -> ChatJson {
    ChatJson {
        id: chat.id,
        chat_type: chat.chat_type,
        recipients: chat.recipients,
        last_message_id: chat.last_message_id,
    }
}

impl From<Chat> for ChatJson {
    fn from(chat: Chat) -> (r: ChatJson) {
        ChatJson {
            id: chat.id,
            chat_type: chat.chat_type,
            recipients: chat.recipients,
            last_message_id: chat.last_message_id,
        }
    }
}

impl vstd::std_specs::convert::FromSpecImpl<Chat> for ChatJson {
    open spec fn obeys_from_spec() -> bool {
        true
    }

    open spec fn from_spec(chat: Chat) -> ChatJson {
        chat_json_of(chat)
    }
}

/// A message document. Its id is a time-sortable identifier that carries the
/// creation time; no other timestamp is stored.
#[derive(Debug, Clone)]
pub struct Message {
    pub id: String,
    pub chat_id: String,
    pub author_id: String,
    pub content: String,
}

/// A message as sent to clients, with the creation time read from its id.
#[derive(Debug, Clone)]
pub struct MessageJson {
    pub id: String,
    pub chat_id: String,
    pub author_id: String,
    pub content: String,
    pub timestamp: u64,
}

/// A message just written, as returned to its author and pushed to the chat.
#[derive(Debug, Clone)]
pub struct MessageSaveResponse {
    pub id: String,
    pub chat_id: String,
    pub author_id: String,
    pub content: String,
    pub timestamp: u64,
    pub ack_id: Option<String>,
}

/// The body of a request that writes a message.
#[derive(Debug, Clone)]
pub struct SaveMessageRequest {
    pub content: String,
    pub ack_id: Option<String>,
}

/// The cursor and size of a page of messages.
#[derive(Debug, Clone)]
pub struct GetMessagesQuery {
    pub before: Option<String>,
    pub after: Option<String>,
    pub limit: Option<i64>,
}

#[derive(Debug, Clone)]
pub struct AddFriendUser {
    pub id: String,
    pub username: String,
}

/// The outcome of a friend request: a request sent, or one accepted with its chat.
#[derive(Debug, Clone)]
pub struct AddFriendResponse {
    pub user: AddFriendUser,
    pub chat: Option<ChatJson>,
    pub message: String,
}

#[derive(Debug, Clone)]
pub struct RemoveFriendUser {
    pub id: String,
}

/// The outcome of removing a friend or withdrawing a request.
#[derive(Debug, Clone)]
pub struct RemoveFriendResponse {
    pub user: RemoveFriendUser,
    pub message: String,
    pub chat_id: Option<String>,
}

/// A login session; `expires_at_ms` is milliseconds since the Unix epoch.
#[derive(Debug, Clone)]
pub struct Session {
    pub id: String,
    pub token: String,
    pub user_id: String,
    pub expires_at_ms: i64,
    pub name: Option<String>,
}

/// The user that a request's bearer token belongs to.
#[derive(Debug, Clone)]
pub struct AuthUser {
    pub id: String,
    pub username: String,
    pub password_hash: String,
    pub session: Session,
}

/// The messages of one field that failed validation.
#[derive(Debug, Clone)]
pub struct ValidationError {
    pub field: String,
    pub errors: Vec<String>,
}

} // verus!
