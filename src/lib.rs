//! Real-time core of a direct-messaging service: presence and routing tables,
//! the friend-relationship state machine, and message ordering and pagination.

mod auth;
mod error;
mod events;
mod friends;
mod ids;
mod messages;
mod model;
mod registry;
mod relation;
mod session;
mod tables;
mod text;
mod validation;

pub use auth::{bearer_token, get_user_from_token, validate_token};
pub use error::{ApiError, JsonRejectionKind};
pub use events::{
    emit_friend_added, emit_friend_removed, emit_new_direct_chat_join, emit_new_friend_request, emit_new_message,
    leave_direct_chat, Delivery, ReadyData, ServerEvent, UserUpdate,
};
pub use friends::{
    add_friend, add_friend_response, apply_add_friend, apply_remove_friend, chat_has_recipient,
    direct_chat_or_new, find_direct_chat, find_or_create_direct_chat, find_relations_of_user,
    get_friend_ids, is_direct_chat_between, new_direct_chat, remove_friend, remove_friend_response,
    FriendAction,
};
pub use ids::{accept_drawn, id_timestamp, new_id, IdMinter};
pub use messages::{
    authorize_direct_message, get_messages, get_messages_by_id, message_json, page_from_newest, page_messages,
    save_direct_message,
};
pub use model::{
    AddFriendResponse, AddFriendUser, AuthUser, Chat, ChatJson, ChatRecipient, ChatType, GetMessagesQuery,
    Message, MessageJson, MessageSaveResponse, RelatedUserStatus, Relation, RelationStatus,
    RemoveFriendResponse, RemoveFriendUser, SaveMessageRequest, Session, User, UserAccount,
    UserProfile, UserUsername, ValidationError,
};
pub use registry::{AppState, UserSocket};
pub use relation::{pull_relation, push_relation, relation_status, relationship_of, set_relation_status};
pub use session::{
    auth_reply, auth_step, chats_with, find_related_users_with_status, friend_ids_of, handle_client_frame,
    last_message_ids, related_user_ids, relation_entry, setup_user_socket, AuthFrame, AuthReq, AuthStep,
    WsInput,
};
pub use text::{contains_id, id_eq, id_lt, without_id};
pub use validation::{effective_limit, validate_get_messages_query, validate_save_message_request};
