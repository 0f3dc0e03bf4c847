//! Failures of the core, with the status code and description each is rendered with.
use vstd::prelude::*;
use crate::model::ValidationError;

verus! {

/// Why a JSON request body was rejected before it reached the core.
#[derive(Debug, Clone, Copy, PartialEq, Eq, Structural)]
pub enum JsonRejectionKind {
    DataError,
    SyntaxError,
    MissingContentType,
    Other,
}

/// Every failure the core reports. Internal failures carry a context message
/// that is logged and never shown to a client.
#[derive(Debug, Clone)]
pub enum ApiError {
    UnknownError(String),
    JsonError(JsonRejectionKind),
    ValidationError(Vec<ValidationError>),
    DuplicateUser(Option<String>),
    QueryStringError,
    Unauthorized,
    InvalidCredentials,
    UserNotFound,
    CantAddSelf,
    AlreadyFriends,
    AlreadySentFR,
    BlockedByOtherFriend,
    BlockedFriend,
    CantRemoveSelf,
    ChatNotFound,
    ChatReadPermissionDenied,
    ChatWritePermissionDenied,
}

/// The HTTP status code of each failure.
pub open spec fn status_code_of(e: ApiError) -> u16 {
    match e {
        ApiError::UnknownError(_) => 500,
        ApiError::JsonError(k) => match k {
            JsonRejectionKind::DataError | JsonRejectionKind::SyntaxError => 400,
            JsonRejectionKind::MissingContentType => 415,
            JsonRejectionKind::Other => 418,
        },
        ApiError::ValidationError(_) | ApiError::QueryStringError => 400,
        ApiError::DuplicateUser(_)
        | ApiError::CantAddSelf
        | ApiError::AlreadyFriends
        | ApiError::AlreadySentFR
        | ApiError::BlockedByOtherFriend
        | ApiError::BlockedFriend
        | ApiError::CantRemoveSelf => 409,
        ApiError::Unauthorized | ApiError::InvalidCredentials => 401,
        ApiError::UserNotFound | ApiError::ChatNotFound => 404,
        ApiError::ChatReadPermissionDenied | ApiError::ChatWritePermissionDenied => 403,
    }
}

/// The message shown to a client for each failure.
pub open spec fn description_of(e: ApiError) -> Seq<char> {
    match e {
        ApiError::UnknownError(_) => "Unknown error occurred."@,
        ApiError::JsonError(_) => "Invalid JSON request or missing fields."@,
        ApiError::QueryStringError => "Invalid query string."@,
        ApiError::ValidationError(_) => "Validation error occurred in the following fields."@,
        ApiError::DuplicateUser(reason) => match reason {
            Some(r) => r@,
            None => "User already exists."@,
        },
        ApiError::Unauthorized => "Invalid session token."@,
        ApiError::InvalidCredentials => "Invalid username or password."@,
        ApiError::UserNotFound => "User not found."@,
        ApiError::CantAddSelf => "You can't add yourself as a friend."@,
        ApiError::AlreadyFriends => "You are already friends with this user."@,
        ApiError::AlreadySentFR => "You have already sent a friend request to this user."@,
        ApiError::BlockedByOtherFriend => "You are blocked by this user."@,
        ApiError::BlockedFriend => "You blocked this user."@,
        ApiError::CantRemoveSelf => "You can't remove yourself."@,
        ApiError::ChatNotFound => "Chat not found."@,
        ApiError::ChatReadPermissionDenied => "You don't have permission to read messages of this chat."@,
        ApiError::ChatWritePermissionDenied => "You don't have permission to send messages in this chat."@,
    }
}

impl ApiError {
    pub fn status_code(&self) -> (r: u16)
        ensures
            r == status_code_of(*self),
    {
        match self {
            ApiError::UnknownError(_) => 500,
            ApiError::JsonError(k) => match k {
                JsonRejectionKind::DataError | JsonRejectionKind::SyntaxError => 400,
                JsonRejectionKind::MissingContentType => 415,
                JsonRejectionKind::Other => 418,
            },
            ApiError::ValidationError(_) | ApiError::QueryStringError => 400,
            ApiError::DuplicateUser(_)
            | ApiError::CantAddSelf
            | ApiError::AlreadyFriends
            | ApiError::AlreadySentFR
            | ApiError::BlockedByOtherFriend
            | ApiError::BlockedFriend
            | ApiError::CantRemoveSelf => 409,
            ApiError::Unauthorized | ApiError::InvalidCredentials => 401,
            ApiError::UserNotFound | ApiError::ChatNotFound => 404,
            ApiError::ChatReadPermissionDenied | ApiError::ChatWritePermissionDenied => 403,
        }
    }

    pub fn error_description(&self) -> (r: String)
        ensures
            r@ == description_of(*self),
    {
        match self {
            ApiError::UnknownError(_) => "Unknown error occurred.".to_owned(),
            ApiError::JsonError(_) => "Invalid JSON request or missing fields.".to_owned(),
            ApiError::QueryStringError => "Invalid query string.".to_owned(),
            ApiError::ValidationError(_) => "Validation error occurred in the following fields.".to_owned(),
            ApiError::DuplicateUser(reason) => match reason {
                Some(r) => r.clone(),
                None => "User already exists.".to_owned(),
            },
            ApiError::Unauthorized => "Invalid session token.".to_owned(),
            ApiError::InvalidCredentials => "Invalid username or password.".to_owned(),
            ApiError::UserNotFound => "User not found.".to_owned(),
            ApiError::CantAddSelf => "You can't add yourself as a friend.".to_owned(),
            ApiError::AlreadyFriends => "You are already friends with this user.".to_owned(),
            ApiError::AlreadySentFR => "You have already sent a friend request to this user.".to_owned(),
            ApiError::BlockedByOtherFriend => "You are blocked by this user.".to_owned(),
            ApiError::BlockedFriend => "You blocked this user.".to_owned(),
            ApiError::CantRemoveSelf => "You can't remove yourself.".to_owned(),
            ApiError::ChatNotFound => "Chat not found.".to_owned(),
            ApiError::ChatReadPermissionDenied => "You don't have permission to read messages of this chat.".to_owned(),
            ApiError::ChatWritePermissionDenied => "You don't have permission to send messages in this chat.".to_owned(),
        }
    }
}

} // verus!
