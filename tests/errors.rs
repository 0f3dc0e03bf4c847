use chat_backend::{
    effective_limit, validate_get_messages_query, validate_save_message_request, ApiError, GetMessagesQuery,
    JsonRejectionKind, SaveMessageRequest,
};

#[test]
fn status_codes() {
    assert_eq!(ApiError::UnknownError("x".to_string()).status_code(), 500);
    assert_eq!(ApiError::JsonError(JsonRejectionKind::SyntaxError).status_code(), 400);
    assert_eq!(ApiError::JsonError(JsonRejectionKind::MissingContentType).status_code(), 415);
    assert_eq!(ApiError::JsonError(JsonRejectionKind::Other).status_code(), 418);
    assert_eq!(ApiError::QueryStringError.status_code(), 400);
    assert_eq!(ApiError::AlreadyFriends.status_code(), 409);
    assert_eq!(ApiError::Unauthorized.status_code(), 401);
    assert_eq!(ApiError::ChatNotFound.status_code(), 404);
    assert_eq!(ApiError::ChatWritePermissionDenied.status_code(), 403);
}

#[test]
fn descriptions() {
    assert_eq!(ApiError::UnknownError("secret".to_string()).error_description(), "Unknown error occurred.");
    assert_eq!(ApiError::DuplicateUser(None).error_description(), "User already exists.");
    assert_eq!(ApiError::DuplicateUser(Some("Taken.".to_string())).error_description(), "Taken.");
    assert_eq!(ApiError::AlreadySentFR.error_description(), "You have already sent a friend request to this user.");
    assert_eq!(ApiError::ChatReadPermissionDenied.error_description(), "You don't have permission to read messages of this chat.");
}

#[test]
fn query_validation() {
    let ok = GetMessagesQuery { before: Some("01ARZ3NDEKTSV4RRFFQ69G5FAV".to_string()), after: None, limit: Some(50) };
    assert!(validate_get_messages_query(&ok).is_ok());
    assert_eq!(effective_limit(&ok), 50);
    let none = GetMessagesQuery { before: None, after: None, limit: None };
    assert!(validate_get_messages_query(&none).is_ok());
    assert_eq!(effective_limit(&none), 50);
    let bad = GetMessagesQuery { before: Some("short".to_string()), after: None, limit: Some(0) };
    match validate_get_messages_query(&bad) {
        Err(ApiError::ValidationError(errs)) => {
            assert_eq!(errs.len(), 2);
            assert_eq!(errs[0].field, "before");
            assert_eq!(errs[0].errors, vec!["Invalid id.".to_string()]);
            assert_eq!(errs[1].field, "limit");
            assert_eq!(errs[1].errors, vec!["Must be between 1 and 50.".to_string()]);
        }
        other => panic!("{:?}", other),
    }
    let big = GetMessagesQuery { before: None, after: None, limit: Some(51) };
    assert!(validate_get_messages_query(&big).is_err());
}

#[test]
fn message_request_validation() {
    let ok = SaveMessageRequest { content: "é".repeat(1024), ack_id: None };
    assert!(validate_save_message_request(&ok).is_ok());
    let long = SaveMessageRequest { content: "a".repeat(1025), ack_id: Some("x".to_string()) };
    match validate_save_message_request(&long) {
        Err(ApiError::ValidationError(errs)) => {
            assert_eq!(errs.len(), 2);
            assert_eq!(errs[0].field, "content");
            assert_eq!(errs[1].field, "ack_id");
        }
        other => panic!("{:?}", other),
    }
    let empty = SaveMessageRequest { content: String::new(), ack_id: None };
    assert!(validate_save_message_request(&empty).is_err());
}

#[test]
fn cursors_are_exclusive() {
    let both = GetMessagesQuery {
        before: Some("01ARZ3NDEKTSV4RRFFQ69G5FAV".to_string()),
        after: Some("01ARZ3NDEKTSV4RRFFQ69G5FA1".to_string()),
        limit: None,
    };
    match validate_get_messages_query(&both) {
        Err(ApiError::ValidationError(errs)) => {
            assert_eq!(errs.len(), 1);
            assert_eq!(errs[0].field, "after");
            assert_eq!(errs[0].errors, vec!["Must not be given together with before.".to_string()]);
        }
        other => panic!("{:?}", other),
    }
}
