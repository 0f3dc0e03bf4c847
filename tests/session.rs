use chat_backend::{
    add_friend, apply_add_friend, auth_reply, auth_step, chats_with, direct_chat_or_new, emit_friend_added,
    emit_new_friend_request, emit_new_message, friend_ids_of, handle_client_frame, id_timestamp, last_message_ids,
    related_user_ids, relation_status, save_direct_message, setup_user_socket, ApiError, AppState, AuthFrame, IdMinter,
    AuthReq, AuthStep, Chat, ChatJson, ChatRecipient, ChatType, FriendAction, MessageSaveResponse, ReadyData,
    RelatedUserStatus, Relation, RelationStatus, ServerEvent, User, UserAccount, UserProfile, WsInput,
    find_related_users_with_status, UserUsername,
};

fn ready_for(id: &str, users: Vec<RelatedUserStatus>, chats: Vec<Chat>) -> ReadyData {
    ReadyData {
        id: id.to_string(),
        username: id.to_string(),
        users,
        chats,
        last_messages: vec![],
        session_id: "s".to_string(),
    }
}

fn related(id: &str, relationship: Option<RelationStatus>) -> RelatedUserStatus {
    RelatedUserStatus { id: id.to_string(), username: id.to_string(), online: false, last_seen_s: None, relationship }
}

fn chat2(id: &str, a: &str, b: &str, last: Option<&str>) -> Chat {
    Chat {
        id: id.to_string(),
        chat_type: ChatType::Direct,
        recipients: vec![ChatRecipient { id: a.to_string() }, ChatRecipient { id: b.to_string() }],
        last_message_id: last.map(|s| s.to_string()),
    }
}

#[test]
fn handshake_decisions() {
    assert!(matches!(auth_step(AuthFrame::Closed), AuthStep::Stop));
    match auth_step(AuthFrame::TimedOut) {
        AuthStep::Reject(m) => assert_eq!(m, "Authentication timed out: No data received."),
        other => panic!("{:?}", other),
    }
    match auth_step(AuthFrame::Text(None)) {
        AuthStep::Reject(m) => assert_eq!(m, "Invalid JSON data."),
        other => panic!("{:?}", other),
    }
    let wrong = AuthReq { event: "Hello".to_string(), token: "t".to_string() };
    match auth_step(AuthFrame::Text(Some(wrong))) {
        AuthStep::Reject(m) => assert_eq!(m, "Invalid authentication type."),
        other => panic!("{:?}", other),
    }
    let ok = AuthReq { event: "Authenticate".to_string(), token: "tok".to_string() };
    match auth_step(AuthFrame::Text(Some(ok))) {
        AuthStep::Validate(t) => assert_eq!(t, "tok"),
        other => panic!("{:?}", other),
    }
    match auth_reply(Err(ApiError::Unauthorized)) {
        ServerEvent::AuthError(m) => assert_eq!(m, "Invalid token."),
        other => panic!("{:?}", other),
    }
    match auth_reply(Err(ApiError::UnknownError("db".to_string()))) {
        ServerEvent::AuthError(m) => assert_eq!(m, "Internal Server Error"),
        other => panic!("{:?}", other),
    }
    assert!(matches!(auth_reply(Ok(ready_for("a", vec![], vec![]))), ServerEvent::Ready(_)));
}

#[test]
fn ready_payload_parts() {
    let user = User {
        account: UserAccount { id: "a".to_string(), username: "alice".to_string(), password_hash: "h".to_string() },
        profile: Some(UserProfile { relations: vec![Relation { id: "b".to_string(), status: RelationStatus::Friend }] }),
    };
    let chats = vec![chat2("c1", "a", "b", Some("m1")), chat2("c2", "a", "c", None)];
    assert_eq!(related_user_ids(&user, &chats), vec!["b".to_string(), "c".to_string()]);
    assert_eq!(last_message_ids(&chats), vec!["m1".to_string()]);
    let mut st = AppState::new();
    st.connect("b", 5, vec![]);
    let users = vec![
        UserUsername { id: "b".to_string(), username: "bob".to_string() },
        UserUsername { id: "c".to_string(), username: "carol".to_string() },
    ];
    let rel = find_related_users_with_status(&st, users, &user.profile.as_ref().unwrap().relations);
    assert_eq!(rel.len(), 2);
    assert!(rel[0].online);
    assert_eq!(rel[0].relationship, Some(RelationStatus::Friend));
    assert!(!rel[1].online);
    assert_eq!(rel[1].relationship, None);
    let friends = friend_ids_of(&rel);
    assert_eq!(friends, vec!["b".to_string()]);
    assert_eq!(chats_with(&chats, &friends), vec!["c1".to_string()]);
}

#[test]
fn typing_and_unknown_frames() {
    let mut st = AppState::new();
    st.connect("a", 1, vec!["c".to_string()]);
    st.connect("b", 2, vec!["c".to_string()]);
    let out = handle_client_frame(&st, "a", Some(WsInput { event: "ChatStartTyping".to_string(), data: "c".to_string() }));
    assert_eq!(out.len(), 1);
    assert_eq!(out[0].channels, vec![2]);
    assert!(matches!(out[0].event, ServerEvent::ChatStartTyping { .. }));
    let out = handle_client_frame(&st, "a", Some(WsInput { event: "ChatEndTyping".to_string(), data: "zzz".to_string() }));
    assert!(out.is_empty());
    let out = handle_client_frame(&st, "a", Some(WsInput { event: "Dance".to_string(), data: "c".to_string() }));
    assert_eq!(out[0].channels, vec![1]);
    match &out[0].event {
        ServerEvent::Error(m) => assert_eq!(m, "Unknown event."),
        other => panic!("{:?}", other),
    }
    let out = handle_client_frame(&st, "a", None);
    match &out[0].event {
        ServerEvent::Error(m) => assert_eq!(m, "Invalid json data."),
        other => panic!("{:?}", other),
    }
}

#[test]
fn end_to_end_friendship_and_message() {
    let mut st = AppState::new();
    // A connects with nothing yet.
    let notices = setup_user_socket(&mut st, &ready_for("A", vec![], vec![]), 1);
    assert_eq!(notices.len(), 1);
    assert!(notices[0].channels.is_empty());
    // B connects on another socket.
    setup_user_socket(&mut st, &ready_for("B", vec![], vec![]), 2);
    // B sends a friend request to A.
    let mut a_rels: Vec<Relation> = vec![];
    let mut b_rels: Vec<Relation> = vec![];
    let a_user = User {
        account: UserAccount { id: "A".to_string(), username: "alice".to_string(), password_hash: "h".to_string() },
        profile: None,
    };
    assert_eq!(add_friend(Some(&a_user), "B").unwrap(), FriendAction::SendRequest);
    apply_add_friend(&mut b_rels, &mut a_rels, "B", "A", FriendAction::SendRequest);
    assert_eq!(relation_status(&b_rels, "A"), RelationStatus::Outgoing);
    assert_eq!(relation_status(&a_rels, "B"), RelationStatus::Incoming);
    let req = emit_new_friend_request(&st, "B", "bob", "A", "alice");
    assert_eq!(req[0].channels, vec![1]);
    // A accepts: B's entry for A is Outgoing.
    let b_user = User {
        account: UserAccount { id: "B".to_string(), username: "bob".to_string(), password_hash: "h".to_string() },
        profile: Some(UserProfile { relations: b_rels.clone() }),
    };
    let action = add_friend(Some(&b_user), "A").unwrap();
    assert_eq!(action, FriendAction::AcceptRequest);
    apply_add_friend(&mut a_rels, &mut b_rels, "A", "B", action);
    assert_eq!(relation_status(&a_rels, "B"), RelationStatus::Friend);
    assert_eq!(relation_status(&b_rels, "A"), RelationStatus::Friend);
    let chat = direct_chat_or_new(None, "B", "A");
    let chat_json = ChatJson {
        id: chat.id.clone(),
        chat_type: chat.chat_type,
        recipients: chat.recipients.clone(),
        last_message_id: None,
    };
    let events = emit_friend_added(&mut st, "A", "B", chat_json);
    assert_eq!(events[0].channels, vec![1]);
    assert_eq!(events[1].channels, vec![2]);
    assert!(matches!(events[0].event, ServerEvent::UserUpdate(_)));
    assert_eq!(events[2].channels, vec![1, 2]);
    // B writes; A's socket receives the message with a parseable id.
    let mut stored = Some(chat);
    let mut minter = IdMinter::new();
    let saved = save_direct_message(&mut stored, &mut minter, "B", Some(&b_rels), "hi A").unwrap();
    let response = MessageSaveResponse {
        id: saved.id.clone(),
        chat_id: saved.chat_id.clone(),
        author_id: saved.author_id.clone(),
        content: saved.content.clone(),
        timestamp: saved.timestamp,
        ack_id: None,
    };
    let d = emit_new_message(&st, response);
    assert!(d.channels.contains(&1));
    assert!(matches!(d.event, ServerEvent::ChatNewMessage(_)));
    assert_eq!(id_timestamp(&saved.id), Some(saved.timestamp));
}

#[test]
fn related_ids_are_listed_once() {
    let user = User {
        account: UserAccount { id: "a".to_string(), username: "alice".to_string(), password_hash: "h".to_string() },
        profile: Some(UserProfile { relations: vec![Relation { id: "b".to_string(), status: RelationStatus::Friend }] }),
    };
    let chats = vec![chat2("c1", "a", "b", None), chat2("c2", "c", "a", None), chat2("c3", "c", "b", None)];
    assert_eq!(related_user_ids(&user, &chats), vec!["b".to_string(), "c".to_string()]);
}
