use chat_backend::{
    add_friend, add_friend_response, apply_add_friend, apply_remove_friend, direct_chat_or_new,
    find_direct_chat, find_or_create_direct_chat, find_relations_of_user, get_friend_ids, new_direct_chat,
    pull_relation, relation_status, remove_friend, remove_friend_response, set_relation_status, ApiError,
    Chat, ChatRecipient, ChatType, FriendAction, Relation, RelationStatus, User, UserAccount, UserProfile,
};

fn rel(id: &str, status: RelationStatus) -> Relation {
    Relation { id: id.to_string(), status }
}

fn user_with(id: &str, name: &str, rels: Option<Vec<Relation>>) -> User {
    User {
        account: UserAccount { id: id.to_string(), username: name.to_string(), password_hash: "h".to_string() },
        profile: rels.map(|relations| UserProfile { relations }),
    }
}

fn direct(id: &str, a: &str, b: &str) -> Chat {
    Chat {
        id: id.to_string(),
        chat_type: ChatType::Direct,
        recipients: vec![ChatRecipient { id: a.to_string() }, ChatRecipient { id: b.to_string() }],
        last_message_id: None,
    }
}

#[test]
fn add_friend_transition_table() {
    let cases = [
        (RelationStatus::Friend, Err(ApiError::AlreadyFriends)),
        (RelationStatus::Blocked, Err(ApiError::BlockedByOtherFriend)),
        (RelationStatus::BlockedByOther, Err(ApiError::BlockedFriend)),
        (RelationStatus::Incoming, Err(ApiError::AlreadySentFR)),
        (RelationStatus::Outgoing, Ok(FriendAction::AcceptRequest)),
    ];
    for (status, expected) in cases {
        let b = user_with("B", "bob", Some(vec![rel("A", status)]));
        let got = add_friend(Some(&b), "A");
        match (got, expected) {
            (Ok(x), Ok(y)) => assert_eq!(x, y),
            (Err(x), Err(y)) => assert_eq!(format!("{:?}", x), format!("{:?}", y)),
            (g, e) => panic!("{:?} vs {:?}", g, e),
        }
    }
    let b = user_with("B", "bob", None);
    assert_eq!(add_friend(Some(&b), "A").unwrap(), FriendAction::SendRequest);
    let b = user_with("B", "bob", Some(vec![rel("C", RelationStatus::Friend)]));
    assert_eq!(add_friend(Some(&b), "A").unwrap(), FriendAction::SendRequest);
}

#[test]
fn add_friend_rejects_self_and_missing_user() {
    let a = user_with("A", "alice", None);
    assert!(matches!(add_friend(Some(&a), "A"), Err(ApiError::CantAddSelf)));
    assert!(matches!(add_friend(None, "A"), Err(ApiError::UserNotFound)));
}

#[test]
fn request_then_accept_keeps_sides_mirrored() {
    let mut a_rels: Vec<Relation> = vec![rel("C", RelationStatus::Friend)];
    let mut b_rels: Vec<Relation> = vec![];
    // A asks B.
    let b = user_with("B", "bob", Some(b_rels.clone()));
    let action = add_friend(Some(&b), "A").unwrap();
    assert_eq!(action, FriendAction::SendRequest);
    apply_add_friend(&mut a_rels, &mut b_rels, "A", "B", action);
    assert_eq!(relation_status(&a_rels, "B"), RelationStatus::Outgoing);
    assert_eq!(relation_status(&b_rels, "A"), RelationStatus::Incoming);
    assert_eq!(relation_status(&a_rels, "C"), RelationStatus::Friend);
    // Asking again is refused and adds nothing.
    let b = user_with("B", "bob", Some(b_rels.clone()));
    assert!(matches!(add_friend(Some(&b), "A"), Err(ApiError::AlreadySentFR)));
    assert_eq!(a_rels.len(), 2);
    assert_eq!(b_rels.len(), 1);
    // B asks back: that accepts.
    let a = user_with("A", "alice", Some(a_rels.clone()));
    let action = add_friend(Some(&a), "B").unwrap();
    assert_eq!(action, FriendAction::AcceptRequest);
    apply_add_friend(&mut b_rels, &mut a_rels, "B", "A", action);
    assert_eq!(relation_status(&a_rels, "B"), RelationStatus::Friend);
    assert_eq!(relation_status(&b_rels, "A"), RelationStatus::Friend);
    assert_eq!(a_rels.len(), 2);
    assert_eq!(b_rels.len(), 1);
}

#[test]
fn remove_friend_outcomes() {
    assert!(matches!(remove_friend("A", "A", None), Err(ApiError::CantRemoveSelf)));
    assert!(matches!(remove_friend("B", "A", None), Err(ApiError::UserNotFound)));
    let b = user_with("B", "bob", None);
    assert!(matches!(remove_friend("B", "A", Some(&b)), Err(ApiError::UserNotFound)));
    let b = user_with("B", "bob", Some(vec![rel("A", RelationStatus::Blocked)]));
    assert!(matches!(remove_friend("B", "A", Some(&b)), Err(ApiError::BlockedByOtherFriend)));
    let b = user_with("B", "bob", Some(vec![rel("A", RelationStatus::BlockedByOther)]));
    assert!(matches!(remove_friend("B", "A", Some(&b)), Err(ApiError::BlockedFriend)));
    for st in [RelationStatus::Friend, RelationStatus::Incoming, RelationStatus::Outgoing] {
        let b = user_with("B", "bob", Some(vec![rel("A", st)]));
        assert_eq!(remove_friend("B", "A", Some(&b)).unwrap(), st);
    }
}

#[test]
fn removal_messages_and_pulls() {
    assert_eq!(remove_friend_response("B", RelationStatus::Friend, Some("c1".to_string())).message, "Friend removed.");
    assert_eq!(remove_friend_response("B", RelationStatus::Incoming, None).message, "Friend request canceled.");
    assert_eq!(remove_friend_response("B", RelationStatus::Outgoing, None).message, "Friend request declined.");
    let r = remove_friend_response("B", RelationStatus::Friend, Some("c1".to_string()));
    assert_eq!(r.user.id, "B");
    assert_eq!(r.chat_id.as_deref(), Some("c1"));

    let mut a_rels = vec![rel("B", RelationStatus::Friend), rel("C", RelationStatus::Incoming)];
    let mut b_rels = vec![rel("A", RelationStatus::Friend)];
    apply_remove_friend(&mut a_rels, &mut b_rels, "A", "B");
    assert_eq!(relation_status(&a_rels, "B"), RelationStatus::Unrelated);
    assert_eq!(relation_status(&b_rels, "A"), RelationStatus::Unrelated);
    assert_eq!(relation_status(&a_rels, "C"), RelationStatus::Incoming);
    assert_eq!(a_rels.len(), 1);
    assert!(b_rels.is_empty());
}

#[test]
fn set_status_changes_first_entry_only() {
    let mut rels = vec![rel("X", RelationStatus::Outgoing), rel("Y", RelationStatus::Incoming)];
    set_relation_status(&mut rels, "Y", RelationStatus::Friend);
    assert_eq!(rels[0].status, RelationStatus::Outgoing);
    assert_eq!(rels[1].status, RelationStatus::Friend);
    set_relation_status(&mut rels, "Z", RelationStatus::Friend);
    assert_eq!(rels.len(), 2);
    let mut rels = vec![rel("X", RelationStatus::Outgoing), rel("X", RelationStatus::Incoming)];
    pull_relation(&mut rels, "X");
    assert!(rels.is_empty());
}

#[test]
fn direct_chat_found_or_created_once() {
    let mut chats = vec![
        Chat { id: "g".to_string(), chat_type: ChatType::Group, recipients: vec![ChatRecipient { id: "A".to_string() }, ChatRecipient { id: "B".to_string() }], last_message_id: None },
        direct("d1", "A", "C"),
    ];
    assert_eq!(find_direct_chat(&chats, "A", "B"), None);
    let i = find_or_create_direct_chat(&mut chats, "B", "A", "new".to_string());
    assert_eq!(i, 2);
    assert_eq!(chats[2].id, "new");
    assert_eq!(chats[2].recipients[0].id, "B");
    assert_eq!(chats[2].recipients[1].id, "A");
    let j = find_or_create_direct_chat(&mut chats, "A", "B", "other".to_string());
    assert_eq!(j, 2);
    assert_eq!(chats.len(), 3);
    assert_eq!(find_direct_chat(&chats, "B", "A"), Some(2));
}

#[test]
fn accept_response_carries_chat() {
    let b = user_with("B", "bob", None);
    let found = direct_chat_or_new(Some(direct("d9", "B", "A")), "B", "A");
    assert_eq!(found.id, "d9");
    let fresh = direct_chat_or_new(None, "B", "A");
    assert_eq!(fresh.id.len(), 26);
    assert_eq!(fresh.recipients.len(), 2);
    let resp = add_friend_response(&b, Some(fresh));
    assert_eq!(resp.message, "Friend request accepted");
    assert_eq!(resp.user.username, "bob");
    assert!(resp.chat.is_some());
    let resp = add_friend_response(&b, None);
    assert_eq!(resp.message, "Friend request sent");
    let c = new_direct_chat("x".to_string(), "B", "A");
    assert_eq!(c.chat_type, ChatType::Direct);
}

#[test]
fn friend_ids_and_relations_of_user() {
    let u = user_with("A", "alice", Some(vec![rel("B", RelationStatus::Friend), rel("C", RelationStatus::Outgoing), rel("D", RelationStatus::Friend)]));
    assert_eq!(get_friend_ids(Some(&u)).unwrap(), vec!["B".to_string(), "D".to_string()]);
    assert_eq!(find_relations_of_user(Some(&u)).unwrap().len(), 3);
    let lone = user_with("E", "eve", None);
    assert!(get_friend_ids(Some(&lone)).unwrap().is_empty());
    assert!(matches!(get_friend_ids(None), Err(ApiError::UserNotFound)));
    assert!(matches!(find_relations_of_user(None), Err(ApiError::UserNotFound)));
}

#[test]
fn status_names() {
    assert_eq!(RelationStatus::Unrelated.to_string(), "None");
    assert_eq!(RelationStatus::BlockedByOther.to_string(), "BlockedByOther");
    assert_eq!(ChatType::Direct.to_string(), "Direct");
    assert_eq!(ChatType::Group.to_string(), "Group");
}
