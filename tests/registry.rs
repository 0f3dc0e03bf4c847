use chat_backend::{
    emit_friend_added, emit_friend_removed, emit_new_friend_request, leave_direct_chat, AppState, ChatJson,
    ChatRecipient, ChatType, RelationStatus, ServerEvent,
};

fn ids(v: &[&str]) -> Vec<String> {
    v.iter().map(|s| s.to_string()).collect()
}

#[test]
fn presence_follows_channels() {
    let mut st = AppState::new();
    assert_eq!(st.presence("u"), (false, None));
    assert!(st.connect("u", 1, ids(&[])));
    assert_eq!(st.presence("u"), (true, None));
    assert!(!st.connect("u", 2, ids(&[])));
    assert_eq!(st.user_channels("u"), vec![1, 2]);
    assert_eq!(st.disconnect("u", 1, 100), None);
    assert_eq!(st.presence("u"), (true, None));
    assert_eq!(st.disconnect("u", 2, 200), Some(200));
    assert_eq!(st.presence("u"), (false, Some(200)));
    assert!(st.user_channels("u").is_empty());
    // The first channel again clears the last-seen time.
    assert!(st.connect("u", 3, ids(&[])));
    assert_eq!(st.presence("u"), (true, None));
}

#[test]
fn disconnect_of_unknown_user_is_ignored() {
    let mut st = AppState::new();
    assert_eq!(st.disconnect("ghost", 7, 5), None);
    assert!(!st.is_known("ghost"));
}

#[test]
fn last_disconnect_prunes_memberships() {
    let mut st = AppState::new();
    st.connect("a", 1, ids(&["c1", "c2"]));
    st.connect("b", 2, ids(&["c1"]));
    assert_eq!(st.members_of("c1"), ids(&["a", "b"]));
    assert_eq!(st.members_of("c2"), ids(&["a"]));
    assert_eq!(st.disconnect("a", 1, 50), Some(50));
    assert_eq!(st.members_of("c1"), ids(&["b"]));
    assert!(st.has_chat("c1"));
    assert!(!st.has_chat("c2"));
    assert!(st.members_of("c2").is_empty());
}

#[test]
fn reconnect_replaces_cached_chats() {
    let mut st = AppState::new();
    st.connect("a", 1, ids(&["c1", "c2"]));
    st.connect("a", 2, ids(&["c2", "c3"]));
    assert!(!st.has_chat("c1"));
    assert_eq!(st.members_of("c2"), ids(&["a"]));
    assert_eq!(st.members_of("c3"), ids(&["a"]));
    assert!(st.user_perm_chat_exists("a", "c3"));
    assert!(!st.user_perm_chat_exists("a", "c1"));
    assert!(!st.user_perm_chat_exists("z", "c3"));
}

#[test]
fn fan_out_to_chat_members() {
    let mut st = AppState::new();
    st.connect("a", 1, ids(&["c"]));
    st.connect("a", 2, ids(&["c"]));
    st.connect("b", 3, ids(&["c"]));
    assert_eq!(st.chat_channels("c"), vec![1, 2, 3]);
    assert_eq!(st.chat_channels_except("c", "a"), vec![3]);
    assert!(st.chat_channels("none").is_empty());
    st.add_member("c", "x");
    assert_eq!(st.chat_channels("c"), vec![1, 2, 3]);
    st.remove_member("c", "x");
    st.remove_member("c", "a");
    st.remove_member("c", "b");
    assert!(!st.has_chat("c"));
}

#[test]
fn online_notice_reaches_friends() {
    let mut st = AppState::new();
    st.connect("f1", 10, ids(&[]));
    st.connect("f2", 20, ids(&[]));
    let d = st.emit_user_online("u", &ids(&["f1", "f2", "nobody"]), false, Some(9));
    assert_eq!(d.channels, vec![10, 20]);
    match d.event {
        ServerEvent::UserUpdate(u) => {
            assert_eq!(u.id, "u");
            assert_eq!(u.online, Some(false));
            assert_eq!(u.last_seen, Some(Some(9)));
        }
        other => panic!("{:?}", other),
    }
}

#[test]
fn friend_events_update_routing() {
    let mut st = AppState::new();
    st.connect("a", 1, ids(&[]));
    st.connect("b", 2, ids(&[]));
    let req = emit_new_friend_request(&st, "a", "alice", "b", "bob");
    assert_eq!(req[0].channels, vec![2]);
    match &req[0].event {
        ServerEvent::UserUpdate(u) => {
            assert_eq!(u.id, "a");
            assert_eq!(u.relationship, Some(RelationStatus::Incoming));
        }
        other => panic!("{:?}", other),
    }
    let chat = ChatJson {
        id: "dc".to_string(),
        chat_type: ChatType::Direct,
        recipients: vec![ChatRecipient { id: "b".to_string() }, ChatRecipient { id: "a".to_string() }],
        last_message_id: None,
    };
    let out = emit_friend_added(&mut st, "a", "b", chat);
    assert_eq!(out.len(), 3);
    assert_eq!(out[0].channels, vec![1]);
    assert_eq!(out[2].channels, vec![1, 2]);
    assert!(matches!(out[2].event, ServerEvent::NewChat(_)));
    assert_eq!(st.members_of("dc"), ids(&["a", "b"]));
    assert!(st.user_perm_chat_exists("a", "dc"));
    assert!(st.user_perm_chat_exists("b", "dc"));
    let out = emit_friend_removed(&mut st, "a", "b", "Friend removed.", &Some("dc".to_string()));
    assert_eq!(out.len(), 2);
    assert!(!st.has_chat("dc"));
    assert!(!st.user_perm_chat_exists("a", "dc"));
    match &out[1].event {
        ServerEvent::UserUpdate(u) => {
            assert_eq!(u.relationship, Some(RelationStatus::Unrelated));
            assert_eq!(u.message.as_deref(), Some("Friend removed."));
        }
        other => panic!("{:?}", other),
    }
}

#[test]
fn leaving_a_direct_chat_detaches_both() {
    let mut st = AppState::new();
    st.connect("a", 1, ids(&["dc"]));
    st.connect("b", 2, ids(&["dc", "other"]));
    leave_direct_chat(&mut st, "a", "b", "dc");
    assert!(!st.has_chat("dc"));
    assert!(!st.user_perm_chat_exists("a", "dc"));
    assert!(!st.user_perm_chat_exists("b", "dc"));
    assert!(st.user_perm_chat_exists("b", "other"));
    assert_eq!(st.members_of("other"), ids(&["b"]));
}

#[test]
fn cached_chats_are_kept_once() {
    let mut st = AppState::new();
    st.connect("a", 1, ids(&["c", "c", "d"]));
    assert_eq!(st.members_of("c"), ids(&["a"]));
    let chat = ChatJson { id: "c".to_string(), chat_type: ChatType::Direct, recipients: vec![], last_message_id: None };
    st.connect("b", 2, ids(&[]));
    let out = emit_friend_added(&mut st, "a", "b", chat);
    assert_eq!(out[2].channels, vec![1, 2]);
    assert_eq!(st.presence("a"), (true, None));
    assert!(st.user_perm_chat_exists("a", "c"));
}
