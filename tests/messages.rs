use chat_backend::{
    accept_drawn,
    authorize_direct_message, get_messages, get_messages_by_id, id_lt, id_timestamp, message_json, new_id,
    page_messages, save_direct_message, ApiError, IdMinter, Chat, ChatRecipient, ChatType, Message, Relation,
    RelationStatus,
};

const BASE: &str = "01ARZ3NDEKTSV4RRFFQ69G5FA";

fn msg_id(k: usize) -> String {
    format!("{}{}", BASE, k)
}

fn ten_messages() -> Vec<Message> {
    // Stored out of order on purpose: the page does not rely on storage order.
    let mut v: Vec<Message> = (1..=9)
        .rev()
        .map(|k| Message { id: msg_id(k), chat_id: "C".to_string(), author_id: "a".to_string(), content: format!("m{}", k) })
        .collect();
    v.push(Message { id: format!("{}A", BASE), chat_id: "C".to_string(), author_id: "a".to_string(), content: "m10".to_string() });
    v.push(Message { id: msg_id(5).replace("FA5", "FB5"), chat_id: "other".to_string(), author_id: "a".to_string(), content: "x".to_string() });
    v
}

fn contents(v: &[Message]) -> Vec<String> {
    v.iter().map(|m| m.content.clone()).collect()
}

#[test]
fn page_newest_first() {
    let msgs = ten_messages();
    let p = page_messages(&msgs, "C", &None, &None, 3);
    assert_eq!(contents(&p), vec!["m10", "m9", "m8"]);
}

#[test]
fn page_before_cursor_is_strict() {
    let msgs = ten_messages();
    let p = page_messages(&msgs, "C", &Some(msg_id(8)), &None, 3);
    assert_eq!(contents(&p), vec!["m7", "m6", "m5"]);
}

#[test]
fn page_after_cursor_takes_closest() {
    let msgs = ten_messages();
    let p = page_messages(&msgs, "C", &None, &Some(msg_id(2)), 3);
    assert_eq!(contents(&p), vec!["m5", "m4", "m3"]);
}

#[test]
fn page_short_window_and_before_precedence() {
    let msgs = ten_messages();
    let p = page_messages(&msgs, "C", &Some(msg_id(3)), &Some(msg_id(1)), 50);
    assert_eq!(contents(&p), vec!["m2", "m1"]);
    let p = page_messages(&msgs, "nothing", &None, &None, 50);
    assert!(p.is_empty());
}

#[test]
fn id_order_is_lexicographic() {
    assert!(id_lt("01A", "01B"));
    assert!(id_lt("01", "012"));
    assert!(!id_lt("012", "01"));
    assert!(!id_lt("abc", "abc"));
}

#[test]
fn timestamps_come_from_ids() {
    assert_eq!(id_timestamp("01ARZ3NDEKTSV4RRFFQ69G5FAV"), Some(1469922850259));
    assert_eq!(id_timestamp("not-an-id"), None);
    let (id, ts) = new_id();
    assert_eq!(id.len(), 26);
    assert_eq!(id_timestamp(&id), Some(ts));
    let m = Message { id: "01ARZ3NDEKTSV4RRFFQ69G5FAV".to_string(), chat_id: "C".to_string(), author_id: "a".to_string(), content: "hi".to_string() };
    assert_eq!(message_json(&m).unwrap().timestamp, 1469922850259);
    let bad = Message { id: "bad".to_string(), ..m.clone() };
    assert!(matches!(message_json(&bad), Err(ApiError::UnknownError(_))));
    assert!(matches!(get_messages_by_id(&vec![m.clone(), bad]), Err(ApiError::UnknownError(_))));
    assert_eq!(get_messages_by_id(&vec![m]).unwrap().len(), 1);
}

fn chat_of(recipients: &[&str]) -> Chat {
    Chat {
        id: "C".to_string(),
        chat_type: ChatType::Direct,
        recipients: recipients.iter().map(|r| ChatRecipient { id: r.to_string() }).collect(),
        last_message_id: None,
    }
}

#[test]
fn reading_needs_membership() {
    let msgs = ten_messages();
    assert!(matches!(get_messages(None, "a", &msgs, &None, &None, 3), Err(ApiError::ChatNotFound)));
    let c = chat_of(&["a", "b"]);
    assert!(matches!(get_messages(Some(&c), "z", &msgs, &None, &None, 3), Err(ApiError::ChatReadPermissionDenied)));
    let page = get_messages(Some(&c), "a", &msgs, &None, &None, 3).unwrap();
    assert_eq!(page.len(), 3);
    assert_eq!(page[0].content, "m10");
}

#[test]
fn direct_write_authorization() {
    let friends = vec![Relation { id: "b".to_string(), status: RelationStatus::Friend }];
    let pending = vec![Relation { id: "b".to_string(), status: RelationStatus::Outgoing }];
    assert!(matches!(authorize_direct_message(None, "a", Some(&friends)), Err(ApiError::ChatNotFound)));
    let three = chat_of(&["a", "b", "c"]);
    assert!(matches!(authorize_direct_message(Some(&three), "a", Some(&friends)), Err(ApiError::ChatWritePermissionDenied)));
    let two = chat_of(&["a", "b"]);
    assert!(matches!(authorize_direct_message(Some(&two), "z", Some(&friends)), Err(ApiError::ChatWritePermissionDenied)));
    assert!(matches!(authorize_direct_message(Some(&two), "a", Some(&pending)), Err(ApiError::ChatWritePermissionDenied)));
    assert!(matches!(authorize_direct_message(Some(&two), "a", Some(&vec![])), Err(ApiError::ChatWritePermissionDenied)));
    assert!(matches!(authorize_direct_message(Some(&two), "a", None), Err(ApiError::UserNotFound)));
    let same = chat_of(&["a", "a"]);
    assert!(matches!(authorize_direct_message(Some(&same), "a", Some(&friends)), Err(ApiError::UnknownError(_))));
    assert_eq!(authorize_direct_message(Some(&two), "a", Some(&friends)).unwrap(), "b");
}

#[test]
fn saving_updates_last_message() {
    let friends = vec![Relation { id: "b".to_string(), status: RelationStatus::Friend }];
    let mut minter = IdMinter::new();
    let mut chat = Some(chat_of(&["b", "a"]));
    let saved = save_direct_message(&mut chat, &mut minter, "a", Some(&friends), "  hello  ").unwrap();
    assert_eq!(saved.content, "hello");
    assert_eq!(saved.chat_id, "C");
    assert_eq!(saved.author_id, "a");
    assert_eq!(id_timestamp(&saved.id), Some(saved.timestamp));
    assert_eq!(chat.as_ref().unwrap().last_message_id.as_deref(), Some(saved.id.as_str()));

    let mut denied = Some(chat_of(&["b", "a"]));
    let r = save_direct_message(&mut denied, &mut minter, "a", Some(&vec![]), "x");
    assert!(matches!(r, Err(ApiError::ChatWritePermissionDenied)));
    assert!(denied.unwrap().last_message_id.is_none());
    let mut missing: Option<Chat> = None;
    assert!(matches!(save_direct_message(&mut missing, &mut minter, "a", Some(&friends), "x"), Err(ApiError::ChatNotFound)));
}

#[test]
fn page_lists_each_id_once() {
    let a = Message { id: msg_id(1), chat_id: "C".to_string(), author_id: "a".to_string(), content: "x".to_string() };
    let b = Message { content: "y".to_string(), ..a.clone() };
    let c = Message { id: msg_id(2), content: "z".to_string(), ..a.clone() };
    let p = page_messages(&vec![a, b, c], "C", &None, &None, 5);
    assert_eq!(p.len(), 2);
    assert_eq!(p[0].id, msg_id(2));
    assert_eq!(p[1].id, msg_id(1));
    let none = page_messages(&ten_messages(), "C", &None, &None, 0);
    assert!(none.is_empty());
}

#[test]
fn refused_writes_report_their_reason() {
    let friends = vec![Relation { id: "b".to_string(), status: RelationStatus::Friend }];
    let mut minter = IdMinter::new();
    let mut three = Some(chat_of(&["a", "b", "c"]));
    assert!(matches!(save_direct_message(&mut three, &mut minter, "a", Some(&friends), "x"), Err(ApiError::ChatWritePermissionDenied)));
    let mut two = Some(chat_of(&["a", "b"]));
    assert!(matches!(save_direct_message(&mut two, &mut minter, "z", Some(&friends), "x"), Err(ApiError::ChatWritePermissionDenied)));
    let pending = vec![Relation { id: "b".to_string(), status: RelationStatus::Incoming }];
    assert!(matches!(save_direct_message(&mut two, &mut minter, "a", Some(&pending), "x"), Err(ApiError::ChatWritePermissionDenied)));
    assert!(matches!(save_direct_message(&mut two, &mut minter, "a", None, "x"), Err(ApiError::UserNotFound)));
    assert!(two.unwrap().last_message_id.is_none());
}

#[test]
fn minted_ids_increase() {
    let friends = vec![Relation { id: "b".to_string(), status: RelationStatus::Friend }];
    let mut minter = IdMinter::new();
    let mut chat = Some(chat_of(&["a", "b"]));
    let mut previous: Option<String> = None;
    for _ in 0..50 {
        let m = save_direct_message(&mut chat, &mut minter, "a", Some(&friends), "x").unwrap();
        assert_eq!(id_timestamp(&m.id), Some(m.timestamp));
        if let Some(p) = &previous {
            assert!(id_lt(p, &m.id));
        }
        previous = Some(m.id);
    }
}

#[test]
fn drawn_values_accepted_in_order() {
    assert!(accept_drawn(5, None).is_none());
    assert!(accept_drawn(5, Some(5)).is_none());
    assert!(accept_drawn(5, Some(3)).is_none());
    let (id, ts) = accept_drawn(0, Some(1u128 << 80)).unwrap();
    assert_eq!(id, "00000000010000000000000000");
    assert_eq!(ts, 1);
    let (big, _) = accept_drawn(1, Some(u128::MAX)).unwrap();
    assert_eq!(big, "7ZZZZZZZZZZZZZZZZZZZZZZZZZ");
    assert!(id_lt(&id, &big));
}

#[test]
fn content_trimmed_of_unicode_space() {
    let friends = vec![Relation { id: "b".to_string(), status: RelationStatus::Friend }];
    let mut minter = IdMinter::new();
    let mut chat = Some(chat_of(&["a", "b"]));
    let m = save_direct_message(&mut chat, &mut minter, "a", Some(&friends), "\u{3000}\thi there\u{a0}").unwrap();
    assert_eq!(m.content, "hi there");
}
