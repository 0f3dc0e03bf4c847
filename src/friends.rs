//! Adding and removing friends: the transition table, the updates to both
//! users' relation lists, the pair's direct chat, and the laws that the
//! transitions keep.
use vstd::prelude::*;
use crate::error::ApiError;
use crate::model::{
    chat_json_of, AddFriendResponse, AddFriendUser, Chat, ChatJson, ChatRecipient, ChatType, Relation,
    RelationStatus, RemoveFriendResponse, RemoveFriendUser, User,
};
use crate::relation::{
    entry_of, mirror, mirrored, pull_relation, push_relation, pulled, pushed, relationship_of,
    relationship_spec, set_relation_status, status_in, status_set, unique_peers, no_stored_unrelated,
};
use crate::text::id_eq;

verus! {

/// What an accepted `add_friend` does.
#[derive(Debug, Clone, Copy, PartialEq, Eq, Structural)]
pub enum FriendAction {
    /// Neither side had an entry: the sender asks the receiver.
    SendRequest,
    /// The receiver had asked the sender: both become friends.
    AcceptRequest,
}

/// The transition table of `add_friend`, keyed by how the receiver stands
/// towards the sender.
pub open spec fn add_friend_outcome(
    receiver_id: Seq<char>,
    sender_id: Seq<char>,
    st: RelationStatus,
) -> Result<FriendAction, ApiError> {
    if receiver_id == sender_id {
        Err(ApiError::CantAddSelf)
    } else {
        match st {
            RelationStatus::Friend => Err(ApiError::AlreadyFriends),
            RelationStatus::Blocked => Err(ApiError::BlockedByOtherFriend),
            RelationStatus::BlockedByOther => Err(ApiError::BlockedFriend),
            RelationStatus::Incoming => Err(ApiError::AlreadySentFR),
            RelationStatus::Outgoing => Ok(FriendAction::AcceptRequest),
            RelationStatus::Unrelated => Ok(FriendAction::SendRequest),
        }
    }
}

/// Decides a friend request from `sender_id` to the user found as its
/// target (`None` where no user was found).
pub fn add_friend(receiver: Option<&User>, sender_id: &str) -> (r: Result<FriendAction, ApiError>)
    ensures
        match receiver {
            None => r == Err::<FriendAction, ApiError>(ApiError::UserNotFound),
            Some(u) => r == add_friend_outcome(u.account.id@, sender_id@, relationship_spec(*u, sender_id@)),
        },
{
    let receiver = match receiver {
        Some(u) => u,
        None => return Err(ApiError::UserNotFound),
    };
    if id_eq(receiver.account.id.as_str(), sender_id) {
        return Err(ApiError::CantAddSelf);
    }
    match relationship_of(receiver, sender_id) {
        RelationStatus::Friend => Err(ApiError::AlreadyFriends),
        RelationStatus::Blocked => Err(ApiError::BlockedByOtherFriend),
        RelationStatus::BlockedByOther => Err(ApiError::BlockedFriend),
        RelationStatus::Incoming => Err(ApiError::AlreadySentFR),
        RelationStatus::Outgoing => Ok(FriendAction::AcceptRequest),
        RelationStatus::Unrelated => Ok(FriendAction::SendRequest),
    }
}

/// The two relation lists after `action` between `sender_id` and `receiver_id`.
pub open spec fn add_friend_step(
    s_old: Seq<Relation>,
    r_old: Seq<Relation>,
    s_new: Seq<Relation>,
    r_new: Seq<Relation>,
    sender_id: Seq<char>,
    receiver_id: Seq<char>,
    action: FriendAction,
) -> bool {
    match action {
        FriendAction::SendRequest => {
            &&& pushed(r_old, r_new, sender_id, RelationStatus::Incoming)
            &&& pushed(s_old, s_new, receiver_id, RelationStatus::Outgoing)
        },
        FriendAction::AcceptRequest => {
            &&& status_set(r_old, r_new, sender_id, RelationStatus::Friend)
            &&& status_set(s_old, s_new, receiver_id, RelationStatus::Friend)
        },
    }
}

/// Applies `action` to the sender's and the receiver's relation lists together.
pub fn apply_add_friend(
    sender_rels: &mut Vec<Relation>,
    receiver_rels: &mut Vec<Relation>,
    sender_id: &str,
    receiver_id: &str,
    action: FriendAction,
)
    ensures
        add_friend_step(
            old(sender_rels)@,
            old(receiver_rels)@,
            final(sender_rels)@,
            final(receiver_rels)@,
            sender_id@,
            receiver_id@,
            action,
        ),
{
    match action {
        FriendAction::SendRequest => {
            push_relation(receiver_rels, sender_id.to_owned(), RelationStatus::Incoming);
            push_relation(sender_rels, receiver_id.to_owned(), RelationStatus::Outgoing);
        },
        FriendAction::AcceptRequest => {
            set_relation_status(receiver_rels, sender_id, RelationStatus::Friend);
            set_relation_status(sender_rels, receiver_id, RelationStatus::Friend);
        },
    }
}

/// The transition table of `remove_friend`: the prior status of the receiver
/// towards the sender, which decides what the removal means.
pub open spec fn remove_friend_outcome(
    receiver_id: Seq<char>,
    sender_id: Seq<char>,
    receiver: Option<User>,
) -> Result<RelationStatus, ApiError> {
    if receiver_id == sender_id {
        Err(ApiError::CantRemoveSelf)
    } else {
        match receiver {
            None => Err(ApiError::UserNotFound),
            Some(u) => match relationship_spec(u, sender_id) {
                RelationStatus::Blocked => Err(ApiError::BlockedByOtherFriend),
                RelationStatus::BlockedByOther => Err(ApiError::BlockedFriend),
                RelationStatus::Unrelated => Err(ApiError::UserNotFound),
                st => Ok(st),
            },
        }
    }
}

/// Decides the removal of the relation between `sender_id` and the user
/// `receiver_id` (found as `receiver`, or `None`).
pub fn remove_friend(receiver_id: &str, sender_id: &str, receiver: Option<&User>) -> (r: Result<RelationStatus, ApiError>)
    ensures
        r == remove_friend_outcome(receiver_id@, sender_id@, match receiver { Some(u) => Some(*u), None => None }),
{
    if id_eq(receiver_id, sender_id) {
        return Err(ApiError::CantRemoveSelf);
    }
    let receiver = match receiver {
        Some(u) => u,
        None => return Err(ApiError::UserNotFound),
    };
    match relationship_of(receiver, sender_id) {
        RelationStatus::Blocked => Err(ApiError::BlockedByOtherFriend),
        RelationStatus::BlockedByOther => Err(ApiError::BlockedFriend),
        RelationStatus::Unrelated => Err(ApiError::UserNotFound),
        st => Ok(st),
    }
}

/// Removes the relation from both lists together.
pub fn apply_remove_friend(
    sender_rels: &mut Vec<Relation>,
    receiver_rels: &mut Vec<Relation>,
    sender_id: &str,
    receiver_id: &str,
)
    ensures
        pulled(old(receiver_rels)@, final(receiver_rels)@, sender_id@),
        pulled(old(sender_rels)@, final(sender_rels)@, receiver_id@),
{
    pull_relation(receiver_rels, sender_id);
    pull_relation(sender_rels, receiver_id);
}

/// What a removal is reported as, by the receiver's prior status.
pub open spec fn removal_message_of(prior: RelationStatus) -> Seq<char> {
    match prior {
        RelationStatus::Friend => "Friend removed."@,
        RelationStatus::Incoming => "Friend request canceled."@,
        _ => "Friend request declined."@,
    }
}

/// The response to a removal; `chat_id` is the pair's direct chat, kept with its history.
pub fn remove_friend_response(receiver_id: &str, prior: RelationStatus, chat_id: Option<String>) -> (r: RemoveFriendResponse)
    ensures
        r.user.id@ == receiver_id@,
        r.message@ == removal_message_of(prior),
        r.chat_id == chat_id,
{
    let message = match prior {
        RelationStatus::Friend => "Friend removed.".to_owned(),
        RelationStatus::Incoming => "Friend request canceled.".to_owned(),
        _ => "Friend request declined.".to_owned(),
    };
    RemoveFriendResponse { user: RemoveFriendUser { id: receiver_id.to_owned() }, message, chat_id }
}

/// The response to an accepted `add_friend`: the chat where a request was
/// accepted, none where one was sent.
pub fn add_friend_response(receiver: &User, chat: Option<Chat>) -> (r: AddFriendResponse)
    ensures
        r.user.id@ == receiver.account.id@,
        r.user.username@ == receiver.account.username@,
        r.chat == match chat { Some(c) => Some(chat_json_of(c)), None => None::<ChatJson> },
        r.message@ == if chat is Some { "Friend request accepted"@ } else { "Friend request sent"@ },
{
    let user = AddFriendUser { id: receiver.account.id.clone(), username: receiver.account.username.clone() };
    match chat {
        Some(c) => AddFriendResponse { user, chat: Some(ChatJson::from(c)), message: "Friend request accepted".to_owned() },
        None => AddFriendResponse { user, chat: None, message: "Friend request sent".to_owned() },
    }
}

/// One of the chat's recipients is `id`.
pub open spec fn has_recipient(c: Chat, id: Seq<char>) -> bool {
    exists|i: int| 0 <= i < c.recipients@.len() && #[trigger] c.recipients@[i].id@ == id
}

/// The chat is a direct chat whose recipients include both users.
pub open spec fn is_direct_between(c: Chat, a: Seq<char>, b: Seq<char>) -> bool {
    c.chat_type == ChatType::Direct && has_recipient(c, a) && has_recipient(c, b)
}

/// At most one chat of the list is a direct chat between the two users.
pub open spec fn at_most_one_direct(chats: Seq<Chat>, a: Seq<char>, b: Seq<char>) -> bool {
    forall|i: int, j: int|
        0 <= i < chats.len() && 0 <= j < chats.len() && is_direct_between(#[trigger] chats[i], a, b)
            && is_direct_between(#[trigger] chats[j], a, b) ==> i == j
}

/// Whether `id` is one of the chat's recipients.
pub fn chat_has_recipient(chat: &Chat, id: &str) -> (r: bool)
    ensures
        r == has_recipient(*chat, id@),
{
    let mut i: usize = 0;
    while i < chat.recipients.len()
        invariant
            i <= chat.recipients.len(),
            forall|j: int| 0 <= j < i ==> chat.recipients@[j].id@ != id@,
        decreases chat.recipients.len() - i,
    {
        if id_eq(chat.recipients[i].id.as_str(), id) {
            return true;
        }
        i = i + 1;
    }
    false
}

/// Whether the chat is a direct chat between the two users.
pub fn is_direct_chat_between(chat: &Chat, a: &str, b: &str) -> (r: bool)
    ensures
        r == is_direct_between(*chat, a@, b@),
{
    match chat.chat_type {
        ChatType::Direct => chat_has_recipient(chat, a) && chat_has_recipient(chat, b),
        ChatType::Group => false,
    }
}

/// The first direct chat between the two users.
pub fn find_direct_chat(chats: &Vec<Chat>, a: &str, b: &str) -> (r: Option<usize>)
    ensures
        match r {
            Some(i) => i < chats.len() && is_direct_between(chats@[i as int], a@, b@)
                && forall|j: int| 0 <= j < i ==> !is_direct_between(#[trigger] chats@[j], a@, b@),
            None => forall|j: int| 0 <= j < chats.len() ==> !is_direct_between(#[trigger] chats@[j], a@, b@),
        },
{
    let mut i: usize = 0;
    while i < chats.len()
        invariant
            i <= chats.len(),
            forall|j: int| 0 <= j < i ==> !is_direct_between(#[trigger] chats@[j], a@, b@),
        decreases chats.len() - i,
    {
        if is_direct_chat_between(&chats[i], a, b) {
            return Some(i);
        }
        i = i + 1;
    }
    None
}

/// A new direct chat between the receiver and the sender of a request, with no messages.
pub fn new_direct_chat(id: String, receiver_id: &str, sender_id: &str) -> (r: Chat)
    ensures
        r.id == id,
        r.chat_type == ChatType::Direct,
        r.recipients@.len() == 2,
        r.recipients@[0].id@ == receiver_id@,
        r.recipients@[1].id@ == sender_id@,
        r.last_message_id is None,
        is_direct_between(r, receiver_id@, sender_id@),
{
    let recipients = vec![ChatRecipient { id: receiver_id.to_owned() }, ChatRecipient { id: sender_id.to_owned() }];
    let r = Chat { id, chat_type: ChatType::Direct, recipients, last_message_id: None };
    assert(r.recipients@[0].id@ == receiver_id@);
    assert(r.recipients@[1].id@ == sender_id@);
    r
}

/// The pair's direct chat on acceptance: the one found, or a new one under a fresh id.
pub fn direct_chat_or_new(found: Option<Chat>, receiver_id: &str, sender_id: &str) -> (r: Chat)
    ensures
        match found {
            Some(c) => r == c,
            None => r.chat_type == ChatType::Direct && r.recipients@.len() == 2
                && r.recipients@[0].id@ == receiver_id@ && r.recipients@[1].id@ == sender_id@
                && r.last_message_id is None && r.id@.len() == 26,
        },
{
    match found {
        Some(c) => c,
        None => {
            let (id, _) = crate::ids::new_id();
            new_direct_chat(id, receiver_id, sender_id)
        },
    }
}

/// Finds the direct chat between the two users, or adds one under `new_id`;
/// returns its index. Where there was at most one such chat, there is
/// exactly one afterwards.
pub fn find_or_create_direct_chat(chats: &mut Vec<Chat>, receiver_id: &str, sender_id: &str, new_id: String) -> (r: usize)
    ensures
        r < final(chats).len(),
        is_direct_between(final(chats)@[r as int], receiver_id@, sender_id@),
        (exists|j: int| 0 <= j < old(chats).len() && is_direct_between(#[trigger] old(chats)@[j], receiver_id@, sender_id@))
            ==> final(chats)@ == old(chats)@,
        !(exists|j: int| 0 <= j < old(chats).len() && is_direct_between(#[trigger] old(chats)@[j], receiver_id@, sender_id@))
            ==> final(chats)@ == old(chats)@.push(final(chats)@[r as int]) && final(chats)@[r as int].id == new_id,
        at_most_one_direct(old(chats)@, receiver_id@, sender_id@) ==> at_most_one_direct(final(chats)@, receiver_id@, sender_id@),
{
    match find_direct_chat(chats, receiver_id, sender_id) {
        Some(i) => i,
        None => {
            let chat = new_direct_chat(new_id, receiver_id, sender_id);
            let ghost before = chats@;
            chats.push(chat);
            proof {
                assert forall|i: int, j: int|
                    0 <= i < chats@.len() && 0 <= j < chats@.len() && is_direct_between(#[trigger] chats@[i], receiver_id@, sender_id@)
                        && is_direct_between(#[trigger] chats@[j], receiver_id@, sender_id@) implies i == j by {
                    if i < before.len() {
                        assert(chats@[i] == before[i]);
                    }
                    if j < before.len() {
                        assert(chats@[j] == before[j]);
                    }
                }
            }
            chats.len() - 1
        },
    }
}

proof fn lemma_pushed_is_push(old: Seq<Relation>, new: Seq<Relation>, id: Seq<char>, st: RelationStatus)
    requires
        pushed(old, new, id, st),
    ensures
        new == old.push(new[old.len() as int]),
{
    assert(new =~= old.push(new[old.len() as int])) by {
        assert forall|i: int| 0 <= i < old.len() implies new[i] == old[i] by {
            assert(new.subrange(0, old.len() as int)[i] == new[i]);
        }
    }
}

proof fn lemma_no_unrelated_entry(rels: Seq<Relation>, p: Seq<char>)
    requires
        no_stored_unrelated(rels),
        status_in(rels, p) == RelationStatus::Unrelated,
    ensures
        entry_of(rels, p) is None,
        forall|i: int| 0 <= i < rels.len() ==> rels[i].id@ != p,
{
    if entry_of(rels, p) is Some {
        crate::relation::lemma_entry_some(rels, p);
    }
    crate::relation::lemma_entry_none(rels, p);
}

proof fn lemma_push_fresh(old: Seq<Relation>, new: Seq<Relation>, id: Seq<char>, st: RelationStatus)
    requires
        no_stored_unrelated(old),
        pushed(old, new, id, st),
        st != RelationStatus::Unrelated,
        forall|i: int| 0 <= i < old.len() ==> old[i].id@ != id,
    ensures
        no_stored_unrelated(new),
        unique_peers(old) ==> unique_peers(new),
        forall|p: Seq<char>| entry_of(new, p) == if p == id { Some(st) } else { entry_of(old, p) },
{
    lemma_pushed_is_push(old, new, id, st);
    crate::relation::lemma_entry_none(old, id);
    assert forall|p: Seq<char>| entry_of(new, p) == if p == id { Some(st) } else { entry_of(old, p) } by {
        crate::relation::lemma_entry_push(old, new[old.len() as int], p);
    }
    assert forall|i: int| 0 <= i < new.len() implies new[i].status != RelationStatus::Unrelated by {
        if i < old.len() {
            assert(new[i] == old[i]);
        }
    }
    if unique_peers(old) {
        assert forall|i: int, j: int| 0 <= i < new.len() && 0 <= j < new.len() && i != j implies new[i].id@ != new[j].id@ by {
            if i < old.len() {
                assert(new[i] == old[i]);
            }
            if j < old.len() {
                assert(new[j] == old[j]);
            }
        }
    }
}

proof fn lemma_set_keeps_wf(old: Seq<Relation>, new: Seq<Relation>, id: Seq<char>)
    requires
        no_stored_unrelated(old),
        status_set(old, new, id, RelationStatus::Friend),
    ensures
        no_stored_unrelated(new),
        unique_peers(old) ==> unique_peers(new),
{
    assert forall|i: int, j: int| 0 <= i < new.len() && 0 <= j < new.len() && i != j && unique_peers(old) implies new[i].id@ != new[j].id@ by {
        assert(new[i].id@ == old[i].id@ && new[j].id@ == old[j].id@);
    }
    assert forall|i: int| 0 <= i < new.len() implies new[i].status != RelationStatus::Unrelated by {
        assert(new[i].status == old[i].status || new[i].status == RelationStatus::Friend);
    }
}

proof fn lemma_pull_keeps_wf(old: Seq<Relation>, new: Seq<Relation>, id: Seq<char>)
    requires
        no_stored_unrelated(old),
        pulled(old, new, id),
    ensures
        no_stored_unrelated(new),
        unique_peers(old) ==> unique_peers(new),
        status_in(new, id) == RelationStatus::Unrelated,
        forall|p: Seq<char>| p != id ==> status_in(new, p) == status_in(old, p),
{
    assert forall|i: int| 0 <= i < new.len() implies new[i].status != RelationStatus::Unrelated by {
        let j = choose|j: int| #![trigger old[j]] 0 <= j < old.len() && new[i] == old[j];
    }
    assert(entry_of(new, id) is None);
    assert forall|p: Seq<char>| p != id implies status_in(new, p) == status_in(old, p) by {
        assert(entry_of(new, p) == entry_of(old, p));
    }
}

proof fn lemma_mirrored_flip(a: Seq<Relation>, x: Seq<char>, b: Seq<Relation>, y: Seq<char>)
    ensures
        mirrored(a, x, b, y) == mirrored(b, y, a, x),
{
}

/// After a successful `add_friend` between two users whose views mirror
/// each other and whose lists store no `Unrelated` entry, the views still
/// mirror each other and no `Unrelated` entry is stored: a sent request is
/// `Outgoing` for the sender and `Incoming` for the receiver, an accepted
/// one `Friend` on both sides. No other peer's status changes on either
/// side, and lists with one entry per peer keep one entry per peer.
pub proof fn lemma_add_friend_symmetry(
    s_old: Seq<Relation>,
    r_old: Seq<Relation>,
    s_new: Seq<Relation>,
    r_new: Seq<Relation>,
    sender_id: Seq<char>,
    receiver_id: Seq<char>,
    action: FriendAction,
)
    requires
        no_stored_unrelated(s_old),
        no_stored_unrelated(r_old),
        mirrored(s_old, sender_id, r_old, receiver_id),
        add_friend_outcome(receiver_id, sender_id, status_in(r_old, sender_id)) == Ok::<FriendAction, ApiError>(action),
        add_friend_step(s_old, r_old, s_new, r_new, sender_id, receiver_id, action),
    ensures
        no_stored_unrelated(s_new),
        no_stored_unrelated(r_new),
        unique_peers(s_old) ==> unique_peers(s_new),
        unique_peers(r_old) ==> unique_peers(r_new),
        mirrored(s_new, sender_id, r_new, receiver_id),
        action == FriendAction::SendRequest ==> status_in(s_new, receiver_id) == RelationStatus::Outgoing
            && status_in(r_new, sender_id) == RelationStatus::Incoming,
        action == FriendAction::AcceptRequest ==> status_in(s_new, receiver_id) == RelationStatus::Friend
            && status_in(r_new, sender_id) == RelationStatus::Friend,
        forall|p: Seq<char>| p != receiver_id ==> status_in(s_new, p) == status_in(s_old, p),
        forall|p: Seq<char>| p != sender_id ==> status_in(r_new, p) == status_in(r_old, p),
{
    match action {
        FriendAction::SendRequest => {
            lemma_no_unrelated_entry(r_old, sender_id);
            lemma_no_unrelated_entry(s_old, receiver_id);
            lemma_push_fresh(r_old, r_new, sender_id, RelationStatus::Incoming);
            lemma_push_fresh(s_old, s_new, receiver_id, RelationStatus::Outgoing);
            assert(entry_of(r_new, sender_id) == Some(RelationStatus::Incoming));
            assert(entry_of(s_new, receiver_id) == Some(RelationStatus::Outgoing));
            assert forall|p: Seq<char>| p != receiver_id implies status_in(s_new, p) == status_in(s_old, p) by {
                assert(entry_of(s_new, p) == entry_of(s_old, p));
            }
            assert forall|p: Seq<char>| p != sender_id implies status_in(r_new, p) == status_in(r_old, p) by {
                assert(entry_of(r_new, p) == entry_of(r_old, p));
            }
        },
        FriendAction::AcceptRequest => {
            lemma_set_keeps_wf(r_old, r_new, sender_id);
            lemma_set_keeps_wf(s_old, s_new, receiver_id);
            assert(entry_of(r_old, sender_id) == Some(RelationStatus::Outgoing));
            assert(status_in(s_old, receiver_id) == RelationStatus::Incoming);
            assert(entry_of(s_old, receiver_id) == Some(RelationStatus::Incoming));
            assert(entry_of(r_new, sender_id) == Some(RelationStatus::Friend));
            assert(entry_of(s_new, receiver_id) == Some(RelationStatus::Friend));
            assert forall|p: Seq<char>| p != receiver_id implies status_in(s_new, p) == status_in(s_old, p) by {
                assert(entry_of(s_new, p) == entry_of(s_old, p));
            }
            assert forall|p: Seq<char>| p != sender_id implies status_in(r_new, p) == status_in(r_old, p) by {
                assert(entry_of(r_new, p) == entry_of(r_old, p));
            }
        },
    }
}

/// A request that went through cannot be sent again: repeating it is refused
/// as already sent, and the receiver asking back accepts it instead. Lists
/// with one entry per peer keep one entry per peer.
pub proof fn lemma_request_not_duplicated(
    s_old: Seq<Relation>,
    r_old: Seq<Relation>,
    s_new: Seq<Relation>,
    r_new: Seq<Relation>,
    sender_id: Seq<char>,
    receiver_id: Seq<char>,
)
    requires
        no_stored_unrelated(s_old),
        no_stored_unrelated(r_old),
        mirrored(s_old, sender_id, r_old, receiver_id),
        sender_id != receiver_id,
        status_in(r_old, sender_id) == RelationStatus::Unrelated,
        add_friend_step(s_old, r_old, s_new, r_new, sender_id, receiver_id, FriendAction::SendRequest),
    ensures
        add_friend_outcome(receiver_id, sender_id, status_in(r_new, sender_id)) == Err::<FriendAction, ApiError>(ApiError::AlreadySentFR),
        add_friend_outcome(sender_id, receiver_id, status_in(s_new, receiver_id)) == Ok::<FriendAction, ApiError>(FriendAction::AcceptRequest),
        unique_peers(s_old) ==> unique_peers(s_new),
        unique_peers(r_old) ==> unique_peers(r_new),
{
    lemma_add_friend_symmetry(s_old, r_old, s_new, r_new, sender_id, receiver_id, FriendAction::SendRequest);
}

/// After a removal, lists that store no `Unrelated` entry still store none,
/// neither side holds an entry for the other, and no other peer's status
/// changes; lists with one entry per peer keep one entry per peer.
pub proof fn lemma_remove_friend_symmetry(
    s_old: Seq<Relation>,
    r_old: Seq<Relation>,
    s_new: Seq<Relation>,
    r_new: Seq<Relation>,
    sender_id: Seq<char>,
    receiver_id: Seq<char>,
)
    requires
        no_stored_unrelated(s_old),
        no_stored_unrelated(r_old),
        pulled(r_old, r_new, sender_id),
        pulled(s_old, s_new, receiver_id),
    ensures
        no_stored_unrelated(s_new),
        no_stored_unrelated(r_new),
        unique_peers(s_old) ==> unique_peers(s_new),
        unique_peers(r_old) ==> unique_peers(r_new),
        mirrored(s_new, sender_id, r_new, receiver_id),
        status_in(s_new, receiver_id) == RelationStatus::Unrelated,
        status_in(r_new, sender_id) == RelationStatus::Unrelated,
        forall|p: Seq<char>| p != receiver_id ==> status_in(s_new, p) == status_in(s_old, p),
        forall|p: Seq<char>| p != sender_id ==> status_in(r_new, p) == status_in(r_old, p),
{
    lemma_pull_keeps_wf(r_old, r_new, sender_id);
    lemma_pull_keeps_wf(s_old, s_new, receiver_id);
}

/// Every user's relation list, by user id (a user without a profile has an
/// empty list).
pub type RelationGraph = Map<Seq<char>, Seq<Relation>>;

/// Every two distinct users see each other as mirror images, and no list
/// stores an `Unrelated` entry.
pub open spec fn graph_consistent(g: RelationGraph) -> bool {
    &&& forall|a: Seq<char>| #[trigger] g.contains_key(a) ==> no_stored_unrelated(g[a])
    &&& forall|a: Seq<char>, b: Seq<char>|
        g.contains_key(a) && g.contains_key(b) && a != b ==> #[trigger] mirrored(g[a], a, g[b], b)
}

/// Every list holds one entry per peer.
pub open spec fn graph_unique(g: RelationGraph) -> bool {
    forall|a: Seq<char>| #[trigger] g.contains_key(a) ==> unique_peers(g[a])
}

/// `g2` is `g` after `add_friend` from `s` to `t`: unchanged where it is
/// refused, else with both lists updated together as `add_friend_step` says.
pub open spec fn add_friend_transition(g: RelationGraph, g2: RelationGraph, s: Seq<char>, t: Seq<char>) -> bool {
    &&& g.contains_key(s)
    &&& g.contains_key(t)
    &&& match add_friend_outcome(t, s, status_in(g[t], s)) {
        Err(_) => g2 == g,
        Ok(action) => exists|sn: Seq<Relation>, rn: Seq<Relation>|
            add_friend_step(g[s], g[t], sn, rn, s, t, action) && #[trigger] g.insert(s, sn).insert(t, rn) == g2,
    }
}

/// `g2` is `g` after `remove_friend` by `s` of `t`: unchanged where it is
/// refused, else with the entries for each other pulled from both lists.
pub open spec fn remove_friend_transition(g: RelationGraph, g2: RelationGraph, s: Seq<char>, t: Seq<char>) -> bool {
    &&& g.contains_key(s)
    &&& g.contains_key(t)
    &&& if s == t || status_in(g[t], s) == RelationStatus::Blocked || status_in(g[t], s) == RelationStatus::BlockedByOther
        || status_in(g[t], s) == RelationStatus::Unrelated {
        g2 == g
    } else {
        exists|sn: Seq<Relation>, rn: Seq<Relation>|
            pulled(g[t], rn, s) && pulled(g[s], sn, t) && #[trigger] g.insert(s, sn).insert(t, rn) == g2
    }
}

proof fn lemma_pair_update_consistent(
    g: RelationGraph,
    s: Seq<char>,
    t: Seq<char>,
    sn: Seq<Relation>,
    rn: Seq<Relation>,
)
    requires
        graph_consistent(g),
        g.contains_key(s),
        g.contains_key(t),
        s != t,
        no_stored_unrelated(sn),
        no_stored_unrelated(rn),
        mirrored(sn, s, rn, t),
        forall|p: Seq<char>| p != t ==> status_in(sn, p) == status_in(g[s], p),
        forall|p: Seq<char>| p != s ==> status_in(rn, p) == status_in(g[t], p),
    ensures
        graph_consistent(g.insert(s, sn).insert(t, rn)),
{
    let g2 = g.insert(s, sn).insert(t, rn);
    assert(g2[s] == sn && g2[t] == rn);
    assert forall|a: Seq<char>| #[trigger] g2.contains_key(a) implies no_stored_unrelated(g2[a]) by {
        if a != s && a != t {
            assert(g2[a] == g[a]);
        }
    }
    assert forall|a: Seq<char>, b: Seq<char>|
        g2.contains_key(a) && g2.contains_key(b) && a != b implies #[trigger] mirrored(g2[a], a, g2[b], b) by {
        assert(mirrored(g[a], a, g[b], b));
        if (a == s && b == t) {
        } else if (a == t && b == s) {
            lemma_mirrored_flip(sn, s, rn, t);
        } else if a == s {
            assert(g2[b] == g[b]);
            assert(status_in(sn, b) == status_in(g[s], b));
        } else if a == t {
            assert(g2[b] == g[b]);
            assert(status_in(rn, b) == status_in(g[t], b));
        } else if b == s {
            assert(g2[a] == g[a]);
            assert(status_in(sn, a) == status_in(g[s], a));
        } else if b == t {
            assert(g2[a] == g[a]);
            assert(status_in(rn, a) == status_in(g[t], a));
        } else {
            assert(g2[a] == g[a] && g2[b] == g[b]);
        }
    }
}

proof fn lemma_pair_update_unique(g: RelationGraph, s: Seq<char>, t: Seq<char>, sn: Seq<Relation>, rn: Seq<Relation>)
    requires
        graph_unique(g),
        unique_peers(sn),
        unique_peers(rn),
    ensures
        graph_unique(g.insert(s, sn).insert(t, rn)),
{
    let g2 = g.insert(s, sn).insert(t, rn);
    assert forall|a: Seq<char>| #[trigger] g2.contains_key(a) implies unique_peers(g2[a]) by {
        if a != s && a != t {
            assert(g2[a] == g[a]);
        }
    }
}

/// Every `add_friend`, accepted or refused, keeps all users' views of each
/// other mirrored and stores no `Unrelated` entry; where every list held one
/// entry per peer, every list still does.
pub proof fn lemma_add_friend_keeps_graph(g: RelationGraph, g2: RelationGraph, s: Seq<char>, t: Seq<char>)
    requires
        graph_consistent(g),
        add_friend_transition(g, g2, s, t),
    ensures
        graph_consistent(g2),
        graph_unique(g) ==> graph_unique(g2),
{
    match add_friend_outcome(t, s, status_in(g[t], s)) {
        Err(_) => {},
        Ok(action) => {
            let (sn, rn) = choose|sn: Seq<Relation>, rn: Seq<Relation>|
                add_friend_step(g[s], g[t], sn, rn, s, t, action) && #[trigger] g.insert(s, sn).insert(t, rn) == g2;
            assert(g.contains_key(s) && g.contains_key(t) && s != t);
            assert(mirrored(g[s], s, g[t], t));
            lemma_add_friend_symmetry(g[s], g[t], sn, rn, s, t, action);
            lemma_pair_update_consistent(g, s, t, sn, rn);
            if graph_unique(g) {
                lemma_pair_update_unique(g, s, t, sn, rn);
            }
        },
    }
}

/// Every `remove_friend`, accepted or refused, keeps all users' views of
/// each other mirrored and stores no `Unrelated` entry; where every list held
/// one entry per peer, every list still does.
pub proof fn lemma_remove_friend_keeps_graph(g: RelationGraph, g2: RelationGraph, s: Seq<char>, t: Seq<char>)
    requires
        graph_consistent(g),
        remove_friend_transition(g, g2, s, t),
    ensures
        graph_consistent(g2),
        graph_unique(g) ==> graph_unique(g2),
{
    if !(s == t || status_in(g[t], s) == RelationStatus::Blocked || status_in(g[t], s) == RelationStatus::BlockedByOther
        || status_in(g[t], s) == RelationStatus::Unrelated) {
        let (sn, rn) = choose|sn: Seq<Relation>, rn: Seq<Relation>|
            pulled(g[t], rn, s) && pulled(g[s], sn, t) && #[trigger] g.insert(s, sn).insert(t, rn) == g2;
        lemma_remove_friend_symmetry(g[s], g[t], sn, rn, s, t);
        lemma_pair_update_consistent(g, s, t, sn, rn);
        if graph_unique(g) {
            lemma_pair_update_unique(g, s, t, sn, rn);
        }
    }
}

/// One friend transition, accepted or refused, between some two users.
pub open spec fn friend_transition(g: RelationGraph, g2: RelationGraph) -> bool {
    exists|s: Seq<char>, t: Seq<char>|
        #![trigger add_friend_transition(g, g2, s, t)]
        #![trigger remove_friend_transition(g, g2, s, t)]
        add_friend_transition(g, g2, s, t) || remove_friend_transition(g, g2, s, t)
}

/// Along any sequence of friend transitions, in any order and whatever each
/// returned, all users' views of each other stay mirrored, no `Unrelated`
/// entry is stored, and lists with one entry per peer keep one entry per
/// peer: a relation list is never corrupted.
pub proof fn lemma_transitions_keep_graph(gs: Seq<RelationGraph>)
    requires
        gs.len() > 0,
        graph_consistent(gs[0]),
        forall|i: int| 0 <= i < gs.len() - 1 ==> friend_transition(#[trigger] gs[i], gs[i + 1]),
    ensures
        graph_consistent(gs[gs.len() - 1]),
        graph_unique(gs[0]) ==> graph_unique(gs[gs.len() - 1]),
    decreases gs.len(),
{
    if gs.len() > 1 {
        let prefix = gs.drop_last();
        assert forall|i: int| 0 <= i < prefix.len() - 1 implies friend_transition(#[trigger] prefix[i], prefix[i + 1]) by {
            assert(prefix[i] == gs[i] && prefix[i + 1] == gs[i + 1]);
        }
        lemma_transitions_keep_graph(prefix);
        let a = gs[gs.len() - 2];
        let b = gs[gs.len() - 1];
        assert(prefix[prefix.len() - 1] == a);
        assert(friend_transition(a, b));
        let (s, t) = choose|s: Seq<char>, t: Seq<char>|
            #![trigger add_friend_transition(a, b, s, t)]
            #![trigger remove_friend_transition(a, b, s, t)]
            add_friend_transition(a, b, s, t) || remove_friend_transition(a, b, s, t);
        if add_friend_transition(a, b, s, t) {
            lemma_add_friend_keeps_graph(a, b, s, t);
        } else {
            lemma_remove_friend_keeps_graph(a, b, s, t);
        }
    }
}

/// The peers the list marks as friends, in order.
pub open spec fn friend_peers(rels: Seq<Relation>) -> Seq<Seq<char>>
    decreases rels.len(),
{
    if rels.len() == 0 {
        Seq::empty()
    } else if rels.last().status == RelationStatus::Friend {
        friend_peers(rels.drop_last()).push(rels.last().id@)
    } else {
        friend_peers(rels.drop_last())
    }
}

/// The relations of a user as found (`None` where no user was found); a
/// user without a profile has none.
pub fn find_relations_of_user(user: Option<&User>) -> (r: Result<Vec<Relation>, ApiError>)
    ensures
        match user {
            None => r == Err::<Vec<Relation>, ApiError>(ApiError::UserNotFound),
            Some(u) => r is Ok && match u.profile {
                Some(p) => r->Ok_0@ == p.relations@,
                None => r->Ok_0@.len() == 0,
            },
        },
{
    match user {
        None => Err(ApiError::UserNotFound),
        Some(u) => match &u.profile {
            Some(p) => {
                let mut out: Vec<Relation> = Vec::new();
                let mut i: usize = 0;
                while i < p.relations.len()
                    invariant
                        i <= p.relations.len(),
                        out@ == p.relations@.subrange(0, i as int),
                    decreases p.relations.len() - i,
                {
                    out.push(Relation { id: p.relations[i].id.clone(), status: p.relations[i].status });
                    assert(out@ =~= p.relations@.subrange(0, i + 1));
                    i = i + 1;
                }
                assert(p.relations@.subrange(0, i as int) == p.relations@);
                Ok(out)
            },
            None => Ok(Vec::new()),
        },
    }
}

/// The friends of a user as found (`None` where no user was found), in the
/// order of the user's relations.
pub fn get_friend_ids(user: Option<&User>) -> (r: Result<Vec<String>, ApiError>)
    ensures
        match user {
            None => r == Err::<Vec<String>, ApiError>(ApiError::UserNotFound),
            Some(u) => r is Ok && crate::text::ids_of(r->Ok_0@) == match u.profile {
                Some(p) => friend_peers(p.relations@),
                None => Seq::empty(),
            },
        },
{
    match user {
        None => Err(ApiError::UserNotFound),
        Some(u) => match &u.profile {
            Some(p) => {
                let rels = &p.relations;
                let mut out: Vec<String> = Vec::new();
                let mut i: usize = 0;
                while i < rels.len()
                    invariant
                        i <= rels.len(),
                        crate::text::ids_of(out@) == friend_peers(rels@.subrange(0, i as int)),
                    decreases rels.len() - i,
                {
                    assert(rels@.subrange(0, i + 1).drop_last() == rels@.subrange(0, i as int));
                    assert(rels@.subrange(0, i + 1).last() == rels@[i as int]);
                    if rels[i].status == RelationStatus::Friend {
                        out.push(rels[i].id.clone());
                        assert(crate::text::ids_of(out@) =~= friend_peers(rels@.subrange(0, i as int)).push(rels@[i as int].id@));
                    }
                    i = i + 1;
                }
                assert(rels@.subrange(0, i as int) == rels@);
                Ok(out)
            },
            None => {
                assert(crate::text::ids_of(Seq::<String>::empty()) =~= Seq::<Seq<char>>::empty());
                Ok(Vec::new())
            },
        },
    }
}

} // verus!
