//! Message ordering: cursor pagination over time-sortable identifiers, the
//! client form of a message, and the rules for writing a direct message.
use vstd::prelude::*;
use crate::error::ApiError;
use crate::model::{Chat, Message, MessageJson, Relation, RelationStatus};
use crate::friends::{chat_has_recipient, has_recipient};
use crate::ids::{id_timestamp, id_timestamp_of, ulid_decode_of, ulid_text, IdMinter};
use crate::relation::{relation_status, status_in};
use crate::text::{is_white_space, id_lt, lex_lt, lemma_lex_total, lemma_lex_transitive};

verus! {

/// The message belongs to the chat and lies strictly past the cursor:
/// before `before` where it is given, else after `after` where that is given.
pub open spec fn in_window(m: Message, chat: Seq<char>, before: Option<String>, after: Option<String>) -> bool {
    &&& m.chat_id@ == chat
    &&& match before {
        Some(b) => lex_lt(m.id@, b@),
        None => match after {
            Some(a) => lex_lt(a@, m.id@),
            None => true,
        },
    }
}

/// The page is taken from the newest end of the window, unless only an
/// `after` cursor is given: then it is the messages right after it.
pub open spec fn newest_first(before: Option<String>, after: Option<String>) -> bool {
    before is Some || after is None
}

/// Some message of the list has the identifier.
pub open spec fn has_id(page: Seq<Message>, id: Seq<char>) -> bool {
    exists|k: int| 0 <= k < page.len() && #[trigger] page[k].id@ == id
}

/// `page` is the page of `msgs`: at most `limit` messages of the window, in
/// descending identifier order, the whole window where it holds fewer,
/// and the window's newest messages (or, after an `after` cursor alone, the
/// ones closest to the cursor).
pub open spec fn is_page(
    msgs: Seq<Message>,
    chat: Seq<char>,
    before: Option<String>,
    after: Option<String>,
    limit: nat,
    page: Seq<Message>,
) -> bool {
    &&& page.len() <= limit
    &&& forall|k: int| 0 <= k < page.len() ==> in_window(#[trigger] page[k], chat, before, after) && msgs.contains(page[k])
    &&& forall|k: int| 0 <= k < page.len() - 1 ==> lex_lt(#[trigger] page[k + 1].id@, page[k].id@)
    &&& page.len() < limit ==> forall|j: int| 0 <= j < msgs.len() && in_window(#[trigger] msgs[j], chat, before, after) ==> has_id(page, msgs[j].id@)
    &&& page.len() > 0 ==> forall|j: int| 0 <= j < msgs.len() && in_window(#[trigger] msgs[j], chat, before, after) && !has_id(page, msgs[j].id@) ==>
        if newest_first(before, after) {
            lex_lt(msgs[j].id@, page[page.len() - 1].id@)
        } else {
            lex_lt(page[0].id@, msgs[j].id@)
        }
}

/// `a` is picked before `b`: newer first from the newest end, older first otherwise.
pub open spec fn picked_before(a: Seq<char>, b: Seq<char>, newest: bool) -> bool {
    if newest { lex_lt(b, a) } else { lex_lt(a, b) }
}

/// Whether a page is taken from the newest end of its window (true) or
/// from right after an `after` cursor (false): the direction in which a
/// store query for the page must be sorted.
pub fn page_from_newest(before: &Option<String>, after: &Option<String>) -> (r: bool)
    ensures
        r == newest_first(*before, *after),
{
    before.is_some() || after.is_none()
}

fn copy_message(m: &Message) -> (r: Message)
    ensures
        r == *m,
{
    Message { id: m.id.clone(), chat_id: m.chat_id.clone(), author_id: m.author_id.clone(), content: m.content.clone() }
}

fn in_window_exec(m: &Message, chat_id: &str, before: &Option<String>, after: &Option<String>) -> (r: bool)
    ensures
        r == in_window(*m, chat_id@, *before, *after),
{
    if !crate::text::id_eq(m.chat_id.as_str(), chat_id) {
        return false;
    }
    match before {
        Some(b) => id_lt(m.id.as_str(), b.as_str()),
        None => match after {
            Some(a) => id_lt(a.as_str(), m.id.as_str()),
            None => true,
        },
    }
}

/// The next message to pick: in the window, past `last` where something was
/// picked, and the first such in picking order.
fn next_pick(
    msgs: &Vec<Message>,
    chat_id: &str,
    before: &Option<String>,
    after: &Option<String>,
    last: Option<&String>,
    newest: bool,
) -> (r: Option<usize>)
    ensures
        match r {
            Some(i) => i < msgs.len() && in_window(msgs@[i as int], chat_id@, *before, *after)
                && (match last { Some(l) => picked_before(l@, msgs@[i as int].id@, newest), None => true })
                && forall|j: int| 0 <= j < msgs.len() && in_window(#[trigger] msgs@[j], chat_id@, *before, *after)
                    && (match last { Some(l) => picked_before(l@, msgs@[j].id@, newest), None => true })
                    ==> msgs@[j].id@ == msgs@[i as int].id@ || picked_before(msgs@[i as int].id@, msgs@[j].id@, newest),
            None => forall|j: int| 0 <= j < msgs.len() && in_window(#[trigger] msgs@[j], chat_id@, *before, *after)
                ==> !(match last { Some(l) => picked_before(l@, msgs@[j].id@, newest), None => true }),
        },
{
    let mut best: Option<usize> = None;
    let mut i: usize = 0;
    while i < msgs.len()
        invariant
            i <= msgs.len(),
            match best {
                Some(b) => b < msgs.len() && in_window(msgs@[b as int], chat_id@, *before, *after)
                    && (match last { Some(l) => picked_before(l@, msgs@[b as int].id@, newest), None => true })
                    && forall|j: int| 0 <= j < i && in_window(#[trigger] msgs@[j], chat_id@, *before, *after)
                        && (match last { Some(l) => picked_before(l@, msgs@[j].id@, newest), None => true })
                        ==> msgs@[j].id@ == msgs@[b as int].id@ || picked_before(msgs@[b as int].id@, msgs@[j].id@, newest),
                None => forall|j: int| 0 <= j < i && in_window(#[trigger] msgs@[j], chat_id@, *before, *after)
                    ==> !(match last { Some(l) => picked_before(l@, msgs@[j].id@, newest), None => true }),
            },
        decreases msgs.len() - i,
    {
        let m = &msgs[i];
        if in_window_exec(m, chat_id, before, after) {
            let past = match last {
                Some(l) => if newest { id_lt(m.id.as_str(), l.as_str()) } else { id_lt(l.as_str(), m.id.as_str()) },
                None => true,
            };
            if past {
                match best {
                    None => {
                        best = Some(i);
                    },
                    Some(b) => {
                        let better = if newest {
                            id_lt(msgs[b].id.as_str(), m.id.as_str())
                        } else {
                            id_lt(m.id.as_str(), msgs[b].id.as_str())
                        };
                        if better {
                            proof {
                                assert forall|j: int| 0 <= j < i + 1 && in_window(#[trigger] msgs@[j], chat_id@, *before, *after)
                                    && (match last { Some(l) => picked_before(l@, msgs@[j].id@, newest), None => true })
                                    implies msgs@[j].id@ == msgs@[i as int].id@ || picked_before(msgs@[i as int].id@, msgs@[j].id@, newest) by {
                                    if j < i {
                                        if msgs@[j].id@ != msgs@[b as int].id@ {
                                            if newest {
                                                lemma_lex_transitive(msgs@[j].id@, msgs@[b as int].id@, msgs@[i as int].id@);
                                            } else {
                                                lemma_lex_transitive(msgs@[i as int].id@, msgs@[b as int].id@, msgs@[j].id@);
                                            }
                                        }
                                    }
                                }
                            }
                            best = Some(i);
                        } else {
                            proof {
                                if msgs@[i as int].id@ != msgs@[b as int].id@ {
                                    lemma_lex_total(msgs@[i as int].id@, msgs@[b as int].id@);
                                }
                            }
                        }
                    },
                }
            }
        }
        i = i + 1;
    }
    best
}

/// A page of a chat's messages: at most `limit`, strictly before `before`
/// where it is given, else strictly after `after` where that is given,
/// in descending identifier order (see `is_page`).
pub fn page_messages(
    msgs: &Vec<Message>,
    chat_id: &str,
    before: &Option<String>,
    after: &Option<String>,
    limit: usize,
) -> (r: Vec<Message>)
    ensures
        is_page(msgs@, chat_id@, *before, *after, limit as nat, r@),
{
    let newest = before.is_some() || after.is_none();
    let mut picked: Vec<Message> = Vec::new();
    let mut done = false;
    while picked.len() < limit && !done
        invariant
            newest == newest_first(*before, *after),
            picked.len() <= limit,
            forall|k: int| 0 <= k < picked.len() ==> in_window(#[trigger] picked@[k], chat_id@, *before, *after) && msgs@.contains(picked@[k]),
            forall|k: int| 0 <= k < picked.len() - 1 ==> picked_before(#[trigger] picked@[k].id@, picked@[k + 1].id@, newest),
            forall|j: int| 0 <= j < msgs.len() && in_window(#[trigger] msgs@[j], chat_id@, *before, *after) && !has_id(picked@, msgs@[j].id@) ==>
                picked.len() == 0 || picked_before(picked@[picked.len() - 1].id@, msgs@[j].id@, newest),
            done ==> forall|j: int| 0 <= j < msgs.len() && in_window(#[trigger] msgs@[j], chat_id@, *before, *after) ==> has_id(picked@, msgs@[j].id@),
        decreases 2 * (limit - picked.len()) + if done { 0int } else { 1int },
    {
        let last = if picked.len() > 0 { Some(&picked[picked.len() - 1].id) } else { None };
        match next_pick(msgs, chat_id, before, after, last, newest) {
            None => {
                proof {
                    assert forall|j: int| 0 <= j < msgs.len() && in_window(#[trigger] msgs@[j], chat_id@, *before, *after)
                        implies has_id(picked@, msgs@[j].id@) by {
                        if !has_id(picked@, msgs@[j].id@) && picked.len() > 0 {
                            assert(picked_before(picked@[picked.len() - 1].id@, msgs@[j].id@, newest));
                        }
                    }
                }
                done = true;
            },
            Some(i) => {
                let m = copy_message(&msgs[i]);
                let ghost prev = picked@;
                picked.push(m);
                proof {
                    assert(picked@ == prev.push(msgs@[i as int]));
                    assert(msgs@.contains(msgs@[i as int]));
                    assert forall|j: int| 0 <= j < msgs.len() && in_window(#[trigger] msgs@[j], chat_id@, *before, *after) && !has_id(picked@, msgs@[j].id@)
                        implies picked.len() == 0 || picked_before(picked@[picked.len() - 1].id@, msgs@[j].id@, newest) by {
                        if has_id(prev, msgs@[j].id@) {
                            let k = choose|k: int| 0 <= k < prev.len() && #[trigger] prev[k].id@ == msgs@[j].id@;
                            assert(picked@[k] == prev[k]);
                        } else {
                            if prev.len() > 0 {
                                assert(picked_before(prev[prev.len() - 1].id@, msgs@[j].id@, newest));
                            }
                            if msgs@[j].id@ == msgs@[i as int].id@ {
                                assert(picked@[prev.len() as int].id@ == msgs@[j].id@);
                            }
                        }
                    }
                    assert forall|k: int| 0 <= k < picked.len() - 1 implies picked_before(#[trigger] picked@[k].id@, picked@[k + 1].id@, newest) by {
                        if k + 1 < prev.len() {
                            assert(picked@[k] == prev[k] && picked@[k + 1] == prev[k + 1]);
                        } else {
                            assert(picked@[k] == prev[prev.len() - 1]);
                        }
                    }
                    assert forall|k: int| 0 <= k < picked.len() implies in_window(#[trigger] picked@[k], chat_id@, *before, *after) && msgs@.contains(picked@[k]) by {
                        if k < prev.len() {
                            assert(picked@[k] == prev[k]);
                        }
                    }
                }
            },
        }
    }
    if newest {
        proof {
            assert forall|k: int| 0 <= k < picked.len() - 1 implies lex_lt(#[trigger] picked@[k + 1].id@, picked@[k].id@) by {
                assert(picked_before(picked@[k].id@, picked@[k + 1].id@, newest));
            }
        }
        return picked;
    }
    let n = picked.len();
    let mut out: Vec<Message> = Vec::new();
    let mut t: usize = 0;
    while t < n
        invariant
            n == picked.len(),
            t <= n,
            out.len() == t,
            forall|k: int| 0 <= k < t ==> #[trigger] out@[k] == picked@[n - 1 - k],
        decreases n - t,
    {
        out.push(copy_message(&picked[n - 1 - t]));
        t = t + 1;
    }
    proof {
        assert forall|k: int| 0 <= k < out.len() - 1 implies lex_lt(#[trigger] out@[k + 1].id@, out@[k].id@) by {
            assert(out@[k] == picked@[n - 1 - k]);
            assert(out@[k + 1] == picked@[n - 2 - k]);
            assert(picked_before(picked@[n - 2 - k].id@, picked@[n - 1 - k].id@, newest));
        }
        assert forall|k: int| 0 <= k < out.len() implies in_window(#[trigger] out@[k], chat_id@, *before, *after) && msgs@.contains(out@[k]) by {
            assert(out@[k] == picked@[n - 1 - k]);
        }
        assert forall|x: Seq<char>| has_id(out@, x) == has_id(picked@, x) by {
            if has_id(out@, x) {
                let k = choose|k: int| 0 <= k < out.len() && #[trigger] out@[k].id@ == x;
                assert(picked@[n - 1 - k] == out@[k]);
            }
            if has_id(picked@, x) {
                let k = choose|k: int| 0 <= k < n && #[trigger] picked@[k].id@ == x;
                assert(out@[n - 1 - k] == picked@[k]);
            }
        }
        if n > 0 {
            assert(out@[0] == picked@[n - 1]);
        }
    }
    out
}

/// The text without its leading white space.
pub open spec fn trim_start_of(s: Seq<char>) -> Seq<char>
    decreases s.len(),
{
    if s.len() > 0 && is_white_space(s[0]) { trim_start_of(s.drop_first()) } else { s }
}

/// The text without its trailing white space.
pub open spec fn trim_end_of(s: Seq<char>) -> Seq<char>
    decreases s.len(),
{
    if s.len() > 0 && is_white_space(s.last()) { trim_end_of(s.drop_last()) } else { s }
}

/// The text with leading and trailing white space removed.
pub open spec fn trimmed_of(s: Seq<char>) -> Seq<char> {
    trim_end_of(trim_start_of(s))
}

/// Relies on `str::trim`: removes leading and trailing characters with the
/// Unicode White_Space property.
#[verifier::external_body]
fn trim_text(s: &str) -> (r: String)
    ensures
        r@ == trimmed_of(s@),
{
    s.trim().to_owned()
}

/// The message as sent to clients, with the creation time its id carries.
pub open spec fn json_of(m: Message, j: MessageJson) -> bool {
    &&& j.id == m.id
    &&& j.chat_id == m.chat_id
    &&& j.author_id == m.author_id
    &&& j.content == m.content
    &&& id_timestamp_of(m.id@) == Some(j.timestamp)
}

/// The client form of a stored message; fails where its id carries no time.
pub fn message_json(m: &Message) -> (r: Result<MessageJson, ApiError>)
    ensures
        match r {
            Ok(j) => json_of(*m, j),
            Err(e) => id_timestamp_of(m.id@) is None && e is UnknownError,
        },
{
    match id_timestamp(m.id.as_str()) {
        Some(timestamp) => Ok(MessageJson {
            id: m.id.clone(),
            chat_id: m.chat_id.clone(),
            author_id: m.author_id.clone(),
            content: m.content.clone(),
            timestamp,
        }),
        None => Err(ApiError::UnknownError("invalid message id found while reading messages.".to_owned())),
    }
}

/// The client form of each stored message, in order; fails where any id
/// carries no time.
pub fn get_messages_by_id(msgs: &Vec<Message>) -> (r: Result<Vec<MessageJson>, ApiError>)
    ensures
        match r {
            Ok(v) => v.len() == msgs.len() && forall|k: int| 0 <= k < msgs.len() ==> json_of(#[trigger] msgs@[k], v@[k]),
            Err(e) => e is UnknownError && exists|k: int| 0 <= k < msgs.len() && id_timestamp_of(#[trigger] msgs@[k].id@) is None,
        },
{
    let mut out: Vec<MessageJson> = Vec::new();
    let mut i: usize = 0;
    while i < msgs.len()
        invariant
            i <= msgs.len(),
            out.len() == i,
            forall|k: int| 0 <= k < i ==> json_of(#[trigger] msgs@[k], out@[k]),
        decreases msgs.len() - i,
    {
        match message_json(&msgs[i]) {
            Ok(j) => out.push(j),
            Err(e) => return Err(e),
        }
        i = i + 1;
    }
    Ok(out)
}

/// Reads a page of a chat's messages for `user_id`. The chat must exist
/// (`chat` is what the store found) and count the user among its recipients;
/// the page is then `page_messages` of the chat's stored messages.
pub fn get_messages(
    chat: Option<&Chat>,
    user_id: &str,
    msgs: &Vec<Message>,
    before: &Option<String>,
    after: &Option<String>,
    limit: i64,
) -> (r: Result<Vec<MessageJson>, ApiError>)
    requires
        1 <= limit <= 50,
    ensures
        chat is None ==> r == Err::<Vec<MessageJson>, ApiError>(ApiError::ChatNotFound),
        chat is Some && !has_recipient(*chat.unwrap(), user_id@)
            ==> r == Err::<Vec<MessageJson>, ApiError>(ApiError::ChatReadPermissionDenied),
        chat is Some && has_recipient(*chat.unwrap(), user_id@) ==> match r {
            Ok(v) => exists|p: Seq<Message>| #[trigger] is_page(msgs@, chat.unwrap().id@, *before, *after, limit as nat, p)
                && p.len() == v.len() && forall|k: int| 0 <= k < p.len() ==> json_of(#[trigger] p[k], v@[k]),
            Err(e) => e is UnknownError && exists|p: Seq<Message>| #[trigger] is_page(msgs@, chat.unwrap().id@, *before, *after, limit as nat, p)
                && exists|k: int| 0 <= k < p.len() && #[trigger] id_timestamp_of(p[k].id@) is None,
        },
{
    let chat = match chat {
        Some(c) => c,
        None => return Err(ApiError::ChatNotFound),
    };
    if !chat_has_recipient(chat, user_id) {
        return Err(ApiError::ChatReadPermissionDenied);
    }
    let page = page_messages(msgs, chat.id.as_str(), before, after, limit as usize);
    let r = get_messages_by_id(&page);
    proof {
        assert((limit as usize) as nat == limit as nat);
        assert(is_page(msgs@, chat.id@, *before, *after, limit as nat, page@));
        if r is Ok {
            assert(page@.len() == r->Ok_0@.len());
        }
    }
    r
}

/// The recipient of a two-party chat who is not `author`, if any.
pub open spec fn other_recipient(c: Chat, author: Seq<char>) -> Option<Seq<char>> {
    if c.recipients@[0].id@ != author {
        Some(c.recipients@[0].id@)
    } else if c.recipients@[1].id@ != author {
        Some(c.recipients@[1].id@)
    } else {
        None
    }
}

/// Who may write a direct message: the chat exists, has exactly two
/// recipients, one of them the author, and the author (whose relations are
/// `author_rels`, `None` where the author is unknown) is a friend of the other.
/// Returns the other recipient.
pub fn authorize_direct_message(
    chat: Option<&Chat>,
    author_id: &str,
    author_rels: Option<&Vec<Relation>>,
) -> (r: Result<String, ApiError>)
    ensures
        chat is None ==> r == Err::<String, ApiError>(ApiError::ChatNotFound),
        chat is Some ==> {
            let c = *chat.unwrap();
            if c.recipients@.len() != 2 || !has_recipient(c, author_id@) {
                r == Err::<String, ApiError>(ApiError::ChatWritePermissionDenied)
            } else {
                match other_recipient(c, author_id@) {
                    None => r is Err && r->Err_0 is UnknownError,
                    Some(other) => match author_rels {
                        None => r == Err::<String, ApiError>(ApiError::UserNotFound),
                        Some(rels) => if status_in(rels@, other) == RelationStatus::Friend {
                            r is Ok && r->Ok_0@ == other
                        } else {
                            r == Err::<String, ApiError>(ApiError::ChatWritePermissionDenied)
                        },
                    },
                }
            }
        },
        chat is Some ==> (r is Ok) == authorize_spec_ok(*chat.unwrap(), author_id@, author_rels),
        chat is Some && r is Err ==> write_refused_with(*chat.unwrap(), author_id@, author_rels, r->Err_0),
{
    let chat = match chat {
        Some(c) => c,
        None => return Err(ApiError::ChatNotFound),
    };
    if chat.recipients.len() != 2 {
        return Err(ApiError::ChatWritePermissionDenied);
    }
    if !chat_has_recipient(chat, author_id) {
        return Err(ApiError::ChatWritePermissionDenied);
    }
    let other = if !crate::text::id_eq(chat.recipients[0].id.as_str(), author_id) {
        chat.recipients[0].id.clone()
    } else if !crate::text::id_eq(chat.recipients[1].id.as_str(), author_id) {
        chat.recipients[1].id.clone()
    } else {
        return Err(ApiError::UnknownError("no other user found in chat, only the author's id exists.".to_owned()));
    };
    let rels = match author_rels {
        Some(rels) => rels,
        None => return Err(ApiError::UserNotFound),
    };
    match relation_status(rels, other.as_str()) {
        RelationStatus::Friend => Ok(other),
        _ => Err(ApiError::ChatWritePermissionDenied),
    }
}

/// Writes a direct message from `author_id` into the chat (`None` where the
/// store found none): where `authorize_direct_message` allows it, mints an
/// id greater than every id `minter` issued before, trims the content, and
/// in the same step records the id as the chat's last message. A refused
/// write reports the error `write_refused_with` names; where the generator
/// gives no id in order the write fails as an internal error. The new id
/// sorts as text after every id `minter` issued before. On failure the
/// chat is untouched.
pub fn save_direct_message(
    chat: &mut Option<Chat>,
    minter: &mut IdMinter,
    author_id: &str,
    author_rels: Option<&Vec<Relation>>,
    content: &str,
) -> (r: Result<MessageJson, ApiError>)
    ensures
        match *old(chat) {
            Some(c) => {
                let allowed = authorize_spec_ok(c, author_id@, author_rels);
                &&& r is Ok ==> allowed
                &&& r is Err ==> if allowed {
                    r->Err_0 is UnknownError
                } else {
                    write_refused_with(c, author_id@, author_rels, r->Err_0)
                }
                &&& r is Err ==> *final(chat) == *old(chat) && final(minter).last_issued() == old(minter).last_issued()
                &&& r is Ok ==> {
                    let m = r->Ok_0;
                    &&& m.chat_id == c.id
                    &&& m.author_id@ == author_id@
                    &&& m.content@ == trimmed_of(content@)
                    &&& m.id@.len() == 26
                    &&& id_timestamp_of(m.id@) == Some(m.timestamp)
                    &&& ulid_decode_of(m.id@) == Some(final(minter).last_issued())
                    &&& m.id@ == ulid_text(final(minter).last_issued())
                    &&& final(minter).last_issued() > old(minter).last_issued()
                    &&& forall|w: u128| w <= old(minter).last_issued() ==> #[trigger] lex_lt(ulid_text(w), m.id@)
                    &&& *final(chat) == Some(Chat { last_message_id: Some(m.id), ..c })
                }
            },
            None => r == Err::<MessageJson, ApiError>(ApiError::ChatNotFound) && *final(chat) == *old(chat)
                && final(minter).last_issued() == old(minter).last_issued(),
        },
{
    let checked = match chat {
        Some(c) => authorize_direct_message(Some(&*c), author_id, author_rels),
        None => authorize_direct_message(None, author_id, author_rels),
    };
    match checked {
        Err(e) => Err(e),
        Ok(_) => {
            let (id, timestamp) = match minter.mint() {
                Some(minted) => minted,
                None => return Err(ApiError::UnknownError("no message id could be issued in order.".to_owned())),
            };
            proof {
                assert forall|w: u128| w <= old(minter).last_issued() implies #[trigger] lex_lt(ulid_text(w), id@) by {
                    crate::ids::lemma_ulid_text_order(w, minter.last_issued());
                }
            }
            let c = chat.take().unwrap();
            let msg = MessageJson {
                id: id.clone(),
                chat_id: c.id.clone(),
                author_id: author_id.to_owned(),
                content: trim_text(content),
                timestamp,
            };
            *chat = Some(Chat { last_message_id: Some(id), ..c });
            Ok(msg)
        },
    }
}

/// The error a refused write reports: permission denied where the chat does
/// not have exactly two recipients, the author is not one of them, or the
/// author is no friend of the other; user not found where the author is
/// unknown; an internal error where both recipients are the author.
pub open spec fn write_refused_with(c: Chat, author: Seq<char>, author_rels: Option<&Vec<Relation>>, e: ApiError) -> bool {
    if c.recipients@.len() != 2 || !has_recipient(c, author) {
        e == ApiError::ChatWritePermissionDenied
    } else {
        match other_recipient(c, author) {
            None => e is UnknownError,
            Some(other) => match author_rels {
                None => e == ApiError::UserNotFound,
                Some(rels) => status_in(rels@, other) != RelationStatus::Friend && e == ApiError::ChatWritePermissionDenied,
            },
        }
    }
}

/// The write is allowed: the chat has two recipients, one of them the
/// author, and the author is a friend of the other.
pub open spec fn authorize_spec_ok(c: Chat, author: Seq<char>, author_rels: Option<&Vec<Relation>>) -> bool {
    &&& c.recipients@.len() == 2
    &&& has_recipient(c, author)
    &&& other_recipient(c, author) is Some
    &&& author_rels is Some
    &&& status_in(author_rels.unwrap()@, other_recipient(c, author).unwrap()) == RelationStatus::Friend
}

} // verus!
