//! Field checks of the message endpoints' inputs.
use vstd::prelude::*;
use crate::error::ApiError;
use crate::model::{GetMessagesQuery, SaveMessageRequest, ValidationError};

verus! {

/// The text's length in characters meets the bounds: exactly `equal` where
/// it is given, else at least `min` and at most `max` where those are given.
pub open spec fn length_ok(s: Seq<char>, min: Option<u64>, max: Option<u64>, equal: Option<u64>) -> bool {
    match equal {
        Some(e) => s.len() == e,
        None => (match min { Some(m) => s.len() >= m, None => true }) && (match max { Some(m) => s.len() <= m, None => true }),
    }
}

/// Relies on `validator::validate_length`: compares the number of
/// characters with the bounds, `equal` overriding `min` and `max`.
#[verifier::external_body]
fn length_valid(s: &String, min: Option<u64>, max: Option<u64>, equal: Option<u64>) -> (r: bool)
    ensures
        r == length_ok(s@, min, max, equal),
{
    validator::validate_length(s, min, max, equal)
}

/// Relies on `validator::validate_range`: the value lies within the bounds
/// that are given.
#[verifier::external_body]
fn range_valid(v: i64, min: Option<i64>, max: Option<i64>) -> (r: bool)
    ensures
        r == ((match min { Some(m) => v >= m, None => true }) && (match max { Some(m) => v <= m, None => true })),
{
    validator::validate_range(v, min, max)
}

/// A cursor, where given, is an identifier of 26 characters.
pub open spec fn cursor_ok(c: Option<String>) -> bool {
    match c {
        Some(s) => s@.len() == 26,
        None => true,
    }
}

/// At most one of the two cursors is given.
pub open spec fn cursors_exclusive(q: GetMessagesQuery) -> bool {
    !(q.before is Some && q.after is Some)
}

/// A page size, where given, lies between 1 and 50.
pub open spec fn limit_ok(l: Option<i64>) -> bool {
    match l {
        Some(n) => 1 <= n <= 50,
        None => true,
    }
}

/// The fields that fail, in declaration order, each with its message.
pub open spec fn failing_query_fields(q: GetMessagesQuery) -> Seq<(Seq<char>, Seq<char>)> {
    (if cursor_ok(q.before) { Seq::empty() } else { seq![("before"@, "Invalid id."@)] })
        + (if cursor_ok(q.after) { Seq::empty() } else { seq![("after"@, "Invalid id."@)] })
        + (if cursors_exclusive(q) { Seq::empty() } else { seq![("after"@, "Must not be given together with before."@)] })
        + (if limit_ok(q.limit) { Seq::empty() } else { seq![("limit"@, "Must be between 1 and 50."@)] })
}

/// The error reported for one field: its name and one message.
pub open spec fn field_error_is(e: ValidationError, field: Seq<char>, message: Seq<char>) -> bool {
    e.field@ == field && e.errors@.len() == 1 && e.errors@[0]@ == message
}

fn field_error(field: &str, message: &str) -> (r: ValidationError)
    ensures
        field_error_is(r, field@, message@),
{
    let r = ValidationError { field: field.to_owned(), errors: vec![message.to_owned()] };
    assert(r.errors@[0]@ == message@);
    r
}

/// Checks a messages query: each cursor is an id of 26 characters, at most
/// one cursor is given, and the page size lies between 1 and 50. Every
/// failing check is reported.
pub fn validate_get_messages_query(q: &GetMessagesQuery) -> (r: Result<(), ApiError>)
    ensures
        (r is Ok) == (cursor_ok(q.before) && cursor_ok(q.after) && cursors_exclusive(*q) && limit_ok(q.limit)),
        r is Err ==> r->Err_0 is ValidationError && {
            let errs = r->Err_0->ValidationError_0@;
            &&& errs.len() == failing_query_fields(*q).len()
            &&& forall|k: int| 0 <= k < errs.len() ==> field_error_is(#[trigger] errs[k], failing_query_fields(*q)[k].0, failing_query_fields(*q)[k].1)
        },
{
    let mut errs: Vec<ValidationError> = Vec::new();
    let before_ok = match &q.before {
        Some(s) => length_valid(s, None, None, Some(26)),
        None => true,
    };
    if !before_ok {
        errs.push(field_error("before", "Invalid id."));
    }
    let after_ok = match &q.after {
        Some(s) => length_valid(s, None, None, Some(26)),
        None => true,
    };
    if !after_ok {
        errs.push(field_error("after", "Invalid id."));
    }
    if q.before.is_some() && q.after.is_some() {
        errs.push(field_error("after", "Must not be given together with before."));
    }
    let limit_valid = match q.limit {
        Some(n) => range_valid(n, Some(1), Some(50)),
        None => true,
    };
    if !limit_valid {
        errs.push(field_error("limit", "Must be between 1 and 50."));
    }
    proof {
        let f = failing_query_fields(*q);
        assert(errs@.len() == f.len());
        assert forall|k: int| 0 <= k < errs@.len() implies field_error_is(#[trigger] errs@[k], f[k].0, f[k].1) by {}
    }
    if errs.len() == 0 {
        Ok(())
    } else {
        Err(ApiError::ValidationError(errs))
    }
}

/// The page size a query asks for: the given one, or 50.
pub fn effective_limit(q: &GetMessagesQuery) -> (r: i64)
    ensures
        r == match q.limit { Some(n) => n, None => 50 },
{
    match q.limit {
        Some(n) => n,
        None => 50,
    }
}

/// Checks a message to write: its content has 1 to 1024 characters and its
/// acknowledgement id, where given, 26. Every failing field is reported.
pub fn validate_save_message_request(req: &SaveMessageRequest) -> (r: Result<(), ApiError>)
    ensures
        (r is Ok) == (1 <= req.content@.len() <= 1024 && cursor_ok(req.ack_id)),
        r is Err ==> r->Err_0 is ValidationError && {
            let errs = r->Err_0->ValidationError_0@;
            &&& errs.len() == (if 1 <= req.content@.len() <= 1024 { 0int } else { 1int }) + (if cursor_ok(req.ack_id) { 0int } else { 1int })
            &&& !(1 <= req.content@.len() <= 1024) ==> field_error_is(errs[0], "content"@, "Must be between 1 and 1024 characters long."@)
            &&& !cursor_ok(req.ack_id) ==> field_error_is(errs[errs.len() - 1], "ack_id"@, "Invalid id."@)
        },
{
    let mut errs: Vec<ValidationError> = Vec::new();
    if !length_valid(&req.content, Some(1), Some(1024), None) {
        errs.push(field_error("content", "Must be between 1 and 1024 characters long."));
    }
    let ack_ok = match &req.ack_id {
        Some(s) => length_valid(s, None, None, Some(26)),
        None => true,
    };
    if !ack_ok {
        errs.push(field_error("ack_id", "Invalid id."));
    }
    if errs.len() == 0 {
        Ok(())
    } else {
        Err(ApiError::ValidationError(errs))
    }
}

} // verus!
