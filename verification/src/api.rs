//! The operations as the command layer asks for them: what comes in is
//! checked before the cache is touched.

use crate::cache::CacheStore;
use crate::error::{DEmailError, ErrorKind, ErrorModel};
use crate::messages::{answering, header_models, in_folder, newest_first};
use crate::models::{Draft, MessageHeader, MessageModel};
use crate::reply_forward::{
    forward_of, prepare_forward as forward_for, prepare_reply as reply_for, reply_of,
    utc_date_text, ForwardData, ReplyData,
};
use crate::text::lowercase_of;
use crate::validation::{
    body_check, outcome, pagination_check, query_check, subject_check, validate_body,
    validate_pagination, validate_search_query, validate_subject,
};
use vstd::prelude::*;

verus! {

/// One page of the messages of a folder, the newest first. A page of less
/// than 1 or more than 1000 rows, or one that starts before row 0 or after
/// row 1000000, is refused with a validation error before the cache is
/// looked at.
pub fn get_messages_paginated(store: &CacheStore, folder_id: i64, limit: i64, offset: i64) -> (r:
    Result<Vec<MessageHeader>, DEmailError>)
    requires
        store.wf(),
    ensures
        match r {
            Ok(v) => pagination_check(limit, offset) is Ok && header_models(v@)
                == store@.messages.listing(
                in_folder(folder_id),
                newest_first(),
                limit as int,
                offset as int,
            ),
            Err(e) => pagination_check(limit, offset) == Err::<(), ErrorModel>(e@),
        },
        r is Ok <==> 1 <= limit <= 1000 && 0 <= offset <= 1_000_000,
{
    match validate_pagination(limit, offset) {
        Ok(_) => {},
        Err(e) => {
            return Err(e);
        },
    }
    crate::cache::get_messages_paginated(store, folder_id, limit, offset)
}

/// The messages of an account that the text index finds for `query`. A
/// query that [`validate_search_query`] refuses is refused before the
/// index is looked at.
pub fn search_messages(store: &CacheStore, account_id: i64, query: &str) -> (r: Result<
    Vec<MessageHeader>,
    DEmailError,
>)
    requires
        store.wf(),
    ensures
        match r {
            Ok(v) => query_check(query@, lowercase_of(query@)) is Ok && header_models(v@)
                == store@.messages.listing(answering(account_id, query@), newest_first(), -1, 0),
            Err(e) => query_check(query@, lowercase_of(query@)) == Err::<(), ErrorModel>(e@),
        },
{
    match validate_search_query(query) {
        Ok(_) => {},
        Err(e) => {
            return Err(e);
        },
    }
    crate::cache::search_messages_fts(store, account_id, query)
}

/// What the check of a draft returns: the first failure among the checks
/// of its subject, its plain body and its HTML body.
pub open spec fn draft_check(draft: crate::models::DraftModel) -> Result<(), ErrorModel> {
    if subject_check(draft.subject) is Err {
        subject_check(draft.subject)
    } else if draft.body_plain matches Some(b) && body_check(b) is Err {
        body_check(draft.body_plain.unwrap())
    } else if draft.body_html matches Some(b) && body_check(b) is Err {
        body_check(draft.body_html.unwrap())
    } else {
        Ok(())
    }
}

/// Checks a draft: its subject and its bodies.
pub fn validate_draft(draft: &Draft) -> (r: Result<(), DEmailError>)
    ensures
        outcome(r) == draft_check(draft@),
{
    match validate_subject(draft.subject.as_str()) {
        Ok(_) => {},
        Err(e) => {
            return Err(e);
        },
    }
    match &draft.body_plain {
        Some(b) => match validate_body(b.as_str()) {
            Ok(_) => {},
            Err(e) => {
                return Err(e);
            },
        },
        None => {},
    }
    match &draft.body_html {
        Some(b) => match validate_body(b.as_str()) {
            Ok(_) => {},
            Err(e) => {
                return Err(e);
            },
        },
        None => {},
    }
    Ok(())
}

/// Saves a draft at `now`, after its subject and its bodies were checked. A
/// draft that fails a check is refused and the cache stays as it is.
pub fn save_draft(store: &mut CacheStore, draft: &Draft, now: i64) -> (r: Result<i64, DEmailError>)
    requires
        old(store).wf(),
    ensures
        final(store).wf(),
        match draft_check(draft@) {
            Err(e) => outcome(r) == Err::<i64, ErrorModel>(e) && final(store)@ == old(store)@,
            Ok(_) => final(store)@ == old(store)@.with_draft(draft@, now).0 && match r {
                Ok(id) => old(store)@.with_draft(draft@, now).1 == Some(id),
                Err(e) => old(store)@.with_draft(draft@, now).1 is None && e@.kind
                    == ErrorKind::Database,
            },
        },
{
    match validate_draft(draft) {
        Ok(_) => {},
        Err(e) => {
            return Err(e);
        },
    }
    crate::cache::save_draft(store, draft, now)
}

/// What a reply to the message `message_id` starts from. Fails with a
/// database error where the cache holds no such message.
pub fn prepare_reply(store: &CacheStore, message_id: i64, reply_all: bool) -> (r: Result<
    ReplyData,
    DEmailError,
>)
    requires
        store.wf(),
    ensures
        match r {
            Ok(d) => store@.messages.get(message_id) matches Some(row) && d@ == reply_of(
                MessageModel { attachments: store@.attachments.for_message(message_id), ..row },
                reply_all,
                utc_date_text(row.date as int),
            ),
            Err(e) => store@.messages.get(message_id) is None && e@.kind == ErrorKind::Database,
        },
{
    match crate::cache::get_message_details(store, message_id) {
        Ok(m) => reply_for(&m, reply_all),
        Err(e) => Err(e),
    }
}

/// What forwarding the message `message_id` starts from. Fails with a
/// database error where the cache holds no such message.
pub fn prepare_forward(store: &CacheStore, message_id: i64) -> (r: Result<ForwardData, DEmailError>)
    requires
        store.wf(),
    ensures
        match r {
            Ok(d) => store@.messages.get(message_id) matches Some(row) && d@ == forward_of(
                MessageModel { attachments: store@.attachments.for_message(message_id), ..row },
                utc_date_text(row.date as int),
            ),
            Err(e) => store@.messages.get(message_id) is None && e@.kind == ErrorKind::Database,
        },
{
    match crate::cache::get_message_details(store, message_id) {
        Ok(m) => forward_for(&m),
        Err(e) => Err(e),
    }
}

} // verus!
