//! Synchronization: what is fetched from a mailbox becomes rows of the
//! cache.

use crate::attachments::AttachmentTableModel;
use crate::cache::{
    create_or_update_thread, extract_and_save_contacts, find_thread, knows_message,
    link_message_to_thread, remove_attachments_for_message, save_message, store_attachment,
    CacheModel, CacheStore,
};
use crate::contacts::header_entries;
use crate::error::{DEmailError, ErrorModel};
use crate::messages::{no_identifier_left, lemma_link_keeps_keys, lemma_upsert_holds, lemma_upsert_keeps_keys, lemma_upsert_wf};
use crate::mime::{
    mailbox_models, Mailbox, MailboxModel, ParsedAttachment, ParsedAttachmentModel, ParsedMail,
    ParsedMailModel,
};
use crate::models::{opt_text, Attachment, AttachmentModel, Message, MessageModel};

use crate::text::{chars_of, join, join_of, string_of, texts};
use crate::threading::thread_key;
use vstd::prelude::*;
use vstd::string::StringExecFns;

verus! {

/// An address as a header shows it: the name before the address in angle
/// brackets, or whichever of the two there is.
pub open spec fn mailbox_text(m: MailboxModel) -> Seq<char> {
    match (m.name, m.address) {
        (Some(n), Some(a)) => n + " <"@ + a + ">"@,
        (None, Some(a)) => a,
        (Some(n), None) => n,
        (None, None) => Seq::empty(),
    }
}

/// [`mailbox_text`], as a function.
pub open spec fn mailbox_texts() -> spec_fn(MailboxModel) -> Seq<char> {
    |m: MailboxModel| mailbox_text(m)
}

/// The addresses as a header shows them, with a comma and a space between
/// each two.
pub open spec fn address_line(list: Seq<MailboxModel>) -> Seq<char> {
    join(list.map_values(mailbox_texts()), ", "@)
}

/// The addresses as a header shows them.
pub fn format_addresses(list: &Vec<Mailbox>) -> (r: String)
    ensures
        r@ == address_line(mailbox_models(list@)),
{
    let mut shown: Vec<Vec<char>> = Vec::new();
    let mut i: usize = 0;
    let ghost models = mailbox_models(list@);
    proof {
        assert(texts(shown@) =~= models.take(0).map_values(mailbox_texts()));
    }
    while i < list.len()
        invariant
            i <= list.len(),
            models == mailbox_models(list@),
            texts(shown@) == models.take(i as int).map_values(mailbox_texts()),
        decreases list.len() - i,
    {
        let m = &list[i];
        let text: Vec<char> = match (&m.name, &m.address) {
            (Some(n), Some(a)) => {
                let mut t = n.clone();
                t.append(" <");
                t.append(a.as_str());
                t.append(">");
                chars_of(t.as_str())
            },
            (None, Some(a)) => chars_of(a.as_str()),
            (Some(n), None) => chars_of(n.as_str()),
            (None, None) => Vec::new(),
        };
        proof {
            assert(models[i as int] == m@);
            assert(text@ =~= mailbox_text(m@));
            assert(models.take(i + 1) =~= models.take(i as int).push(m@));
            models.take(i as int).lemma_push_map_commute(mailbox_texts(), m@);
            assert(texts(shown@.push(text)) =~= texts(shown@).push(text@));
        }
        shown.push(text);
        i += 1;
    }
    proof {
        assert(models.take(list.len() as int) =~= models);
    }
    string_of(&join_of(&shown, &chars_of(", ")))
}

/// The text of an optional text, or nothing.
pub open spec fn or_empty(t: Option<Seq<char>>) -> Seq<char> {
    match t {
        Some(s) => s,
        None => Seq::empty(),
    }
}

/// The message that is made of what was read of a raw message, for the
/// account, the folder and the UID under which it was fetched: headers
/// that are missing are empty, a missing date is 0, the message is unread
/// and has neither a star nor a thread yet.
pub open spec fn assemble(p: ParsedMailModel, account_id: i64, folder_id: i64, uid: u32) -> MessageModel {
    MessageModel {
        id: 0,
        account_id,
        folder_id,
        imap_uid: uid,
        message_id_header: or_empty(p.message_id),
        from_header: address_line(p.from),
        to_header: address_line(p.to),
        cc_header: if p.cc.len() > 0 {
            Some(address_line(p.cc))
        } else {
            None
        },
        subject: or_empty(p.subject),
        date: match p.date {
            Some(d) => d,
            None => 0,
        },
        body_plain: p.body_text,
        body_html: p.body_html,
        has_attachments: p.attachments.len() > 0,
        is_read: false,
        is_starred: false,
        thread_id: None,
        attachments: Seq::empty(),
    }
}

fn text_or_empty(t: &Option<String>) -> (r: String)
    ensures
        r@ == or_empty(opt_text(*t)),
{
    match t {
        Some(s) => s.clone(),
        None => String::new(),
    }
}

/// The message that is made of what was read of a raw message.
pub fn normalize_message(parsed: &ParsedMail, account_id: i64, folder_id: i64, uid: u32) -> (m:
    Message)
    ensures
        m@ == assemble(parsed@, account_id, folder_id, uid),
{
    let cc_header = if parsed.cc.len() > 0 {
        Some(format_addresses(&parsed.cc))
    } else {
        None
    };
    let m = Message {
        id: 0,
        account_id,
        folder_id,
        imap_uid: uid,
        message_id_header: text_or_empty(&parsed.message_id),
        from_header: format_addresses(&parsed.from),
        to_header: format_addresses(&parsed.to),
        cc_header,
        subject: text_or_empty(&parsed.subject),
        date: match parsed.date {
            Some(d) => d,
            None => 0,
        },
        body_plain: parsed.body_text.clone(),
        body_html: parsed.body_html.clone(),
        has_attachments: parsed.attachments.len() > 0,
        is_read: false,
        is_starred: false,
        thread_id: None,
        attachments: Vec::new(),
    };
    proof {
        assert(crate::models::attachment_models(m.attachments@) =~= Seq::empty());
    }
    m
}

/// What is recorded of an attachment part of the message `message_id`: a
/// part without a name is `unnamed_attachment`, one without a type is
/// `application/octet-stream`; the size is that of its content.
pub open spec fn attachment_record(part: ParsedAttachmentModel, message_id: i64) -> AttachmentModel {
    AttachmentModel {
        id: 0,
        message_id,
        filename: match part.name {
            Some(n) => n,
            None => "unnamed_attachment"@,
        },
        mime_type: match part.mime_type {
            Some(t) => t,
            None => "application/octet-stream"@,
        },
        size_bytes: if part.contents.len() <= i64::MAX {
            part.contents.len() as i64
        } else {
            i64::MAX
        },
        local_path: None,
    }
}

/// What is recorded of an attachment part.
pub fn attachment_from(part: &ParsedAttachment, message_id: i64) -> (a: Attachment)
    ensures
        a@ == attachment_record(part@, message_id),
{
    let n: usize = part.contents.len();
    Attachment {
        id: 0,
        message_id,
        filename: match &part.name {
            Some(n) => n.clone(),
            None => String::from_str("unnamed_attachment"),
        },
        mime_type: match &part.mime_type {
            Some(t) => t.clone(),
            None => String::from_str("application/octet-stream"),
        },
        size_bytes: if n as u64 <= i64::MAX as u64 {
            n as i64
        } else {
            i64::MAX
        },
        local_path: None,
    }
}

/// The attachments after the parts from index `from` on were stored for the
/// message `message_id`, each together with its content. A part for which
/// no identifier is left is passed over.
pub open spec fn store_parts(
    t: AttachmentTableModel,
    parts: Seq<ParsedAttachmentModel>,
    message_id: i64,
    from: int,
) -> AttachmentTableModel
    decreases parts.len() - from,
{
    if from < 0 || from >= parts.len() {
        t
    } else {
        store_parts(
            t.store(attachment_record(parts[from], message_id), parts[from].contents).0,
            parts,
            message_id,
            from + 1,
        )
    }
}

/// The cache after a message that was read as `p` was taken in for the
/// account, the folder and the UID, at `now`, and the identifier of its
/// row; no change and `None` where the message is new and no identifier is
/// left.
///
/// The message is saved under its account, folder and UID. A message that
/// is new joins its thread, which counts it; one that the cache knew is
/// linked to the thread that its account has for its subject, which does
/// not count it again. The addresses of its headers are observed. Its
/// attachments take the place of those that the row had.
pub open spec fn ingest(
    c: CacheModel,
    account_id: i64,
    folder_id: i64,
    uid: u32,
    p: ParsedMailModel,
    now: i64,
) -> (CacheModel, Option<i64>) {
    let m = assemble(p, account_id, folder_id, uid);
    let known = c.messages.find_key(account_id, folder_id, uid) is Some;
    let (saved, row) = c.messages.upsert(m);
    match row {
        None => (c, None),
        Some(id) => {
            let key = thread_key(m.subject);
            let (threads, thread) = if known && c.threads.thread_for(account_id, key) is Some {
                (c.threads, c.threads.thread_for(account_id, key))
            } else {
                c.threads.classify(account_id, key, id, now)
            };
            let messages = match thread {
                Some(t) => saved.link_thread(id, t),
                None => saved,
            };
            let contacts = c.contacts.observe_entries(
                header_entries(m.from_header, m.to_header, m.cc_header),
                0,
                now,
            ).0;
            let attachments = store_parts(c.attachments.without_message(id), p.attachments, id, 0);
            (CacheModel { messages, threads, contacts, attachments, ..c }, Some(id))
        },
    }
}

/// Takes a message that was read as `parsed` into the cache, at `now`.
/// Returns the identifier of its row, or a database error, with the cache
/// unchanged, where the message is new and no identifier is left.
pub fn ingest_message(
    store: &mut CacheStore,
    account_id: i64,
    folder_id: i64,
    uid: u32,
    parsed: &ParsedMail,
    now: i64,
) -> (r: Result<i64, DEmailError>)
    requires
        old(store).wf(),
    ensures
        final(store).wf(),
        final(store)@ == ingest(old(store)@, account_id, folder_id, uid, parsed@, now).0,
        match r {
            Ok(id) => ingest(old(store)@, account_id, folder_id, uid, parsed@, now).1 == Some(id),
            Err(e) => ingest(old(store)@, account_id, folder_id, uid, parsed@, now).1 is None
                && e@ == no_identifier_left(),
        },
{
    let ghost before = store@;
    let mut message = normalize_message(parsed, account_id, folder_id, uid);
    let known = knows_message(store, account_id, folder_id, uid);
    let id = match save_message(store, &message) {
        Ok(id) => id,
        Err(e) => {
            return Err(e);
        },
    };
    let ghost subject = message.subject@;
    message.id = id;
    let existing: Option<i64> = if known {
        find_thread(store, account_id, message.subject.as_str())
    } else {
        None
    };
    match existing {
        Some(t) => {
            link_message_to_thread(store, id, t);
        },
        None => {
            let _ = create_or_update_thread(store, &message, now);
        },
    }
    let _ = match &message.cc_header {
        Some(c) => extract_and_save_contacts(
            store,
            message.from_header.as_str(),
            message.to_header.as_str(),
            Some(c.as_str()),
            now,
        ),
        None => extract_and_save_contacts(
            store,
            message.from_header.as_str(),
            message.to_header.as_str(),
            None,
            now,
        ),
    };
    remove_attachments_for_message(store, id);
    let mut i: usize = 0;
    let ghost cleared = store@;
    while i < parsed.attachments.len()
        invariant
            i <= parsed.attachments.len(),
            store.wf(),
            store@ == (CacheModel { attachments: store@.attachments, ..cleared }),
            store_parts(cleared.attachments, parsed@.attachments, id, 0) == store_parts(
                store@.attachments,
                parsed@.attachments,
                id,
                i as int,
            ),
        decreases parsed.attachments.len() - i,
    {
        let part = &parsed.attachments[i];
        proof {
            assert(parsed@.attachments[i as int] == part@);
        }
        let record = attachment_from(part, id);
        let _ = store_attachment(store, &record, part.contents.as_slice());
        i += 1;
    }
    Ok(id)
}

/// What came of one fetched item.
#[derive(Debug)]
pub enum ItemOutcome {
    /// The item had no body, or its body could not be read as a message.
    Skipped,
    /// The message was saved under this identifier.
    Saved(i64),
    /// The message could not be saved.
    Failed(DEmailError),
}

/// The model of an [`ItemOutcome`].
pub enum OutcomeModel {
    Skipped,
    Saved(i64),
    Failed(ErrorModel),
}

impl View for ItemOutcome {
    type V = OutcomeModel;

    open spec fn view(&self) -> OutcomeModel {
        match self {
            ItemOutcome::Skipped => OutcomeModel::Skipped,
            ItemOutcome::Saved(id) => OutcomeModel::Saved(*id),
            ItemOutcome::Failed(e) => OutcomeModel::Failed(e@),
        }
    }
}

/// One item of a fetch: the UID that the server gave, and what was read of
/// the raw message; `None` where the item had no body or its body could not
/// be read as a message.
#[derive(Debug)]
pub struct FetchedItem {
    pub uid: Option<u32>,
    pub message: Option<ParsedMail>,
}

/// The model of a [`FetchedItem`].
pub struct FetchedItemModel {
    pub uid: Option<u32>,
    pub message: Option<ParsedMailModel>,
}

impl View for FetchedItem {
    type V = FetchedItemModel;

    open spec fn view(&self) -> FetchedItemModel {
        FetchedItemModel {
            uid: self.uid,
            message: match self.message {
                Some(m) => Some(m@),
                None => None,
            },
        }
    }
}

/// The models of the items that a vector holds.
pub open spec fn item_models(v: Seq<FetchedItem>) -> Seq<FetchedItemModel> {
    v.map_values(|i: FetchedItem| i@)
}

/// The models of the outcomes that a vector holds.
pub open spec fn outcome_models(v: Seq<ItemOutcome>) -> Seq<OutcomeModel> {
    v.map_values(|o: ItemOutcome| o@)
}

/// The message that a fetched item holds, if it holds one.
pub open spec fn readable(item: FetchedItemModel) -> Option<ParsedMailModel> {
    item.message
}

/// The UID of a fetched item; 0 where the server gave none.
pub open spec fn uid_of(item: FetchedItemModel) -> u32 {
    match item.uid {
        Some(u) => u,
        None => 0,
    }
}

/// The cache after one fetched item was taken in, and what came of the
/// item: an item without a body, or whose body cannot be read, is skipped
/// and changes nothing; a message that is new when no identifier is left
/// fails with a database error and changes nothing.
pub open spec fn ingest_item(
    c: CacheModel,
    account_id: i64,
    folder_id: i64,
    item: FetchedItemModel,
    now: i64,
) -> (CacheModel, OutcomeModel) {
    match readable(item) {
        None => (c, OutcomeModel::Skipped),
        Some(p) => match ingest(c, account_id, folder_id, uid_of(item), p, now).1 {
            Some(id) => (
                ingest(c, account_id, folder_id, uid_of(item), p, now).0,
                OutcomeModel::Saved(id),
            ),
            None => (c, OutcomeModel::Failed(no_identifier_left())),
        },
    }
}

/// The cache after the fetched items from index `from` on were taken in,
/// one after the other, whatever came of each.
pub open spec fn ingest_items(
    c: CacheModel,
    account_id: i64,
    folder_id: i64,
    items: Seq<FetchedItemModel>,
    from: int,
    now: i64,
) -> CacheModel
    decreases items.len() - from,
{
    if from < 0 || from >= items.len() {
        c
    } else {
        ingest_items(
            ingest_item(c, account_id, folder_id, items[from], now).0,
            account_id,
            folder_id,
            items,
            from + 1,
            now,
        )
    }
}

/// What came of each of the first `upto` fetched items.
pub open spec fn ingest_outcomes(
    c: CacheModel,
    account_id: i64,
    folder_id: i64,
    items: Seq<FetchedItemModel>,
    upto: int,
    now: i64,
) -> Seq<OutcomeModel>
    decreases upto,
{
    if upto <= 0 || upto > items.len() {
        Seq::empty()
    } else {
        let before = ingest_items(c, account_id, folder_id, items.take(upto - 1), 0, now);
        ingest_outcomes(c, account_id, folder_id, items, upto - 1, now).push(
            ingest_item(before, account_id, folder_id, items[upto - 1], now).1,
        )
    }
}

/// Taking in the first `upto + 1` items is taking in the first `upto` and
/// then the next.
proof fn lemma_ingest_items_step(
    c: CacheModel,
    account_id: i64,
    folder_id: i64,
    items: Seq<FetchedItemModel>,
    from: int,
    upto: int,
    now: i64,
)
    requires
        0 <= from <= upto < items.len(),
    ensures
        ingest_items(c, account_id, folder_id, items.take(upto + 1), from, now) == ingest_item(
            ingest_items(c, account_id, folder_id, items.take(upto), from, now),
            account_id,
            folder_id,
            items[upto],
            now,
        ).0,
    decreases upto - from,
{
    let more = items.take(upto + 1);
    let fewer = items.take(upto);
    let next = ingest_item(c, account_id, folder_id, items[from], now).0;
    assert(more[from] == items[from]);
    assert(more.len() == upto + 1);
    assert(fewer.len() == upto);
    assert(ingest_items(c, account_id, folder_id, more, from, now) == ingest_items(
        next,
        account_id,
        folder_id,
        more,
        from + 1,
        now,
    ));
    if from < upto {
        assert(fewer[from] == items[from]);
        assert(ingest_items(c, account_id, folder_id, fewer, from, now) == ingest_items(
            next,
            account_id,
            folder_id,
            fewer,
            from + 1,
            now,
        ));
        lemma_ingest_items_step(next, account_id, folder_id, items, from + 1, upto, now);
    } else {
        assert(ingest_items(next, account_id, folder_id, more, from + 1, now) == next);
        assert(ingest_items(c, account_id, folder_id, fewer, from, now) == c);
    }
}

/// Takes one fetched item into the cache, at `now`.
pub fn ingest_fetched(
    store: &mut CacheStore,
    account_id: i64,
    folder_id: i64,
    item: &FetchedItem,
    now: i64,
) -> (r: ItemOutcome)
    requires
        old(store).wf(),
    ensures
        final(store).wf(),
        final(store)@ == ingest_item(old(store)@, account_id, folder_id, item@, now).0,
        r@ == ingest_item(old(store)@, account_id, folder_id, item@, now).1,
{
    let parsed = match &item.message {
        Some(p) => p,
        None => {
            return ItemOutcome::Skipped;
        },
    };
    let uid: u32 = match item.uid {
        Some(u) => u,
        None => 0,
    };
    match ingest_message(store, account_id, folder_id, uid, parsed, now) {
        Ok(id) => ItemOutcome::Saved(id),
        Err(e) => ItemOutcome::Failed(e),
    }
}

/// Takes what was fetched from a folder into the cache, at `now`, item by
/// item. An item that cannot be read or saved does not keep the others from
/// being taken in. Returns what came of each item.
pub fn sync_folder(
    store: &mut CacheStore,
    account_id: i64,
    folder_id: i64,
    items: &Vec<FetchedItem>,
    now: i64,
) -> (r: Vec<ItemOutcome>)
    requires
        old(store).wf(),
    ensures
        final(store).wf(),
        final(store)@ == ingest_items(
            old(store)@,
            account_id,
            folder_id,
            item_models(items@),
            0,
            now,
        ),
        outcome_models(r@) == ingest_outcomes(
            old(store)@,
            account_id,
            folder_id,
            item_models(items@),
            items.len() as int,
            now,
        ),
{
    let ghost all = item_models(items@);
    let ghost start = store@;
    let mut r: Vec<ItemOutcome> = Vec::new();
    let mut i: usize = 0;
    proof {
        assert(outcome_models(r@) =~= Seq::<OutcomeModel>::empty());
    }
    while i < items.len()
        invariant
            i <= items.len(),
            store.wf(),
            all == item_models(items@),
            store@ == ingest_items(start, account_id, folder_id, all.take(i as int), 0, now),
            outcome_models(r@) == ingest_outcomes(start, account_id, folder_id, all, i as int, now),
        decreases items.len() - i,
    {
        proof {
            assert(all[i as int] == items@[i as int]@);
            lemma_ingest_items_step(start, account_id, folder_id, all, 0, i as int, now);
        }
        let outcome = ingest_fetched(store, account_id, folder_id, &items[i], now);
        proof {
            assert(outcome_models(r@.push(outcome)) =~= outcome_models(r@).push(outcome@));
        }
        r.push(outcome);
        i += 1;
    }
    proof {
        assert(all.take(items.len() as int) =~= all);
    }
    r
}

/// Taking a message in keeps the messages in order, keeps what the cache
/// knows by account, folder and UID, and adds a row only for a message that
/// the cache did not know.
pub proof fn lemma_ingest_messages(
    c: CacheModel,
    account_id: i64,
    folder_id: i64,
    uid: u32,
    p: ParsedMailModel,
    now: i64,
    known_account: i64,
    known_folder: i64,
    known_uid: u32,
)
    requires
        c.messages.wf(),
    ensures
        ingest(c, account_id, folder_id, uid, p, now).0.messages.wf(),
        c.messages.find_key(known_account, known_folder, known_uid) is Some ==> ingest(
            c,
            account_id,
            folder_id,
            uid,
            p,
            now,
        ).0.messages.find_key(known_account, known_folder, known_uid) is Some,
        ingest(c, account_id, folder_id, uid, p, now).1 is Some ==> ingest(
            c,
            account_id,
            folder_id,
            uid,
            p,
            now,
        ).0.messages.find_key(account_id, folder_id, uid) is Some,
        c.messages.find_key(account_id, folder_id, uid) is Some ==> ingest(
            c,
            account_id,
            folder_id,
            uid,
            p,
            now,
        ).0.messages.rows.len() == c.messages.rows.len() && ingest(
            c,
            account_id,
            folder_id,
            uid,
            p,
            now,
        ).1 is Some,
{
    let m = assemble(p, account_id, folder_id, uid);
    let (saved, row) = c.messages.upsert(m);
    lemma_upsert_wf(c.messages, m);
    if c.messages.find_key(account_id, folder_id, uid) is Some {
        let i = c.messages.find_key(account_id, folder_id, uid).unwrap();
        assert(c.messages.holds_key(i, account_id, folder_id, uid));
    }
    match row {
        None => {},
        Some(id) => {
            lemma_upsert_holds(c.messages, m);
            if c.messages.find_key(known_account, known_folder, known_uid) is Some {
                lemma_upsert_keeps_keys(c.messages, m, known_account, known_folder, known_uid);
            }
            let after = ingest(c, account_id, folder_id, uid, p, now).0.messages;
            if after != saved {
                // the message was linked to its thread
                let t = choose|t: i64| after == saved.link_thread(id, t);
                lemma_link_keeps_keys(saved, id, t, known_account, known_folder, known_uid);
                lemma_link_keeps_keys(saved, id, t, account_id, folder_id, uid);
                crate::messages::lemma_flags_wf(saved, after);
            }
        },
    }
}

/// Whether the cache knows each of the readable items from index `from` on
/// by the account, the folder and its UID.
pub open spec fn knows_items(
    c: CacheModel,
    account_id: i64,
    folder_id: i64,
    items: Seq<FetchedItemModel>,
    from: int,
) -> bool {
    forall|k: int|
        from <= k < items.len() && readable(#[trigger] items[k]) is Some ==> c.messages.find_key(
            account_id,
            folder_id,
            uid_of(items[k]),
        ) is Some
}

/// Taking in items that the cache knows adds no message.
proof fn lemma_known_items_add_nothing(
    c: CacheModel,
    account_id: i64,
    folder_id: i64,
    items: Seq<FetchedItemModel>,
    from: int,
    now: i64,
)
    requires
        c.messages.wf(),
        0 <= from <= items.len(),
        knows_items(c, account_id, folder_id, items, from),
    ensures
        ingest_items(c, account_id, folder_id, items, from, now).messages.rows.len()
            == c.messages.rows.len(),
        ingest_items(c, account_id, folder_id, items, from, now).messages.wf(),
    decreases items.len() - from,
{
    if from < items.len() {
        let next = ingest_item(c, account_id, folder_id, items[from], now).0;
        match readable(items[from]) {
            None => {},
            Some(p) => {
                lemma_ingest_messages(
                    c,
                    account_id,
                    folder_id,
                    uid_of(items[from]),
                    p,
                    now,
                    account_id,
                    folder_id,
                    uid_of(items[from]),
                );
            },
        }
        assert forall|k: int|
            from + 1 <= k < items.len() && readable(#[trigger] items[k]) is Some implies next.messages.find_key(
            account_id,
            folder_id,
            uid_of(items[k]),
        ) is Some by {
            match readable(items[from]) {
                None => {},
                Some(p) => {
                    lemma_ingest_messages(
                        c,
                        account_id,
                        folder_id,
                        uid_of(items[from]),
                        p,
                        now,
                        account_id,
                        folder_id,
                        uid_of(items[k]),
                    );
                },
            }
        }
        lemma_known_items_add_nothing(next, account_id, folder_id, items, from + 1, now);
    }
}

/// After items were taken in, the cache knows item `k` if it was saved, or
/// if the cache knew it before.
proof fn lemma_taken_items_are_known(
    c: CacheModel,
    account_id: i64,
    folder_id: i64,
    items: Seq<FetchedItemModel>,
    from: int,
    now: i64,
    k: int,
)
    requires
        c.messages.wf(),
        0 <= from <= items.len(),
        0 <= k < items.len(),
        readable(items[k]) is Some,
        if k < from {
            c.messages.find_key(account_id, folder_id, uid_of(items[k])) is Some
        } else {
            all_saved(c, account_id, folder_id, items, from, now)
        },
    ensures
        ingest_items(c, account_id, folder_id, items, from, now).messages.find_key(
            account_id,
            folder_id,
            uid_of(items[k]),
        ) is Some,
        ingest_items(c, account_id, folder_id, items, from, now).messages.wf(),
    decreases items.len() - from,
{
    if from < items.len() {
        let next = ingest_item(c, account_id, folder_id, items[from], now).0;
        match readable(items[from]) {
            None => {},
            Some(p) => {
                lemma_ingest_messages(
                    c,
                    account_id,
                    folder_id,
                    uid_of(items[from]),
                    p,
                    now,
                    account_id,
                    folder_id,
                    uid_of(items[k]),
                );
            },
        }
        lemma_taken_items_are_known(next, account_id, folder_id, items, from + 1, now, k);
    }
}

/// Whether each readable item from index `from` on is saved when the items
/// are taken in.
pub open spec fn all_saved(
    c: CacheModel,
    account_id: i64,
    folder_id: i64,
    items: Seq<FetchedItemModel>,
    from: int,
    now: i64,
) -> bool
    decreases items.len() - from,
{
    if from < 0 || from >= items.len() {
        true
    } else {
        !(ingest_item(c, account_id, folder_id, items[from], now).1 is Failed) && all_saved(
            ingest_item(c, account_id, folder_id, items[from], now).0,
            account_id,
            folder_id,
            items,
            from + 1,
            now,
        )
    }
}

/// Synchronizing the same state of a mailbox twice makes no duplicate: when
/// what was fetched from a folder is taken in again, at whatever time, the
/// cache has as many messages as after the first time.
pub proof fn law_resync_makes_no_duplicate(
    c: CacheModel,
    account_id: i64,
    folder_id: i64,
    items: Seq<FetchedItemModel>,
    first_time: i64,
    second_time: i64,
)
    requires
        c.messages.wf(),
        all_saved(c, account_id, folder_id, items, 0, first_time),
    ensures
        ({
            let once = ingest_items(c, account_id, folder_id, items, 0, first_time);
            let twice = ingest_items(once, account_id, folder_id, items, 0, second_time);
            twice.messages.rows.len() == once.messages.rows.len()
        }),
{
    let once = ingest_items(c, account_id, folder_id, items, 0, first_time);
    assert forall|k: int|
        0 <= k < items.len() && readable(#[trigger] items[k]) is Some implies once.messages.find_key(
        account_id,
        folder_id,
        uid_of(items[k]),
    ) is Some by {
        lemma_taken_items_are_known(c, account_id, folder_id, items, 0, first_time, k);
    }
    lemma_messages_stay_in_order(c, account_id, folder_id, items, 0, first_time);
    lemma_known_items_add_nothing(once, account_id, folder_id, items, 0, second_time);
}

/// Taking items in keeps the messages in order.
pub proof fn lemma_messages_stay_in_order(
    c: CacheModel,
    account_id: i64,
    folder_id: i64,
    items: Seq<FetchedItemModel>,
    from: int,
    now: i64,
)
    requires
        c.messages.wf(),
        0 <= from <= items.len(),
    ensures
        ingest_items(c, account_id, folder_id, items, from, now).messages.wf(),
    decreases items.len() - from,
{
    if from < items.len() {
        let next = ingest_item(c, account_id, folder_id, items[from], now).0;
        match readable(items[from]) {
            None => {},
            Some(p) => {
                lemma_ingest_messages(
                    c,
                    account_id,
                    folder_id,
                    uid_of(items[from]),
                    p,
                    now,
                    account_id,
                    folder_id,
                    uid_of(items[from]),
                );
            },
        }
        lemma_messages_stay_in_order(next, account_id, folder_id, items, from + 1, now);
    }
}

} // verus!
