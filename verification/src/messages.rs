//! The table of messages and the text index that mirrors it.

use crate::error::{DEmailError, ErrorKind, ErrorModel};
use crate::models::{
    attachment_models, opt_text, Message, MessageHeader, MessageHeaderModel, MessageModel,
};
use crate::ranking::{
    arrange, arranged, indices, key_models, keys_of, lemma_arranged_whole, selected, SortKey,
    SortKeyModel,
};
use crate::table::{
    lemma_retained, lemma_retained_empty, lemma_retained_push, next_after, next_identifier,
    retained, valid_ids,
};
use crate::text::{
    chars_of, contains, contains_text, lemma_part_is_contained, lemma_words_are_parts, lowercase,
    lowercase_of, string_of, texts, words, words_of,
};
use vstd::prelude::*;
use vstd::string::StringExecFns;

verus! {

/// What `ammonia::clean` returns for the HTML text.
pub uninterp spec fn sanitized_html(html: Seq<char>) -> Seq<char>;

/// `ammonia::clean`: the HTML without what could act (scripts, styles,
/// handlers, unknown tags and attributes), by the crate's default rules.
/// The result is a function of the text.
#[verifier::external_body]
fn clean_html(html: &str) -> (r: String)
    ensures
        r@ == sanitized_html(html@),
{
    ammonia::clean(html)
}

/// The HTML body as it is stored: sanitized.
pub open spec fn stored_html(html: Option<Seq<char>>) -> Option<Seq<char>> {
    match html {
        Some(h) => Some(sanitized_html(h)),
        None => None,
    }
}

/// The HTML body of a message as it is stored.
pub fn sanitize_html(html: &Option<String>) -> (r: Option<String>)
    ensures
        opt_text(r) == stored_html(opt_text(*html)),
{
    match html {
        Some(h) => Some(clean_html(h.as_str())),
        None => None,
    }
}

/// The row that saving `m` stores under the identifier `id`: the message
/// with its HTML body sanitized, without a star or a thread, its attachments
/// left to their own table.
pub open spec fn stored_form(m: MessageModel, id: i64) -> MessageModel {
    MessageModel {
        id,
        body_html: stored_html(m.body_html),
        is_starred: false,
        thread_id: None,
        attachments: Seq::empty(),
        ..m
    }
}

/// What the text index holds of a message.
pub struct IndexEntry {
    pub rowid: i64,
    pub subject: String,
    pub from_header: String,
    pub to_header: String,
    pub body_plain: Option<String>,
}

/// The model of an [`IndexEntry`].
pub struct IndexEntryModel {
    pub rowid: i64,
    pub subject: Seq<char>,
    pub from_header: Seq<char>,
    pub to_header: Seq<char>,
    pub body_plain: Option<Seq<char>>,
}

impl View for IndexEntry {
    type V = IndexEntryModel;

    open spec fn view(&self) -> IndexEntryModel {
        IndexEntryModel {
            rowid: self.rowid,
            subject: self.subject@,
            from_header: self.from_header@,
            to_header: self.to_header@,
            body_plain: opt_text(self.body_plain),
        }
    }
}

/// The index entry that mirrors a message.
pub open spec fn entry_of(m: MessageModel) -> IndexEntryModel {
    IndexEntryModel {
        rowid: m.id,
        subject: m.subject,
        from_header: m.from_header,
        to_header: m.to_header,
        body_plain: m.body_plain,
    }
}

/// Whether two messages differ in what the server knows them by: the
/// account, the folder or the UID.
pub open spec fn keys_differ(a: MessageModel, b: MessageModel) -> bool {
    a.account_id != b.account_id || a.folder_id != b.folder_id || a.imap_uid != b.imap_uid
}

/// What a message list shows of a message.
pub open spec fn header_of(m: MessageModel) -> MessageHeaderModel {
    MessageHeaderModel {
        id: m.id,
        subject: m.subject,
        from: m.from_header,
        date: m.date,
        is_read: m.is_read,
        has_attachments: m.has_attachments,
        is_starred: m.is_starred,
    }
}

/// Whether `column` holds `word`, as written or with both in lower case.
pub open spec fn column_matches(column: Seq<char>, word: Seq<char>) -> bool {
    contains_text(column, word) || contains_text(lowercase_of(column), lowercase_of(word))
}

/// Whether an index entry holds `word`: in its subject, its sender, its
/// recipients or its plain body.
pub open spec fn entry_holds(e: IndexEntryModel, word: Seq<char>) -> bool {
    ||| column_matches(e.subject, word)
    ||| column_matches(e.from_header, word)
    ||| column_matches(e.to_header, word)
    ||| (e.body_plain matches Some(b) && column_matches(b, word))
}

/// Whether an index entry answers `query`: the query has a word, and the
/// entry holds each word of the query, each in whichever column.
pub open spec fn entry_matches(e: IndexEntryModel, query: Seq<char>) -> bool {
    words(query).len() > 0 && forall|k: int|
        0 <= k < words(query).len() ==> entry_holds(e, #[trigger] words(query)[k])
}

/// The messages of a folder.
pub open spec fn in_folder(folder_id: i64) -> spec_fn(MessageModel) -> bool {
    |m: MessageModel| m.folder_id == folder_id
}

/// The starred messages of an account.
pub open spec fn starred_in(account_id: i64) -> spec_fn(MessageModel) -> bool {
    |m: MessageModel| m.account_id == account_id && m.is_starred
}

/// The messages of a thread.
pub open spec fn in_thread(thread_id: i64) -> spec_fn(MessageModel) -> bool {
    |m: MessageModel| m.thread_id == Some(thread_id)
}

/// The messages of an account whose index entry answers `query`.
pub open spec fn answering(account_id: i64, query: Seq<char>) -> spec_fn(MessageModel) -> bool {
    |m: MessageModel| m.account_id == account_id && entry_matches(entry_of(m), query)
}

/// Newest first.
pub open spec fn newest_first() -> spec_fn(MessageModel) -> SortKeyModel {
    |m: MessageModel| SortKeyModel { major: m.date, minor: 0, text: Seq::empty() }
}

/// Oldest first.
pub open spec fn oldest_first() -> spec_fn(MessageModel) -> SortKeyModel {
    |m: MessageModel| SortKeyModel { major: (-1 - m.date) as i64, minor: 0, text: Seq::empty() }
}

/// The messages of all accounts, as rows in the order in which they were
/// first saved, the text index, and the identifier that the next new
/// message gets.
pub struct MessageTableModel {
    pub rows: Seq<MessageModel>,
    pub index: Seq<IndexEntryModel>,
    pub next_id: int,
}

impl MessageTableModel {
    /// Whether row `i` is the message that the server knows by the account,
    /// the folder and `uid`.
    pub open spec fn holds_key(self, i: int, account_id: i64, folder_id: i64, uid: u32) -> bool {
        0 <= i < self.rows.len() && self.rows[i].account_id == account_id && self.rows[i].folder_id
            == folder_id && self.rows[i].imap_uid == uid
    }

    /// Whether row `i` is the message with identifier `id`.
    pub open spec fn holds_id(self, i: int, id: i64) -> bool {
        0 <= i < self.rows.len() && self.rows[i].id == id
    }

    /// The text index mirrors the rows: entry `i` is that of row `i`.
    pub open spec fn mirrored(self) -> bool {
        &&& self.index.len() == self.rows.len()
        &&& forall|i: int| 0 <= i < self.rows.len() ==> #[trigger] self.index[i] == entry_of(self.rows[i])
    }

    /// Identifiers start at 1, lie below `next_id` and occur once; no two
    /// rows have the same account, folder and UID; the rows hold no
    /// attachments; the index mirrors the rows.
    pub open spec fn wf(self) -> bool {
        &&& 1 <= self.next_id <= i64::MAX
        &&& forall|i: int|
            0 <= i < self.rows.len() ==> 1 <= (#[trigger] self.rows[i]).id < self.next_id
                && self.rows[i].attachments.len() == 0
        &&& forall|i: int, j: int|
            0 <= i < self.rows.len() && 0 <= j < self.rows.len() && i != j ==> (
            #[trigger] self.rows[i]).id != (#[trigger] self.rows[j]).id
        &&& forall|i: int, j: int|
            0 <= i < self.rows.len() && 0 <= j < self.rows.len() && i != j ==> keys_differ(
                #[trigger] self.rows[i],
                #[trigger] self.rows[j],
            )
        &&& self.mirrored()
    }

    /// The index of the message with the given account, folder and UID.
    pub open spec fn find_key(self, account_id: i64, folder_id: i64, uid: u32) -> Option<int> {
        if exists|i: int| self.holds_key(i, account_id, folder_id, uid) {
            Some(choose|i: int| self.holds_key(i, account_id, folder_id, uid))
        } else {
            None
        }
    }

    /// The index of the message with identifier `id`.
    pub open spec fn find_id(self, id: i64) -> Option<int> {
        if exists|i: int| self.holds_id(i, id) {
            Some(choose|i: int| self.holds_id(i, id))
        } else {
            None
        }
    }

    /// The message with identifier `id`.
    pub open spec fn get(self, id: i64) -> Option<MessageModel> {
        match self.find_id(id) {
            Some(i) => Some(self.rows[i]),
            None => None,
        }
    }

    /// The table after `m` was saved, and the identifier of its row. A
    /// message whose account, folder and UID the table knows replaces that
    /// row and keeps its identifier; any other is added under the next
    /// identifier. `None`, and no change, where a row is to be added and no
    /// identifier is left.
    pub open spec fn upsert(self, m: MessageModel) -> (MessageTableModel, Option<i64>) {
        match self.find_key(m.account_id, m.folder_id, m.imap_uid) {
            Some(i) => {
                let row = stored_form(m, self.rows[i].id);
                (
                    MessageTableModel {
                        rows: self.rows.update(i, row),
                        index: self.index.update(i, entry_of(row)),
                        ..self
                    },
                    Some(self.rows[i].id),
                )
            },
            None => if self.next_id < i64::MAX {
                let row = stored_form(m, self.next_id as i64);
                (
                    MessageTableModel {
                        rows: self.rows.push(row),
                        index: self.index.push(entry_of(row)),
                        next_id: self.next_id + 1,
                    },
                    Some(self.next_id as i64),
                )
            } else {
                (self, None)
            },
        }
    }

    /// The table after the messages of `batch` from index `from` on were
    /// saved in order, up to the first that could not be.
    pub open spec fn upsert_all(self, batch: Seq<MessageModel>, from: int) -> (MessageTableModel, bool)
        decreases batch.len() - from,
    {
        if from < 0 || from >= batch.len() {
            (self, true)
        } else {
            let (next, id) = self.upsert(batch[from]);
            if id is Some {
                next.upsert_all(batch, from + 1)
            } else {
                (next, false)
            }
        }
    }

    /// The table without the message with identifier `id`, and without its
    /// index entry.
    pub open spec fn remove(self, id: i64) -> MessageTableModel {
        match self.find_id(id) {
            Some(i) => MessageTableModel {
                rows: self.rows.remove(i),
                index: self.index.remove(i),
                ..self
            },
            None => self,
        }
    }

    /// The table without the messages whose identifiers are among `ids`
    /// from index `from` on.
    pub open spec fn remove_all(self, ids: Seq<i64>, from: int) -> MessageTableModel
        decreases ids.len() - from,
    {
        if from < 0 || from >= ids.len() {
            self
        } else {
            self.remove(ids[from]).remove_all(ids, from + 1)
        }
    }

    /// The table with the rows whose identifier is among `ids` marked as
    /// read, or as unread.
    pub open spec fn mark_read(self, ids: Seq<i64>, read: bool) -> MessageTableModel {
        MessageTableModel {
            rows: Seq::new(
                self.rows.len(),
                |i: int|
                    if ids.contains(self.rows[i].id) {
                        MessageModel { is_read: read, ..self.rows[i] }
                    } else {
                        self.rows[i]
                    },
            ),
            ..self
        }
    }

    /// The table with the rows whose identifier is among `ids` starred, or
    /// not starred.
    pub open spec fn mark_starred(self, ids: Seq<i64>, starred: bool) -> MessageTableModel {
        MessageTableModel {
            rows: Seq::new(
                self.rows.len(),
                |i: int|
                    if ids.contains(self.rows[i].id) {
                        MessageModel { is_starred: starred, ..self.rows[i] }
                    } else {
                        self.rows[i]
                    },
            ),
            ..self
        }
    }

    /// The table with the message `id` linked to the thread `thread_id`.
    pub open spec fn link_thread(self, id: i64, thread_id: i64) -> MessageTableModel {
        MessageTableModel {
            rows: Seq::new(
                self.rows.len(),
                |i: int|
                    if self.rows[i].id == id {
                        MessageModel { thread_id: Some(thread_id), ..self.rows[i] }
                    } else {
                        self.rows[i]
                    },
            ),
            ..self
        }
    }

    /// Whether the message `id` can go to the folder `folder_id`: no other
    /// message of its account has its UID there.
    pub open spec fn can_move(self, id: i64, folder_id: i64) -> bool {
        match self.find_id(id) {
            Some(i) => forall|j: int|
                0 <= j < self.rows.len() && j != i ==> !self.holds_key(
                    j,
                    self.rows[i].account_id,
                    folder_id,
                    self.rows[i].imap_uid,
                ),
            None => true,
        }
    }

    /// The table with the message `id` in the folder `folder_id`.
    pub open spec fn move_to(self, id: i64, folder_id: i64) -> MessageTableModel {
        MessageTableModel {
            rows: Seq::new(
                self.rows.len(),
                |i: int|
                    if self.rows[i].id == id {
                        MessageModel { folder_id, ..self.rows[i] }
                    } else {
                        self.rows[i]
                    },
            ),
            ..self
        }
    }

    /// What a query shows: the headers of the rows that `keep` holds of,
    /// ranked by `key`, of which the page with `limit` and `offset` is
    /// taken.
    pub open spec fn listing(
        self,
        keep: spec_fn(MessageModel) -> bool,
        key: spec_fn(MessageModel) -> SortKeyModel,
        limit: int,
        offset: int,
    ) -> Seq<MessageHeaderModel> {
        arranged(self.rows, keep, key, limit, offset).map_values(|i: int| header_of(self.rows[i]))
    }

    /// The rows that a query shows, in full.
    pub open spec fn records(
        self,
        keep: spec_fn(MessageModel) -> bool,
        key: spec_fn(MessageModel) -> SortKeyModel,
    ) -> Seq<MessageModel> {
        arranged(self.rows, keep, key, -1, 0).map_values(|i: int| self.rows[i])
    }

    /// The number of messages in a folder.
    pub open spec fn count_in_folder(self, folder_id: i64) -> nat {
        selected(self.rows, in_folder(folder_id)).len()
    }
}

/// Saving keeps the table well formed.
pub proof fn lemma_upsert_wf(t: MessageTableModel, m: MessageModel)
    requires
        t.wf(),
    ensures
        t.upsert(m).0.wf(),
{
    let after = t.upsert(m).0;
    match t.find_key(m.account_id, m.folder_id, m.imap_uid) {
        Some(i) => {
            assert(t.holds_key(i, m.account_id, m.folder_id, m.imap_uid));
            assert forall|a: int, b: int|
                0 <= a < after.rows.len() && 0 <= b < after.rows.len() && a != b implies keys_differ(
                #[trigger] after.rows[a],
                #[trigger] after.rows[b],
            ) by {
                assert(keys_differ(t.rows[a], t.rows[b]));
            }
            assert forall|a: int, b: int|
                0 <= a < after.rows.len() && 0 <= b < after.rows.len() && a != b implies (
                #[trigger] after.rows[a]).id != (#[trigger] after.rows[b]).id by {
                assert(after.rows[a].id == t.rows[a].id);
                assert(after.rows[b].id == t.rows[b].id);
            }
            assert forall|a: int| 0 <= a < after.rows.len() implies 1 <= (
            #[trigger] after.rows[a]).id < after.next_id && after.rows[a].attachments.len() == 0 by {
                assert(after.rows[a].id == t.rows[a].id);
            }
            assert forall|a: int| 0 <= a < after.rows.len() implies #[trigger] after.index[a]
                == entry_of(after.rows[a]) by {
                if a != i {
                    assert(after.index[a] == t.index[a]);
                }
            }
        },
        None => {
            if t.next_id < i64::MAX {
                assert forall|a: int, b: int|
                    0 <= a < after.rows.len() && 0 <= b < after.rows.len() && a != b implies keys_differ(
                    #[trigger] after.rows[a],
                    #[trigger] after.rows[b],
                ) by {
                    if a < t.rows.len() && b < t.rows.len() {
                        assert(keys_differ(t.rows[a], t.rows[b]));
                    } else if a < t.rows.len() {
                        assert(!t.holds_key(a, m.account_id, m.folder_id, m.imap_uid));
                    } else {
                        assert(!t.holds_key(b, m.account_id, m.folder_id, m.imap_uid));
                    }
                }
                assert forall|a: int, b: int|
                    0 <= a < after.rows.len() && 0 <= b < after.rows.len() && a != b implies (
                    #[trigger] after.rows[a]).id != (#[trigger] after.rows[b]).id by {
                    if a < t.rows.len() {
                        assert(after.rows[a] == t.rows[a]);
                    }
                    if b < t.rows.len() {
                        assert(after.rows[b] == t.rows[b]);
                    }
                }
                assert forall|a: int| 0 <= a < after.rows.len() implies 1 <= (
                #[trigger] after.rows[a]).id < after.next_id && after.rows[a].attachments.len()
                    == 0 by {
                    if a < t.rows.len() {
                        assert(after.rows[a] == t.rows[a]);
                    }
                }
                assert forall|a: int| 0 <= a < after.rows.len() implies #[trigger] after.index[a]
                    == entry_of(after.rows[a]) by {
                    if a < t.rows.len() {
                        assert(after.index[a] == t.index[a]);
                    }
                }
            }
        },
    }
}

/// After a message was saved, the table holds it under its account, folder
/// and UID, in its stored form.
pub proof fn lemma_upsert_holds(t: MessageTableModel, m: MessageModel)
    requires
        t.wf(),
        t.upsert(m).1 is Some,
    ensures
        ({
            let (after, id) = t.upsert(m);
            &&& after.find_key(m.account_id, m.folder_id, m.imap_uid) is Some
            &&& after.find_id(id.unwrap()) == after.find_key(m.account_id, m.folder_id, m.imap_uid)
            &&& after.get(id.unwrap()) == Some(stored_form(m, id.unwrap()))
        }),
{
    let (after, id) = t.upsert(m);
    lemma_upsert_wf(t, m);
    let at: int = match t.find_key(m.account_id, m.folder_id, m.imap_uid) {
        Some(i) => i,
        None => t.rows.len() as int,
    };
    if t.find_key(m.account_id, m.folder_id, m.imap_uid) is Some {
        assert(t.holds_key(at, m.account_id, m.folder_id, m.imap_uid));
    }
    assert(after.holds_key(at, m.account_id, m.folder_id, m.imap_uid));
    let k = after.find_key(m.account_id, m.folder_id, m.imap_uid).unwrap();
    assert(after.holds_key(k, m.account_id, m.folder_id, m.imap_uid));
    if k != at {
        assert(keys_differ(after.rows[k], after.rows[at]));
    }
    assert(after.holds_id(at, id.unwrap()));
    let n = after.find_id(id.unwrap()).unwrap();
    assert(after.holds_id(n, id.unwrap()));
    assert(n == at);
}

/// Saving a message again changes nothing: the table after the second time
/// is the table after the first, and the identifier is the same.
pub proof fn law_upsert_idempotent(t: MessageTableModel, m: MessageModel)
    requires
        t.wf(),
        t.upsert(m).1 is Some,
    ensures
        t.upsert(m).0.upsert(m) == t.upsert(m),
{
    let (once, id) = t.upsert(m);
    lemma_upsert_holds(t, m);
    let at = once.find_key(m.account_id, m.folder_id, m.imap_uid).unwrap();
    assert(once.holds_key(at, m.account_id, m.folder_id, m.imap_uid));
    let twice = once.upsert(m).0;
    lemma_upsert_wf(t, m);
    assert(once.rows[at] == stored_form(m, id.unwrap()));
    assert(twice.rows =~= once.rows);
    assert(twice.index =~= once.index);
}

/// Saving a message that the table knows by its account, folder and UID
/// adds no row; saving one that it does not know adds one.
pub proof fn law_upsert_adds_no_duplicate(t: MessageTableModel, m: MessageModel)
    requires
        t.wf(),
    ensures
        t.find_key(m.account_id, m.folder_id, m.imap_uid) is Some ==> t.upsert(m).0.rows.len()
            == t.rows.len(),
        t.upsert(m).0.rows.len() <= t.rows.len() + 1,
        t.upsert(m).0.wf(),
{
    lemma_upsert_wf(t, m);
}

/// Saving keeps every key that the table holds.
pub proof fn lemma_upsert_keeps_keys(
    t: MessageTableModel,
    m: MessageModel,
    account_id: i64,
    folder_id: i64,
    uid: u32,
)
    requires
        t.wf(),
        t.find_key(account_id, folder_id, uid) is Some,
    ensures
        t.upsert(m).0.find_key(account_id, folder_id, uid) is Some,
{
    let i = t.find_key(account_id, folder_id, uid).unwrap();
    assert(t.holds_key(i, account_id, folder_id, uid));
    let after = t.upsert(m).0;
    match t.find_key(m.account_id, m.folder_id, m.imap_uid) {
        Some(k) => {
            assert(t.holds_key(k, m.account_id, m.folder_id, m.imap_uid));
            assert(after.holds_key(i, account_id, folder_id, uid));
        },
        None => {
            assert(after.holds_key(i, account_id, folder_id, uid));
        },
    }
}

/// Whether the table knows every message of `batch` from index `from` on by
/// its account, folder and UID.
pub open spec fn knows_all(t: MessageTableModel, batch: Seq<MessageModel>, from: int) -> bool {
    forall|k: int|
        from <= k < batch.len() ==> t.find_key(
            (#[trigger] batch[k]).account_id,
            batch[k].folder_id,
            batch[k].imap_uid,
        ) is Some
}

/// Saving a batch of which the table knows every message adds no row.
proof fn lemma_known_batch_adds_nothing(t: MessageTableModel, batch: Seq<MessageModel>, from: int)
    requires
        t.wf(),
        0 <= from <= batch.len(),
        knows_all(t, batch, from),
    ensures
        t.upsert_all(batch, from).1,
        t.upsert_all(batch, from).0.rows.len() == t.rows.len(),
        t.upsert_all(batch, from).0.wf(),
    decreases batch.len() - from,
{
    if from < batch.len() {
        let next = t.upsert(batch[from]).0;
        lemma_upsert_wf(t, batch[from]);
        assert forall|k: int| from + 1 <= k < batch.len() implies next.find_key(
            (#[trigger] batch[k]).account_id,
            batch[k].folder_id,
            batch[k].imap_uid,
        ) is Some by {
            lemma_upsert_keeps_keys(
                t,
                batch[from],
                batch[k].account_id,
                batch[k].folder_id,
                batch[k].imap_uid,
            );
        }
        lemma_known_batch_adds_nothing(next, batch, from + 1);
    }
}

/// After a batch was saved, the table knows each of its messages.
proof fn lemma_saved_batch_is_known(
    t: MessageTableModel,
    batch: Seq<MessageModel>,
    from: int,
    k: int,
)
    requires
        t.wf(),
        0 <= from <= batch.len(),
        t.upsert_all(batch, from).1,
        0 <= k < batch.len(),
        k >= from || t.find_key(batch[k].account_id, batch[k].folder_id, batch[k].imap_uid) is Some,
    ensures
        t.upsert_all(batch, from).0.find_key(
            batch[k].account_id,
            batch[k].folder_id,
            batch[k].imap_uid,
        ) is Some,
        t.upsert_all(batch, from).0.wf(),
    decreases batch.len() - from,
{
    if from < batch.len() {
        let next = t.upsert(batch[from]).0;
        lemma_upsert_wf(t, batch[from]);
        if k == from {
            lemma_upsert_holds(t, batch[from]);
        } else if k < from {
            lemma_upsert_keeps_keys(
                t,
                batch[from],
                batch[k].account_id,
                batch[k].folder_id,
                batch[k].imap_uid,
            );
        }
        lemma_saved_batch_is_known(next, batch, from + 1, k);
    }
}

/// Synchronizing the same state of a mailbox twice makes no duplicate: when
/// a batch that was saved is saved again, every message is saved and the
/// table has as many rows as after the first time.
pub proof fn law_resync_adds_no_rows(t: MessageTableModel, batch: Seq<MessageModel>)
    requires
        t.wf(),
        t.upsert_all(batch, 0).1,
    ensures
        ({
            let once = t.upsert_all(batch, 0).0;
            let (twice, saved) = once.upsert_all(batch, 0);
            &&& saved
            &&& twice.rows.len() == once.rows.len()
            &&& twice.wf()
        }),
{
    let once = t.upsert_all(batch, 0).0;
    assert forall|k: int| 0 <= k < batch.len() implies once.find_key(
        (#[trigger] batch[k]).account_id,
        batch[k].folder_id,
        batch[k].imap_uid,
    ) is Some by {
        lemma_saved_batch_is_known(t, batch, 0, k);
    }
    if batch.len() > 0 {
        lemma_saved_batch_is_known(t, batch, 0, 0);
    } else {
        assert(once == t);
    }
    lemma_known_batch_adds_nothing(once, batch, 0);
}

/// Removing keeps the table well formed.
pub proof fn lemma_remove_wf(t: MessageTableModel, id: i64)
    requires
        t.wf(),
    ensures
        t.remove(id).wf(),
        t.remove(id).find_id(id) is None,
{
    let after = t.remove(id);
    match t.find_id(id) {
        Some(i) => {
            assert(t.holds_id(i, id));
            assert forall|a: int| 0 <= a < after.rows.len() implies after.rows[a] == t.rows[if a < i {
                a
            } else {
                a + 1
            }] && after.index[a] == t.index[if a < i {
                a
            } else {
                a + 1
            }] by {}
            assert forall|a: int, b: int|
                0 <= a < after.rows.len() && 0 <= b < after.rows.len() && a != b implies keys_differ(
                #[trigger] after.rows[a],
                #[trigger] after.rows[b],
            ) by {
                let x = if a < i { a } else { a + 1 };
                let y = if b < i { b } else { b + 1 };
                assert(keys_differ(t.rows[x], t.rows[y]));
            }
            assert forall|a: int, b: int|
                0 <= a < after.rows.len() && 0 <= b < after.rows.len() && a != b implies (
                #[trigger] after.rows[a]).id != (#[trigger] after.rows[b]).id by {
                let x = if a < i { a } else { a + 1 };
                let y = if b < i { b } else { b + 1 };
                assert(t.rows[x].id != t.rows[y].id);
            }
            assert forall|a: int| 0 <= a < after.rows.len() implies 1 <= (
            #[trigger] after.rows[a]).id < after.next_id && after.rows[a].attachments.len() == 0 by {
                let x = if a < i { a } else { a + 1 };
                assert(1 <= t.rows[x].id < t.next_id);
            }
            assert forall|a: int| 0 <= a < after.rows.len() implies #[trigger] after.index[a]
                == entry_of(after.rows[a]) by {
                let x = if a < i { a } else { a + 1 };
                assert(t.index[x] == entry_of(t.rows[x]));
            }
            if after.find_id(id) is Some {
                let k = after.find_id(id).unwrap();
                assert(after.holds_id(k, id));
                let x = if k < i { k } else { k + 1 };
                assert(t.rows[x].id == t.rows[i].id);
            }
        },
        None => {},
    }
}

/// A message whose plain body holds a token is found by a search of its
/// account for that token once it is saved. A token is a text with a word
/// in it.
pub proof fn law_saved_message_is_found(t: MessageTableModel, m: MessageModel, token: Seq<char>)
    requires
        t.wf(),
        t.upsert(m).1 is Some,
        m.body_plain matches Some(body) && contains_text(body, token),
        words(token).len() > 0,
    ensures
        ({
            let (after, id) = t.upsert(m);
            exists|k: int|
                0 <= k < after.listing(answering(m.account_id, token), newest_first(), -1, 0).len()
                    && (#[trigger] after.listing(
                    answering(m.account_id, token),
                    newest_first(),
                    -1,
                    0,
                )[k]).id == id.unwrap()
        }),
{
    let (after, id) = t.upsert(m);
    lemma_upsert_holds(t, m);
    let at = after.find_id(id.unwrap()).unwrap();
    assert(after.holds_id(at, id.unwrap()));
    let keep = answering(m.account_id, token);
    let shown = arranged(after.rows, keep, newest_first(), -1, 0);
    lemma_arranged_whole(after.rows, keep, newest_first());
    assert(after.rows[at] == stored_form(m, id.unwrap()));
    lemma_words_are_parts(token);
    assert forall|w: int| 0 <= w < words(token).len() implies entry_holds(
        entry_of(after.rows[at]),
        #[trigger] words(token)[w],
    ) by {
        lemma_part_is_contained(m.body_plain.unwrap(), token, words(token)[w]);
    }
    assert(entry_matches(entry_of(after.rows[at]), token));
    assert(keep(after.rows[at]));
    assert(shown.contains(at));
    let k = choose|k: int| 0 <= k < shown.len() && shown[k] == at;
    assert(after.listing(keep, newest_first(), -1, 0)[k] == header_of(after.rows[shown[k]]));
}

/// A message that was deleted is found by no search.
pub proof fn law_deleted_message_is_not_found(
    t: MessageTableModel,
    id: i64,
    account_id: i64,
    query: Seq<char>,
)
    requires
        t.wf(),
    ensures
        forall|k: int|
            0 <= k < t.remove(id).listing(answering(account_id, query), newest_first(), -1, 0).len()
                ==> (#[trigger] t.remove(id).listing(
                answering(account_id, query),
                newest_first(),
                -1,
                0,
            )[k]).id != id,
{
    let after = t.remove(id);
    lemma_remove_wf(t, id);
    let keep = answering(account_id, query);
    let shown = arranged(after.rows, keep, newest_first(), -1, 0);
    lemma_arranged_whole(after.rows, keep, newest_first());
    assert forall|k: int| 0 <= k < after.listing(keep, newest_first(), -1, 0).len() implies (
    #[trigger] after.listing(keep, newest_first(), -1, 0)[k]).id != id by {
        let i = shown[k];
        assert(0 <= i < after.rows.len());
        if after.rows[i].id == id {
            assert(after.holds_id(i, id));
        }
    }
}

/// The models of the messages that a vector holds.
pub open spec fn message_models(v: Seq<Message>) -> Seq<MessageModel> {
    v.map_values(|m: Message| m@)
}

/// The models of the headers that a vector holds.
pub open spec fn header_models(v: Seq<MessageHeader>) -> Seq<MessageHeaderModel> {
    v.map_values(|h: MessageHeader| h@)
}

/// The models of the index entries that a vector holds.
pub open spec fn entry_models(v: Seq<IndexEntry>) -> Seq<IndexEntryModel> {
    v.map_values(|e: IndexEntry| e@)
}

/// Which messages a query shows.
pub enum MessageFilter {
    /// The messages of a folder.
    InFolder(i64),
    /// The starred messages of an account.
    StarredIn(i64),
    /// The messages of a thread.
    InThread(i64),
    /// The messages of an account that answer a query: the account, the
    /// query, its words, and each word in lower case.
    Answering(i64, Vec<char>, Vec<Vec<char>>, Vec<Vec<char>>),
}

/// In which order a query shows its messages.
#[derive(Clone, Copy, Debug)]
pub enum MessageOrder {
    NewestFirst,
    OldestFirst,
}

impl MessageFilter {
    /// The words that a search carries are those of its query, each with its
    /// lower-case form.
    pub open spec fn wf(&self) -> bool {
        match self {
            MessageFilter::Answering(_, query, parts, lowered) => {
                &&& texts(parts@) == words(query@)
                &&& lowered.len() == parts.len()
                &&& forall|k: int|
                    0 <= k < parts.len() ==> (#[trigger] lowered@[k])@ == lowercase_of(parts@[k]@)
            },
            _ => true,
        }
    }

    /// The rows that the filter lets through.
    pub open spec fn keeps(&self) -> spec_fn(MessageModel) -> bool {
        match self {
            MessageFilter::InFolder(folder_id) => in_folder(*folder_id),
            MessageFilter::StarredIn(account_id) => starred_in(*account_id),
            MessageFilter::InThread(thread_id) => in_thread(*thread_id),
            MessageFilter::Answering(account_id, query, _, _) => answering(*account_id, query@),
        }
    }

    /// The filter of a search of `account_id` for `query`.
    pub fn search(account_id: i64, query: &str) -> (f: MessageFilter)
        ensures
            f.wf(),
            f.keeps() == answering(account_id, query@),
    {
        let text = chars_of(query);
        let parts = words_of(&text);
        let mut lowered: Vec<Vec<char>> = Vec::new();
        let mut i: usize = 0;
        while i < parts.len()
            invariant
                i <= parts.len(),
                lowered.len() == i,
                forall|k: int| 0 <= k < i ==> (#[trigger] lowered@[k])@ == lowercase_of(parts@[k]@),
            decreases parts.len() - i,
        {
            let word = string_of(&parts[i]);
            lowered.push(chars_of(lowercase(word.as_str()).as_str()));
            i += 1;
        }
        MessageFilter::Answering(account_id, text, parts, lowered)
    }

    fn lets_through(&self, row: &Message, entry: &IndexEntry) -> (r: bool)
        requires
            self.wf(),
            entry@ == entry_of(row@),
        ensures
            r == (self.keeps())(row@),
    {
        match self {
            MessageFilter::InFolder(folder_id) => row.folder_id == *folder_id,
            MessageFilter::StarredIn(account_id) => row.account_id == *account_id && row.is_starred,
            MessageFilter::InThread(thread_id) => match row.thread_id {
                Some(t) => t == *thread_id,
                None => false,
            },
            MessageFilter::Answering(account_id, _, parts, lowered) => {
                row.account_id == *account_id && entry_answers(entry, parts, lowered)
            },
        }
    }
}

impl MessageOrder {
    /// The key by which the order ranks a row.
    pub open spec fn key(&self) -> spec_fn(MessageModel) -> SortKeyModel {
        match self {
            MessageOrder::NewestFirst => newest_first(),
            MessageOrder::OldestFirst => oldest_first(),
        }
    }

    fn key_of(&self, row: &Message) -> (k: SortKey)
        ensures
            k@ == (self.key())(row@),
    {
        match self {
            MessageOrder::NewestFirst => SortKey { major: row.date, minor: 0, text: Vec::new() },
            MessageOrder::OldestFirst => SortKey {
                major: -1 - row.date,
                minor: 0,
                text: Vec::new(),
            },
        }
    }
}

/// Whether a column, given as written and in lower case, holds a word,
/// given as written and in lower case.
fn column_answers(column: &Vec<char>, low_column: &Vec<char>, word: &Vec<char>, low_word: &Vec<char>) -> (r:
    bool)
    ensures
        r == (contains_text(column@, word@) || contains_text(low_column@, low_word@)),
{
    contains(column, word) || contains(low_column, low_word)
}

/// Whether an index entry holds each of the words, of which there is at
/// least one.
fn entry_answers(entry: &IndexEntry, parts: &Vec<Vec<char>>, lowered: &Vec<Vec<char>>) -> (r: bool)
    requires
        lowered.len() == parts.len(),
        forall|k: int| 0 <= k < parts.len() ==> (#[trigger] lowered@[k])@ == lowercase_of(parts@[k]@),
    ensures
        r == (parts.len() > 0 && forall|k: int|
            0 <= k < parts.len() ==> entry_holds(entry@, #[trigger] texts(parts@)[k])),
{
    if parts.len() == 0 {
        return false;
    }
    let subject = chars_of(entry.subject.as_str());
    let from = chars_of(entry.from_header.as_str());
    let to = chars_of(entry.to_header.as_str());
    let low_subject = chars_of(lowercase(entry.subject.as_str()).as_str());
    let low_from = chars_of(lowercase(entry.from_header.as_str()).as_str());
    let low_to = chars_of(lowercase(entry.to_header.as_str()).as_str());
    let body: Option<(Vec<char>, Vec<char>)> = match &entry.body_plain {
        Some(b) => Some((chars_of(b.as_str()), chars_of(lowercase(b.as_str()).as_str()))),
        None => None,
    };
    let mut i: usize = 0;
    while i < parts.len()
        invariant
            i <= parts.len(),
            lowered.len() == parts.len(),
            forall|k: int|
                0 <= k < parts.len() ==> (#[trigger] lowered@[k])@ == lowercase_of(parts@[k]@),
            subject@ == entry@.subject,
            from@ == entry@.from_header,
            to@ == entry@.to_header,
            low_subject@ == lowercase_of(entry@.subject),
            low_from@ == lowercase_of(entry@.from_header),
            low_to@ == lowercase_of(entry@.to_header),
            match body {
                Some((b, low)) => entry@.body_plain == Some(b@) && low@ == lowercase_of(b@),
                None => entry@.body_plain is None,
            },
            forall|k: int| 0 <= k < i ==> entry_holds(entry@, #[trigger] texts(parts@)[k]),
        decreases parts.len() - i,
    {
        let word = &parts[i];
        let low_word = &lowered[i];
        proof {
            assert(texts(parts@)[i as int] == word@);
        }
        let held = column_answers(&subject, &low_subject, word, low_word) || column_answers(
            &from,
            &low_from,
            word,
            low_word,
        ) || column_answers(&to, &low_to, word, low_word) || match &body {
            Some((b, low)) => column_answers(b, low, word, low_word),
            None => false,
        };
        if !held {
            return false;
        }
        i += 1;
    }
    true
}

/// Whether `id` is among `ids`.
pub fn contains_id(ids: &Vec<i64>, id: i64) -> (r: bool)
    ensures
        r == ids@.contains(id),
{
    let mut i: usize = 0;
    while i < ids.len()
        invariant
            i <= ids.len(),
            forall|j: int| 0 <= j < i ==> ids@[j] != id,
        decreases ids.len() - i,
    {
        if ids[i] == id {
            return true;
        }
        i += 1;
    }
    false
}

fn header_from(m: &Message) -> (h: MessageHeader)
    ensures
        h@ == header_of(m@),
{
    MessageHeader {
        id: m.id,
        subject: m.subject.clone(),
        from: m.from_header.clone(),
        date: m.date,
        is_read: m.is_read,
        has_attachments: m.has_attachments,
        is_starred: m.is_starred,
    }
}

fn entry_from(m: &Message) -> (e: IndexEntry)
    ensures
        e@ == entry_of(m@),
{
    IndexEntry {
        rowid: m.id,
        subject: m.subject.clone(),
        from_header: m.from_header.clone(),
        to_header: m.to_header.clone(),
        body_plain: m.body_plain.clone(),
    }
}

/// The error of a message that cannot be saved because it is new and no
/// identifier is left for it.
pub open spec fn no_identifier_left() -> ErrorModel {
    ErrorModel { kind: ErrorKind::Database, detail: "no message identifier is left"@ }
}

/// The messages of all accounts, with the text index that mirrors them.
pub struct MessageTable {
    rows: Vec<Message>,
    index: Vec<IndexEntry>,
    next_id: i64,
}

impl View for MessageTable {
    type V = MessageTableModel;

    closed spec fn view(&self) -> MessageTableModel {
        MessageTableModel {
            rows: message_models(self.rows@),
            index: entry_models(self.index@),
            next_id: self.next_id as int,
        }
    }
}

impl MessageTable {
    /// Whether the table is well formed, as every table made by [`Self::new`]
    /// and changed by the methods of this type is.
    pub open spec fn wf(&self) -> bool {
        self@.wf()
    }

    /// The empty table.
    pub fn new() -> (t: MessageTable)
        ensures
            t.wf(),
            t@.rows.len() == 0,
            t@.next_id == 1,
    {
        MessageTable { rows: Vec::new(), index: Vec::new(), next_id: 1 }
    }

    /// The number of messages.
    pub fn len(&self) -> (n: usize)
        ensures
            n == self@.rows.len(),
    {
        self.rows.len()
    }

    fn position_of_key(&self, account_id: i64, folder_id: i64, uid: u32) -> (r: Option<usize>)
        requires
            self.wf(),
        ensures
            match r {
                Some(i) => self@.find_key(account_id, folder_id, uid) == Some(i as int) && i
                    < self.rows.len(),
                None => self@.find_key(account_id, folder_id, uid) is None,
            },
    {
        let mut i: usize = 0;
        while i < self.rows.len()
            invariant
                i <= self.rows.len(),
                self.wf(),
                forall|j: int| 0 <= j < i ==> !self@.holds_key(j, account_id, folder_id, uid),
            decreases self.rows.len() - i,
        {
            let row = &self.rows[i];
            if row.account_id == account_id && row.folder_id == folder_id && row.imap_uid == uid {
                proof {
                    assert(self@.holds_key(i as int, account_id, folder_id, uid));
                    let k = choose|k: int| self@.holds_key(k, account_id, folder_id, uid);
                    assert(self@.holds_key(k, account_id, folder_id, uid));
                    if k != i {
                        assert(keys_differ(self@.rows[k], self@.rows[i as int]));
                    }
                }
                return Some(i);
            }
            i += 1;
        }
        None
    }

    fn position_of_id(&self, id: i64) -> (r: Option<usize>)
        requires
            self.wf(),
        ensures
            match r {
                Some(i) => self@.find_id(id) == Some(i as int) && i < self.rows.len(),
                None => self@.find_id(id) is None,
            },
    {
        let mut i: usize = 0;
        while i < self.rows.len()
            invariant
                i <= self.rows.len(),
                self.wf(),
                forall|j: int| 0 <= j < i ==> !self@.holds_id(j, id),
            decreases self.rows.len() - i,
        {
            if self.rows[i].id == id {
                proof {
                    assert(self@.holds_id(i as int, id));
                    let k = choose|k: int| self@.holds_id(k, id);
                    assert(self@.holds_id(k, id));
                    assert(k == i);
                }
                return Some(i);
            }
            i += 1;
        }
        None
    }

    /// Saves a message under its account, folder and UID: a message that the
    /// table knows by them replaces its row, any other is added. Returns
    /// the identifier of the row, or a database error, with the table
    /// unchanged, where a row is to be added and no identifier is left.
    pub fn save(&mut self, message: &Message) -> (r: Result<i64, DEmailError>)
        requires
            old(self).wf(),
        ensures
            final(self).wf(),
            final(self)@ == old(self)@.upsert(message@).0,
            match r {
                Ok(id) => old(self)@.upsert(message@).1 == Some(id),
                Err(e) => old(self)@.upsert(message@).1 is None && e@ == no_identifier_left(),
            },
    {
        proof {
            lemma_upsert_wf(self@, message@);
        }
        let place = self.position_of_key(message.account_id, message.folder_id, message.imap_uid);
        let id: i64 = match place {
            Some(i) => self.rows[i].id,
            None => {
                if self.next_id == i64::MAX {
                    return Err(
                        DEmailError::Database(String::from_str("no message identifier is left")),
                    );
                }
                self.next_id
            },
        };
        let row = Message {
            id,
            account_id: message.account_id,
            folder_id: message.folder_id,
            imap_uid: message.imap_uid,
            message_id_header: message.message_id_header.clone(),
            from_header: message.from_header.clone(),
            to_header: message.to_header.clone(),
            cc_header: message.cc_header.clone(),
            subject: message.subject.clone(),
            date: message.date,
            body_plain: message.body_plain.clone(),
            body_html: sanitize_html(&message.body_html),
            has_attachments: message.has_attachments,
            is_read: message.is_read,
            is_starred: false,
            thread_id: None,
            attachments: Vec::new(),
        };
        proof {
            assert(row.attachments@ =~= Seq::<crate::models::Attachment>::empty());
            assert(attachment_models(row.attachments@) =~= Seq::empty());
            assert(row@ == stored_form(message@, id));
        }
        let entry = entry_from(&row);
        let ghost before = self@;
        match place {
            Some(i) => {
                self.rows.set(i, row);
                self.index.set(i, entry);
                proof {
                    assert(self@.rows =~= before.rows.update(i as int, row@));
                    assert(self@.index =~= before.index.update(i as int, entry@));
                }
            },
            None => {
                self.rows.push(row);
                self.index.push(entry);
                self.next_id = id + 1;
                proof {
                    assert(self@.rows =~= before.rows.push(row@));
                    assert(self@.index =~= before.index.push(entry@));
                }
            },
        }
        Ok(id)
    }

    /// The message with identifier `id`.
    pub fn get(&self, id: i64) -> (r: Option<Message>)
        requires
            self.wf(),
        ensures
            match r {
                Some(m) => self@.get(id) == Some(m@),
                None => self@.get(id) is None,
            },
    {
        match self.position_of_id(id) {
            Some(i) => Some(self.rows[i].clone()),
            None => None,
        }
    }

    /// Deletes the message with identifier `id`, and its index entry.
    pub fn remove(&mut self, id: i64)
        requires
            old(self).wf(),
        ensures
            final(self).wf(),
            final(self)@ == old(self)@.remove(id),
    {
        proof {
            lemma_remove_wf(self@, id);
        }
        match self.position_of_id(id) {
            Some(i) => {
                let ghost before = self@;
                self.rows.remove(i);
                self.index.remove(i);
                proof {
                    assert(self@.rows =~= before.rows.remove(i as int));
                    assert(self@.index =~= before.index.remove(i as int));
                }
            },
            None => {},
        }
    }

    /// Deletes the messages whose identifiers are among `ids`.
    pub fn remove_many(&mut self, ids: &Vec<i64>)
        requires
            old(self).wf(),
        ensures
            final(self).wf(),
            final(self)@ == old(self)@.remove_all(ids@, 0),
    {
        let mut i: usize = 0;
        while i < ids.len()
            invariant
                i <= ids.len(),
                self.wf(),
                old(self)@.remove_all(ids@, 0) == self@.remove_all(ids@, i as int),
            decreases ids.len() - i,
        {
            self.remove(ids[i]);
            i += 1;
        }
    }

    /// Marks the messages whose identifiers are among `ids` as read, or as
    /// unread.
    pub fn mark_read(&mut self, ids: &Vec<i64>, read: bool)
        requires
            old(self).wf(),
        ensures
            final(self).wf(),
            final(self)@ == old(self)@.mark_read(ids@, read),
    {
        let ghost before = self@;
        let mut i: usize = 0;
        while i < self.rows.len()
            invariant
                i <= self.rows.len(),
                before.wf(),
                self@.rows.len() == before.rows.len(),
                self@.index == before.index,
                self@.next_id == before.next_id,
                forall|j: int| 0 <= j < i ==> #[trigger] self@.rows[j] == before.mark_read(ids@, read).rows[j],
                forall|j: int| i <= j < self.rows.len() ==> #[trigger] self@.rows[j] == before.rows[j],
            decreases self.rows.len() - i,
        {
            proof {
                assert(self@.rows[i as int] == before.rows[i as int]);
                assert(self.rows@[i as int]@ == self@.rows[i as int]);
            }
            if contains_id(ids, self.rows[i].id) {
                let mut row = self.rows[i].clone();
                row.is_read = read;
                let ghost prior = self@;
                self.rows.set(i, row);
                proof {
                    assert(self@.rows =~= prior.rows.update(i as int, row@));
                    assert(self@.rows[i as int] == before.mark_read(ids@, read).rows[i as int]);
                }
            } else {
                proof {
                    assert(self@.rows[i as int] == before.mark_read(ids@, read).rows[i as int]);
                }
            }
            i += 1;
        }
        proof {
            assert(self@.rows =~= before.mark_read(ids@, read).rows);
            lemma_flags_wf(before, self@);
        }
    }

    /// Stars the messages whose identifiers are among `ids`, or takes their
    /// stars away.
    pub fn mark_starred(&mut self, ids: &Vec<i64>, starred: bool)
        requires
            old(self).wf(),
        ensures
            final(self).wf(),
            final(self)@ == old(self)@.mark_starred(ids@, starred),
    {
        let ghost before = self@;
        let mut i: usize = 0;
        while i < self.rows.len()
            invariant
                i <= self.rows.len(),
                before.wf(),
                self@.rows.len() == before.rows.len(),
                self@.index == before.index,
                self@.next_id == before.next_id,
                forall|j: int| 0 <= j < i ==> #[trigger] self@.rows[j] == before.mark_starred(ids@, starred).rows[j],
                forall|j: int| i <= j < self.rows.len() ==> #[trigger] self@.rows[j] == before.rows[j],
            decreases self.rows.len() - i,
        {
            proof {
                assert(self@.rows[i as int] == before.rows[i as int]);
                assert(self.rows@[i as int]@ == self@.rows[i as int]);
            }
            if contains_id(ids, self.rows[i].id) {
                let mut row = self.rows[i].clone();
                row.is_starred = starred;
                let ghost prior = self@;
                self.rows.set(i, row);
                proof {
                    assert(self@.rows =~= prior.rows.update(i as int, row@));
                    assert(self@.rows[i as int] == before.mark_starred(ids@, starred).rows[i as int]);
                }
            } else {
                proof {
                    assert(self@.rows[i as int] == before.mark_starred(ids@, starred).rows[i as int]);
                }
            }
            i += 1;
        }
        proof {
            assert(self@.rows =~= before.mark_starred(ids@, starred).rows);
            lemma_flags_wf(before, self@);
        }
    }

    /// Links the message `id` to the thread `thread_id`.
    pub fn link_thread(&mut self, id: i64, thread_id: i64)
        requires
            old(self).wf(),
        ensures
            final(self).wf(),
            final(self)@ == old(self)@.link_thread(id, thread_id),
    {
        let ghost before = self@;
        match self.position_of_id(id) {
            Some(i) => {
                let mut row = self.rows[i].clone();
                row.thread_id = Some(thread_id);
                self.rows.set(i, row);
                proof {
                    assert(before.holds_id(i as int, id));
                    assert(self@.rows =~= before.rows.update(i as int, row@));
                    assert forall|j: int| 0 <= j < before.rows.len() implies self@.rows[j]
                        == before.link_thread(id, thread_id).rows[j] by {
                        if j != i && before.rows[j].id == id {
                            assert(before.rows[j].id != before.rows[i as int].id);
                        }
                    }
                }
            },
            None => {
                proof {
                    assert forall|j: int| 0 <= j < before.rows.len() implies before.rows[j].id
                        != id by {
                        if before.rows[j].id == id {
                            assert(before.holds_id(j, id));
                        }
                    }
                }
            },
        }
        proof {
            assert(self@.rows =~= before.link_thread(id, thread_id).rows);
            lemma_flags_wf(before, self@);
        }
    }

    /// Moves the message `id` to the folder `folder_id`. Fails with a
    /// database error, and changes nothing, where another message of its
    /// account has its UID in that folder. A message that the table does not
    /// hold is no error.
    pub fn move_to(&mut self, id: i64, folder_id: i64) -> (r: Result<(), DEmailError>)
        requires
            old(self).wf(),
        ensures
            final(self).wf(),
            r is Ok == old(self)@.can_move(id, folder_id),
            r is Ok ==> final(self)@ == old(self)@.move_to(id, folder_id),
            r matches Err(e) ==> final(self)@ == old(self)@ && e@.kind == ErrorKind::Database,
    {
        let ghost before = self@;
        match self.position_of_id(id) {
            Some(i) => {
                let account_id = self.rows[i].account_id;
                let uid = self.rows[i].imap_uid;
                proof {
                    assert(before.holds_id(i as int, id));
                }
                match self.position_of_key(account_id, folder_id, uid) {
                    Some(k) => {
                        if k != i {
                            proof {
                                assert(before.holds_key(k as int, account_id, folder_id, uid));
                                assert(before.find_id(id) == Some(i as int));
                                assert(before.rows[i as int].account_id == account_id);
                                assert(before.rows[i as int].imap_uid == uid);
                                assert(!before.can_move(id, folder_id));
                            }
                            return Err(
                                DEmailError::Database(
                                    String::from_str(
                                        "a message with this UID is already in the folder",
                                    ),
                                ),
                            );
                        }
                    },
                    None => {},
                }
                proof {
                    assert forall|j: int| 0 <= j < before.rows.len() && j != i implies !before.holds_key(
                        j,
                        account_id,
                        folder_id,
                        uid,
                    ) by {
                        if before.holds_key(j, account_id, folder_id, uid) {
                            let k = before.find_key(account_id, folder_id, uid).unwrap();
                            assert(before.holds_key(k, account_id, folder_id, uid));
                            if k != j {
                                assert(keys_differ(before.rows[k], before.rows[j]));
                            }
                        }
                    }
                }
                let mut row = self.rows[i].clone();
                row.folder_id = folder_id;
                self.rows.set(i, row);
                proof {
                    assert(self@.rows =~= before.rows.update(i as int, row@));
                    assert forall|j: int| 0 <= j < before.rows.len() implies self@.rows[j]
                        == before.move_to(id, folder_id).rows[j] by {
                        if j != i && before.rows[j].id == id {
                            assert(before.rows[j].id != before.rows[i as int].id);
                        }
                    }
                    assert(self@.rows =~= before.move_to(id, folder_id).rows);
                    let after = self@;
                    assert forall|a: int, b: int|
                        0 <= a < after.rows.len() && 0 <= b < after.rows.len() && a != b implies keys_differ(
                        #[trigger] after.rows[a],
                        #[trigger] after.rows[b],
                    ) by {
                        assert(keys_differ(before.rows[a], before.rows[b]));
                        if a == i {
                            assert(!before.holds_key(b, account_id, folder_id, uid));
                        } else if b == i {
                            assert(!before.holds_key(a, account_id, folder_id, uid));
                        }
                    }
                    assert forall|a: int, b: int|
                        0 <= a < after.rows.len() && 0 <= b < after.rows.len() && a != b implies (
                    #[trigger] after.rows[a]).id != (#[trigger] after.rows[b]).id by {
                        assert(before.rows[a].id != before.rows[b].id);
                    }
                    assert forall|a: int| 0 <= a < after.rows.len() implies 1 <= (
                    #[trigger] after.rows[a]).id < after.next_id && after.rows[a].attachments.len()
                        == 0 by {
                        assert(1 <= before.rows[a].id < before.next_id);
                    }
                    assert forall|a: int| 0 <= a < after.rows.len() implies #[trigger] after.index[a]
                        == entry_of(after.rows[a]) by {
                        assert(before.index[a] == entry_of(before.rows[a]));
                    }
                }
                Ok(())
            },
            None => {
                proof {
                    assert forall|j: int| 0 <= j < before.rows.len() implies before.rows[j].id
                        != id by {
                        if before.rows[j].id == id {
                            assert(before.holds_id(j, id));
                        }
                    }
                    assert(before.rows =~= before.move_to(id, folder_id).rows);
                }
                Ok(())
            },
        }
    }

    /// The indices of the rows that a query shows, in the order in which it
    /// shows them.
    fn arrange(&self, filter: &MessageFilter, order: MessageOrder, limit: i64, offset: i64) -> (r:
        Vec<usize>)
        requires
            self.wf(),
            filter.wf(),
        ensures
            indices(r@) == arranged(
                self@.rows,
                filter.keeps(),
                order.key(),
                limit as int,
                offset as int,
            ),
            forall|i: int| 0 <= i < r.len() ==> #[trigger] r@[i] < self.rows.len(),
    {
        let mut chosen: Vec<usize> = Vec::new();
        let mut keys: Vec<SortKey> = Vec::new();
        let mut i: usize = 0;
        let ghost rows = self@.rows;
        proof {
            assert(rows.take(0) =~= Seq::<MessageModel>::empty());
            assert(indices(chosen@) =~= selected(rows.take(0), filter.keeps()));
            assert(key_models(keys@) =~= keys_of(rows, indices(chosen@), order.key()));
        }
        while i < self.rows.len()
            invariant
                i <= self.rows.len(),
                self.wf(),
                filter.wf(),
                rows == self@.rows,
                chosen.len() == keys.len(),
                forall|j: int| 0 <= j < chosen.len() ==> #[trigger] chosen@[j] < i,
                indices(chosen@) == selected(rows.take(i as int), filter.keeps()),
                key_models(keys@) == keys_of(rows, indices(chosen@), order.key()),
            decreases self.rows.len() - i,
        {
            let row = &self.rows[i];
            proof {
                assert(rows.take(i + 1).drop_last() =~= rows.take(i as int));
                assert(rows.take(i + 1).last() == row@);
                assert(self@.index[i as int] == entry_of(self@.rows[i as int]));
            }
            if filter.lets_through(row, &self.index[i]) {
                let key = order.key_of(row);
                proof {
                    assert(indices(chosen@.push(i)) =~= indices(chosen@).push(i as int));
                    assert(key_models(keys@.push(key)) =~= key_models(keys@).push(key@));
                    assert(keys_of(rows, indices(chosen@).push(i as int), order.key()) =~= keys_of(
                        rows,
                        indices(chosen@),
                        order.key(),
                    ).push((order.key())(rows[i as int])));
                }
                chosen.push(i);
                keys.push(key);
            }
            i += 1;
        }
        proof {
            assert(rows.take(self.rows.len() as int) =~= rows);
        }
        let r = arrange(&chosen, &keys, limit, offset);
        proof {
            assert forall|k: int| 0 <= k < r.len() implies #[trigger] r@[k] < self.rows.len() by {
                assert(chosen@.contains(r@[k]));
            }
        }
        r
    }

    /// The headers of the messages that `filter` lets through, in `order`,
    /// of which the page with `limit` and `offset` is taken. A negative
    /// `limit` shows all that follow the offset.
    pub fn list(&self, filter: &MessageFilter, order: MessageOrder, limit: i64, offset: i64) -> (r:
        Vec<MessageHeader>)
        requires
            self.wf(),
            filter.wf(),
        ensures
            header_models(r@) == self@.listing(
                filter.keeps(),
                order.key(),
                limit as int,
                offset as int,
            ),
    {
        let shown = self.arrange(filter, order, limit, offset);
        let mut r: Vec<MessageHeader> = Vec::new();
        let mut i: usize = 0;
        while i < shown.len()
            invariant
                i <= shown.len(),
                forall|k: int| 0 <= k < shown.len() ==> #[trigger] shown@[k] < self.rows.len(),
                r.len() == i,
                forall|k: int| 0 <= k < i ==> (#[trigger] r@[k])@ == header_of(self@.rows[shown@[k] as int]),
            decreases shown.len() - i,
        {
            r.push(header_from(&self.rows[shown[i]]));
            i += 1;
        }
        proof {
            let want = self@.listing(filter.keeps(), order.key(), limit as int, offset as int);
            assert(header_models(r@).len() == want.len());
            assert forall|k: int| 0 <= k < r.len() implies header_models(r@)[k] == want[k] by {
                assert(indices(shown@)[k] == shown@[k]);
            }
            assert(header_models(r@) =~= want);
        }
        r
    }

    /// The messages that `filter` lets through, in `order`.
    pub fn collect(&self, filter: &MessageFilter, order: MessageOrder) -> (r: Vec<Message>)
        requires
            self.wf(),
            filter.wf(),
        ensures
            message_models(r@) == self@.records(filter.keeps(), order.key()),
    {
        let shown = self.arrange(filter, order, -1, 0);
        let mut r: Vec<Message> = Vec::new();
        let mut i: usize = 0;
        while i < shown.len()
            invariant
                i <= shown.len(),
                forall|k: int| 0 <= k < shown.len() ==> #[trigger] shown@[k] < self.rows.len(),
                r.len() == i,
                forall|k: int| 0 <= k < i ==> (#[trigger] r@[k])@ == self@.rows[shown@[k] as int],
            decreases shown.len() - i,
        {
            r.push(self.rows[shown[i]].clone());
            i += 1;
        }
        proof {
            let want = self@.records(filter.keeps(), order.key());
            assert(message_models(r@).len() == want.len());
            assert forall|k: int| 0 <= k < r.len() implies message_models(r@)[k] == want[k] by {
                assert(indices(shown@)[k] == shown@[k]);
            }
            assert(message_models(r@) =~= want);
        }
        r
    }

    /// The number of messages in the folder `folder_id`.
    pub fn count_in_folder(&self, folder_id: i64) -> (n: usize)
        requires
            self.wf(),
        ensures
            n == self@.count_in_folder(folder_id),
    {
        let mut n: usize = 0;
        let mut i: usize = 0;
        let ghost rows = self@.rows;
        proof {
            assert(rows.take(0) =~= Seq::<MessageModel>::empty());
        }
        while i < self.rows.len()
            invariant
                i <= self.rows.len(),
                rows == self@.rows,
                n <= i,
                n == selected(rows.take(i as int), in_folder(folder_id)).len(),
            decreases self.rows.len() - i,
        {
            proof {
                assert(rows.take(i + 1).drop_last() =~= rows.take(i as int));
                assert(rows.take(i + 1).last() == self.rows@[i as int]@);
            }
            if self.rows[i].folder_id == folder_id {
                n += 1;
            }
            i += 1;
        }
        proof {
            assert(rows.take(self.rows.len() as int) =~= rows);
        }
        n
    }
}

/// A table stays well formed when its rows change in nothing but their
/// flags and their thread.
pub proof fn lemma_flags_wf(before: MessageTableModel, after: MessageTableModel)
    requires
        before.wf(),
        after.rows.len() == before.rows.len(),
        after.index == before.index,
        after.next_id == before.next_id,
        forall|i: int|
            0 <= i < before.rows.len() ==> (#[trigger] after.rows[i]) == (MessageModel {
                is_read: after.rows[i].is_read,
                is_starred: after.rows[i].is_starred,
                thread_id: after.rows[i].thread_id,
                ..before.rows[i]
            }),
    ensures
        after.wf(),
{
    assert forall|a: int, b: int|
        0 <= a < after.rows.len() && 0 <= b < after.rows.len() && a != b implies keys_differ(
        #[trigger] after.rows[a],
        #[trigger] after.rows[b],
    ) by {
        assert(keys_differ(before.rows[a], before.rows[b]));
    }
    assert forall|a: int, b: int|
        0 <= a < after.rows.len() && 0 <= b < after.rows.len() && a != b implies (
    #[trigger] after.rows[a]).id != (#[trigger] after.rows[b]).id by {
        assert(before.rows[a].id != before.rows[b].id);
    }
    assert forall|a: int| 0 <= a < after.rows.len() implies 1 <= (#[trigger] after.rows[a]).id
        < after.next_id && after.rows[a].attachments.len() == 0 by {
        assert(1 <= before.rows[a].id < before.next_id);
    }
    assert forall|a: int| 0 <= a < after.rows.len() implies #[trigger] after.index[a] == entry_of(
        after.rows[a],
    ) by {
        assert(before.index[a] == entry_of(before.rows[a]));
    }
}

/// The messages of the account `account_id`.
pub open spec fn of_account(account_id: i64) -> spec_fn(MessageModel) -> bool {
    |m: MessageModel| m.account_id == account_id
}

/// The messages of other accounts than `account_id`.
pub open spec fn of_other_account(account_id: i64) -> spec_fn(MessageModel) -> bool {
    |m: MessageModel| m.account_id != account_id
}

/// [`entry_of`], as a function.
pub open spec fn entries() -> spec_fn(MessageModel) -> IndexEntryModel {
    |m: MessageModel| entry_of(m)
}

/// The identifier of a message, as a function.
pub open spec fn identifiers() -> spec_fn(MessageModel) -> i64 {
    |m: MessageModel| m.id
}

impl MessageTableModel {
    /// The identifiers of the messages of the account `account_id`.
    pub open spec fn ids_of_account(self, account_id: i64) -> Seq<i64> {
        retained(self.rows, of_account(account_id)).map_values(identifiers())
    }

    /// The table without the messages of the account `account_id`, and
    /// without their index entries.
    pub open spec fn without_account(self, account_id: i64) -> MessageTableModel {
        MessageTableModel {
            rows: retained(self.rows, of_other_account(account_id)),
            index: retained(self.rows, of_other_account(account_id)).map_values(entries()),
            ..self
        }
    }
}

/// Taking the messages of an account away keeps the table well formed, and
/// leaves none of them.
pub proof fn lemma_without_account_wf(t: MessageTableModel, account_id: i64)
    requires
        t.wf(),
    ensures
        t.without_account(account_id).wf(),
        forall|i: int|
            0 <= i < t.without_account(account_id).rows.len() ==> (
            #[trigger] t.without_account(account_id).rows[i]).account_id != account_id,
{
    let after = t.without_account(account_id);
    let keep = of_other_account(account_id);
    let apart = |a: MessageModel, b: MessageModel| a.id != b.id && keys_differ(a, b);
    assert forall|i: int, j: int|
        0 <= i < t.rows.len() && 0 <= j < t.rows.len() && i != j implies apart(
        #[trigger] t.rows[i],
        #[trigger] t.rows[j],
    ) by {
        assert(t.rows[i].id != t.rows[j].id);
        assert(keys_differ(t.rows[i], t.rows[j]));
    }
    lemma_retained(t.rows, keep, apart);
    assert forall|i: int| 0 <= i < after.rows.len() implies 1 <= (#[trigger] after.rows[i]).id
        < after.next_id && after.rows[i].attachments.len() == 0 && after.rows[i].account_id
        != account_id by {
        assert(keep(after.rows[i]));
        assert(t.rows.contains(after.rows[i]));
        let k = choose|k: int| 0 <= k < t.rows.len() && t.rows[k] == after.rows[i];
        assert(1 <= t.rows[k].id < t.next_id);
    }
    assert forall|a: int, b: int|
        0 <= a < after.rows.len() && 0 <= b < after.rows.len() && a != b implies keys_differ(
        #[trigger] after.rows[a],
        #[trigger] after.rows[b],
    ) && after.rows[a].id != after.rows[b].id by {
        assert(apart(after.rows[a], after.rows[b]));
    }
}

impl MessageTable {
    /// The identifiers of the messages of the account `account_id`.
    pub fn ids_of_account(&self, account_id: i64) -> (r: Vec<i64>)
        ensures
            r@ == self@.ids_of_account(account_id),
    {
        let mut r: Vec<i64> = Vec::new();
        let mut i: usize = 0;
        let ghost rows = self@.rows;
        proof {
            assert(rows.take(0) =~= Seq::<MessageModel>::empty());
            lemma_retained_empty(of_account(account_id));
            assert(r@ =~= retained(rows.take(0), of_account(account_id)).map_values(identifiers()));
        }
        while i < self.rows.len()
            invariant
                i <= self.rows.len(),
                rows == self@.rows,
                r@ == retained(rows.take(i as int), of_account(account_id)).map_values(
                    identifiers(),
                ),
            decreases self.rows.len() - i,
        {
            let row = &self.rows[i];
            proof {
                assert(rows.take(i + 1) =~= rows.take(i as int).push(row@));
                lemma_retained_push(rows.take(i as int), of_account(account_id), row@);
                retained(rows.take(i as int), of_account(account_id)).lemma_push_map_commute(
                    identifiers(),
                    row@,
                );
            }
            if row.account_id == account_id {
                r.push(row.id);
            }
            i += 1;
        }
        proof {
            assert(rows.take(self.rows.len() as int) =~= rows);
        }
        r
    }

    /// Takes away the messages of the account `account_id`, with their
    /// index entries.
    pub fn remove_account(&mut self, account_id: i64)
        requires
            old(self).wf(),
        ensures
            final(self).wf(),
            final(self)@ == old(self)@.without_account(account_id),
    {
        let ghost before = self@;
        proof {
            lemma_without_account_wf(before, account_id);
        }
        let mut rows: Vec<Message> = Vec::new();
        let mut index: Vec<IndexEntry> = Vec::new();
        let mut i: usize = 0;
        proof {
            assert(before.rows.take(0) =~= Seq::<MessageModel>::empty());
            lemma_retained_empty(of_other_account(account_id));
            assert(message_models(rows@) =~= Seq::<MessageModel>::empty());
            assert(entry_models(index@) =~= retained(
                before.rows.take(0),
                of_other_account(account_id),
            ).map_values(entries()));
        }
        while i < self.rows.len()
            invariant
                i <= self.rows.len(),
                before == self@,
                message_models(rows@) == retained(
                    before.rows.take(i as int),
                    of_other_account(account_id),
                ),
                entry_models(index@) == retained(
                    before.rows.take(i as int),
                    of_other_account(account_id),
                ).map_values(entries()),
            decreases self.rows.len() - i,
        {
            let row = &self.rows[i];
            proof {
                assert(before.rows[i as int] == row@);
                assert(before.rows.take(i + 1) =~= before.rows.take(i as int).push(row@));
                lemma_retained_push(before.rows.take(i as int), of_other_account(account_id), row@);
                retained(
                    before.rows.take(i as int),
                    of_other_account(account_id),
                ).lemma_push_map_commute(entries(), row@);
            }
            if row.account_id != account_id {
                let copy = row.clone();
                let entry = entry_from(row);
                proof {
                    assert(message_models(rows@.push(copy)) =~= message_models(rows@).push(copy@));
                    assert(entry_models(index@.push(entry)) =~= entry_models(index@).push(entry@));
                }
                rows.push(copy);
                index.push(entry);
            }
            i += 1;
        }
        proof {
            assert(before.rows.take(self.rows.len() as int) =~= before.rows);
        }
        self.rows = rows;
        self.index = index;
    }
}

impl MessageTable {
    /// Whether the table holds a message of the account and the folder with
    /// the UID `uid`.
    pub fn knows(&self, account_id: i64, folder_id: i64, uid: u32) -> (r: bool)
        requires
            self.wf(),
        ensures
            r == (self@.find_key(account_id, folder_id, uid) is Some),
    {
        self.position_of_key(account_id, folder_id, uid).is_some()
    }
}

/// Whether rows can be the rows of a table: their identifiers are valid, no
/// two have the same account, folder and UID, and none holds attachments.
pub open spec fn restorable(rows: Seq<MessageModel>) -> bool {
    &&& valid_ids(rows.map_values(identifiers()))
    &&& forall|i: int, j: int|
        0 <= i < rows.len() && 0 <= j < rows.len() && i != j ==> keys_differ(
            #[trigger] rows[i],
            #[trigger] rows[j],
        )
    &&& forall|i: int| 0 <= i < rows.len() ==> (#[trigger] rows[i]).attachments.len() == 0
}

impl MessageTable {
    /// The rows of the table, in their order.
    pub fn rows(&self) -> (r: &Vec<Message>)
        ensures
            message_models(r@) == self@.rows,
    {
        &self.rows
    }

    /// The table that holds `rows`, with the text index that mirrors them;
    /// `None` where the rows cannot be those of a table.
    pub fn restore(rows: Vec<Message>) -> (r: Option<MessageTable>)
        ensures
            match r {
                Some(t) => {
                    &&& restorable(message_models(rows@))
                    &&& t.wf()
                    &&& t@.rows == message_models(rows@)
                    &&& t@.next_id == next_after(message_models(rows@).map_values(identifiers()))
                },
                None => !restorable(message_models(rows@)),
            },
    {
        let ghost models = message_models(rows@);
        let mut ids: Vec<i64> = Vec::new();
        let mut index: Vec<IndexEntry> = Vec::new();
        let mut i: usize = 0;
        while i < rows.len()
            invariant
                i <= rows.len(),
                models == message_models(rows@),
                ids.len() == i,
                index.len() == i,
                forall|a: int| 0 <= a < i ==> #[trigger] ids@[a] == models[a].id,
                forall|a: int| 0 <= a < i ==> (#[trigger] index@[a])@ == entry_of(models[a]),
                forall|a: int| 0 <= a < i ==> (#[trigger] models[a]).attachments.len() == 0,
                forall|a: int, b: int|
                    0 <= a < i && 0 <= b < i && a != b ==> keys_differ(
                        #[trigger] models[a],
                        #[trigger] models[b],
                    ),
            decreases rows.len() - i,
        {
            let row = &rows[i];
            proof {
                assert(models[i as int] == row@);
                assert(row@.attachments.len() == row.attachments@.len());
            }
            if row.attachments.len() != 0 {
                return None;
            }
            let mut k: usize = 0;
            while k < i
                invariant
                    k <= i < rows.len(),
                    models == message_models(rows@),
                    forall|a: int| 0 <= a < k ==> keys_differ(#[trigger] models[a], models[i as int]),
                decreases i - k,
            {
                let other = &rows[k];
                proof {
                    assert(models[k as int] == other@);
                    assert(models[i as int] == rows@[i as int]@);
                }
                if other.account_id == rows[i].account_id && other.folder_id == rows[i].folder_id
                    && other.imap_uid == rows[i].imap_uid {
                    return None;
                }
                k += 1;
            }
            ids.push(row.id);
            index.push(entry_from(row));
            i += 1;
        }
        proof {
            assert(ids@ =~= models.map_values(identifiers()));
        }
        match next_identifier(&ids) {
            Some(next_id) => {
                let t = MessageTable { rows, index, next_id };
                proof {
                    assert(t@.rows == models);
                    assert forall|a: int| 0 <= a < models.len() implies 1 <= (
                    #[trigger] t@.rows[a]).id < t@.next_id && t@.rows[a].attachments.len()
                        == 0 by {
                        assert(ids@[a] == models[a].id);
                    }
                    assert forall|a: int, b: int|
                        0 <= a < models.len() && 0 <= b < models.len() && a != b implies (
                    #[trigger] t@.rows[a]).id != (#[trigger] t@.rows[b]).id by {
                        assert(ids@[a] == models[a].id);
                        assert(ids@[b] == models[b].id);
                    }
                    assert(t@.index.len() == t@.rows.len());
                }
                Some(t)
            },
            None => None,
        }
    }
}

/// Linking a message to a thread keeps what the table knows by account,
/// folder and UID, and the number of its rows.
pub proof fn lemma_link_keeps_keys(
    t: MessageTableModel,
    id: i64,
    thread_id: i64,
    account_id: i64,
    folder_id: i64,
    uid: u32,
)
    ensures
        t.link_thread(id, thread_id).rows.len() == t.rows.len(),
        t.link_thread(id, thread_id).find_key(account_id, folder_id, uid) is Some == (t.find_key(
            account_id,
            folder_id,
            uid,
        ) is Some),
{
    let after = t.link_thread(id, thread_id);
    if t.find_key(account_id, folder_id, uid) is Some {
        let i = t.find_key(account_id, folder_id, uid).unwrap();
        assert(t.holds_key(i, account_id, folder_id, uid));
        assert(after.holds_key(i, account_id, folder_id, uid));
    }
    if after.find_key(account_id, folder_id, uid) is Some {
        let i = after.find_key(account_id, folder_id, uid).unwrap();
        assert(after.holds_key(i, account_id, folder_id, uid));
        assert(t.holds_key(i, account_id, folder_id, uid));
    }
}

} // verus!
