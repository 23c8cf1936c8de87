//! Attachments: the check of what may be attached, and the table that holds
//! what is known of each attachment together with its content.

use crate::error::{DEmailError, ErrorKind, ErrorModel};
use crate::models::{attachment_models, Attachment, AttachmentModel};
use crate::numfmt::{decimal, decimal_of};
use crate::table::{
    first_where, lemma_position, lemma_retained, lemma_retained_empty, lemma_retained_push,
    next_after, next_identifier, position, retained, valid_ids,
};
use crate::text::{chars_of, lowercase, lowercase_of, same_text, slice_of, string_of};
use crate::validation::outcome;
use vstd::prelude::*;
use vstd::string::StringExecFns;

verus! {

/// The largest attachment, in bytes: 25 MiB.
pub const MAX_ATTACHMENT_SIZE: i64 = 26_214_400;

/// What the check of an attachment returns: a refusal where it is larger
/// than 25 MiB.
pub open spec fn attachment_check(size_bytes: i64) -> Result<(), ErrorModel> {
    if size_bytes > MAX_ATTACHMENT_SIZE {
        Err(
            ErrorModel {
                kind: ErrorKind::Unknown,
                detail: "Attachment too large: "@ + decimal(size_bytes as int)
                    + " bytes (max: 26214400 bytes)"@,
            },
        )
    } else {
        Ok(())
    }
}

/// Accepts an attachment of at most 25 MiB, whatever its name.
pub fn validate_attachment_safety(filename: &str, size_bytes: i64) -> (r: Result<(), DEmailError>)
    ensures
        outcome(r) == attachment_check(size_bytes),
{
    if size_bytes > MAX_ATTACHMENT_SIZE {
        let mut m = String::from_str("Attachment too large: ");
        m.append(string_of(&decimal_of(size_bytes)).as_str());
        m.append(" bytes (max: 26214400 bytes)");
        return Err(DEmailError::Unknown(m));
    }
    Ok(())
}

/// The end of the name without its extension: the index of its last dot,
/// or 0 where it has none.
pub open spec fn stem_end(name: Seq<char>, to: int) -> int
    decreases to,
{
    if to <= 0 || to > name.len() {
        0
    } else if name[to - 1] == '.' {
        to - 1
    } else {
        stem_end(name, to - 1)
    }
}

/// The extension of a file name: what follows its last dot, where the name
/// has a dot that does not begin it.
pub open spec fn extension_of(name: Seq<char>) -> Option<Seq<char>> {
    let dot = stem_end(name, name.len() as int);
    if dot > 0 {
        Some(name.skip(dot + 1))
    } else {
        None
    }
}

/// The extension of a file name.
pub fn file_extension(filename: &str) -> (r: Option<String>)
    ensures
        crate::models::opt_text(r) == extension_of(filename@),
{
    let name = chars_of(filename);
    let mut i: usize = name.len();
    while i > 0 && name[i - 1] != '.'
        invariant
            i <= name.len(),
            stem_end(name@, name.len() as int) == stem_end(name@, i as int),
        decreases i,
    {
        i -= 1;
    }
    if i > 1 {
        let ext = slice_of(&name, i, name.len());
        proof {
            assert(ext@ == name@.skip(i as int));
        }
        Some(string_of(&ext))
    } else {
        None
    }
}

/// The extensions, in lower case, of files that a system may run.
pub open spec fn is_dangerous(extension: Seq<char>) -> bool {
    ||| extension == "exe"@
    ||| extension == "bat"@
    ||| extension == "cmd"@
    ||| extension == "com"@
    ||| extension == "pif"@
    ||| extension == "scr"@
    ||| extension == "vbs"@
    ||| extension == "js"@
    ||| extension == "jar"@
    ||| extension == "msi"@
    ||| extension == "dll"@
    ||| extension == "sh"@
}

/// Whether `extension`, which is in lower case, is that of a file that a
/// system may run.
pub fn is_dangerous_extension(extension: &str) -> (r: bool)
    ensures
        r == is_dangerous(extension@),
{
    let e = chars_of(extension);
    same_text(&e, &chars_of("exe")) || same_text(&e, &chars_of("bat")) || same_text(
        &e,
        &chars_of("cmd"),
    ) || same_text(&e, &chars_of("com")) || same_text(&e, &chars_of("pif")) || same_text(
        &e,
        &chars_of("scr"),
    ) || same_text(&e, &chars_of("vbs")) || same_text(&e, &chars_of("js")) || same_text(
        &e,
        &chars_of("jar"),
    ) || same_text(&e, &chars_of("msi")) || same_text(&e, &chars_of("dll")) || same_text(
        &e,
        &chars_of("sh"),
    )
}

/// Whether a file of this name deserves a warning: its extension, in lower
/// case, is that of a file that a system may run.
pub fn has_dangerous_extension(filename: &str) -> (r: bool)
    ensures
        r == match extension_of(filename@) {
            Some(e) => is_dangerous(lowercase_of(e)),
            None => false,
        },
{
    match file_extension(filename) {
        Some(e) => {
            let low = lowercase(e.as_str());
            is_dangerous_extension(low.as_str())
        },
        None => false,
    }
}

/// The content of an attachment, under the identifier of the attachment.
pub struct Blob {
    pub attachment_id: i64,
    pub data: Vec<u8>,
}

/// The model of a [`Blob`].
pub struct BlobModel {
    pub attachment_id: i64,
    pub data: Seq<u8>,
}

impl View for Blob {
    type V = BlobModel;

    open spec fn view(&self) -> BlobModel {
        BlobModel { attachment_id: self.attachment_id, data: self.data@ }
    }
}

/// The models of the blobs that a vector holds.
pub open spec fn blob_models(v: Seq<Blob>) -> Seq<BlobModel> {
    v.map_values(|b: Blob| b@)
}

/// The attachment with identifier `id`.
pub open spec fn is_attachment(id: i64) -> spec_fn(AttachmentModel) -> bool {
    |a: AttachmentModel| a.id == id
}

/// The attachments of the message `message_id`.
pub open spec fn of_message(message_id: i64) -> spec_fn(AttachmentModel) -> bool {
    |a: AttachmentModel| a.message_id == message_id
}

/// The attachments of other messages than `message_id`.
pub open spec fn of_other_message(message_id: i64) -> spec_fn(AttachmentModel) -> bool {
    |a: AttachmentModel| a.message_id != message_id
}

/// The content of the attachment `id`.
pub open spec fn is_blob_of(id: i64) -> spec_fn(BlobModel) -> bool {
    |b: BlobModel| b.attachment_id == id
}

/// What is known of the attachments, their content, and the identifier
/// that the next attachment gets.
pub struct AttachmentTableModel {
    pub rows: Seq<AttachmentModel>,
    pub blobs: Seq<BlobModel>,
    pub next_id: int,
}

impl AttachmentTableModel {
    /// Identifiers start at 1 and lie below `next_id`; each content belongs
    /// to an attachment that the table holds.
    pub open spec fn wf(self) -> bool {
        &&& 1 <= self.next_id <= i64::MAX
        &&& forall|i: int| 0 <= i < self.rows.len() ==> 1 <= (#[trigger] self.rows[i]).id < self.next_id
        &&& forall|i: int|
            0 <= i < self.blobs.len() ==> self.has((#[trigger] self.blobs[i]).attachment_id)
    }

    /// Whether the table holds an attachment with identifier `id`.
    pub open spec fn has(self, id: i64) -> bool {
        first_where(self.rows, is_attachment(id)) is Some
    }

    /// The table with `a` added under the next identifier, and that
    /// identifier; `None`, and no change, where no identifier is left.
    pub open spec fn insert(self, a: AttachmentModel) -> (AttachmentTableModel, Option<i64>) {
        if self.next_id < i64::MAX {
            (
                AttachmentTableModel {
                    rows: self.rows.push(AttachmentModel { id: self.next_id as i64, ..a }),
                    next_id: self.next_id + 1,
                    ..self
                },
                Some(self.next_id as i64),
            )
        } else {
            (self, None)
        }
    }

    /// The table with `data` as the content of the attachment `id`, in place
    /// of what it had; no change where the table holds no such attachment.
    pub open spec fn put_blob(self, id: i64, data: Seq<u8>) -> AttachmentTableModel {
        let blob = BlobModel { attachment_id: id, data };
        let at = position(self.blobs, is_blob_of(id), 0);
        if !self.has(id) {
            self
        } else if at < self.blobs.len() {
            AttachmentTableModel { blobs: self.blobs.update(at, blob), ..self }
        } else {
            AttachmentTableModel { blobs: self.blobs.push(blob), ..self }
        }
    }

    /// The table with `a` added together with its content `data`.
    pub open spec fn store(self, a: AttachmentModel, data: Seq<u8>) -> (
        AttachmentTableModel,
        Option<i64>,
    ) {
        match self.insert(a).1 {
            Some(id) => (self.insert(a).0.put_blob(id, data), Some(id)),
            None => (self, None),
        }
    }

    /// The attachments of the message `message_id`.
    pub open spec fn for_message(self, message_id: i64) -> Seq<AttachmentModel> {
        retained(self.rows, of_message(message_id))
    }

    /// The content of the attachment `id`.
    pub open spec fn blob(self, id: i64) -> Option<Seq<u8>> {
        match first_where(self.blobs, is_blob_of(id)) {
            Some(b) => Some(b.data),
            None => None,
        }
    }

    /// Whether a blob stays when the attachments of `message_id` go: its
    /// attachment is of another message.
    pub open spec fn outlives(self, message_id: i64) -> spec_fn(BlobModel) -> bool {
        |b: BlobModel|
            match first_where(self.rows, is_attachment(b.attachment_id)) {
                Some(a) => a.message_id != message_id,
                None => false,
            }
    }

    /// The table without the attachments of the message `message_id` and
    /// without their content.
    pub open spec fn without_message(self, message_id: i64) -> AttachmentTableModel {
        AttachmentTableModel {
            rows: retained(self.rows, of_other_message(message_id)),
            blobs: retained(self.blobs, self.outlives(message_id)),
            ..self
        }
    }
}

/// An attachment that a table holds is still held when a row is added.
proof fn lemma_has_after_push(rows: Seq<AttachmentModel>, row: AttachmentModel, id: i64)
    requires
        first_where(rows, is_attachment(id)) is Some || row.id == id,
    ensures
        first_where(rows.push(row), is_attachment(id)) is Some,
{
    let more = rows.push(row);
    lemma_position(rows, is_attachment(id), 0);
    lemma_position(more, is_attachment(id), 0);
    let p = position(more, is_attachment(id), 0);
    if p >= more.len() {
        if first_where(rows, is_attachment(id)) is Some {
            let q = position(rows, is_attachment(id), 0);
            assert(more[q] == rows[q]);
            assert(is_attachment(id)(more[q]));
        } else {
            assert(is_attachment(id)(more[rows.len() as int]));
        }
    }
}

/// Adding an attachment keeps the table well formed.
pub proof fn lemma_insert_wf(t: AttachmentTableModel, a: AttachmentModel)
    requires
        t.wf(),
    ensures
        t.insert(a).0.wf(),
        t.insert(a).1 matches Some(id) ==> t.insert(a).0.has(id),
{
    if t.next_id < i64::MAX {
        let after = t.insert(a).0;
        let row = AttachmentModel { id: t.next_id as i64, ..a };
        assert forall|i: int| 0 <= i < after.rows.len() implies 1 <= (#[trigger] after.rows[i]).id
            < after.next_id by {
            if i < t.rows.len() {
                assert(after.rows[i] == t.rows[i]);
            }
        }
        assert forall|i: int| 0 <= i < after.blobs.len() implies after.has(
            (#[trigger] after.blobs[i]).attachment_id,
        ) by {
            assert(t.has(t.blobs[i].attachment_id));
            lemma_has_after_push(t.rows, row, t.blobs[i].attachment_id);
        }
        lemma_has_after_push(t.rows, row, t.next_id as i64);
    }
}

/// Storing content keeps the table well formed, and the content is then
/// that of its attachment.
pub proof fn lemma_put_blob_wf(t: AttachmentTableModel, id: i64, data: Seq<u8>)
    requires
        t.wf(),
    ensures
        t.put_blob(id, data).wf(),
        t.has(id) ==> t.put_blob(id, data).blob(id) == Some(data),
{
    let after = t.put_blob(id, data);
    let at = position(t.blobs, is_blob_of(id), 0);
    lemma_position(t.blobs, is_blob_of(id), 0);
    if t.has(id) {
        assert forall|i: int| 0 <= i < after.blobs.len() implies after.has(
            (#[trigger] after.blobs[i]).attachment_id,
        ) by {
            if i < t.blobs.len() && i != at {
                assert(after.blobs[i] == t.blobs[i]);
                assert(t.has(t.blobs[i].attachment_id));
            }
        }
        lemma_position(after.blobs, is_blob_of(id), 0);
        let p = position(after.blobs, is_blob_of(id), 0);
        assert(is_blob_of(id)(after.blobs[at]));
        if p < at {
            assert(after.blobs[p] == t.blobs[p]);
            assert(!is_blob_of(id)(t.blobs[p]));
        }
        assert(p == at);
    }
}

/// Taking the attachments of a message away keeps the table well formed,
/// and none of them is left.
pub proof fn lemma_without_message_wf(t: AttachmentTableModel, message_id: i64)
    requires
        t.wf(),
    ensures
        t.without_message(message_id).wf(),
        t.without_message(message_id).for_message(message_id).len() == 0,
{
    let after = t.without_message(message_id);
    let keep = of_other_message(message_id);
    let apart = |a: AttachmentModel, b: AttachmentModel| true;
    lemma_retained(t.rows, keep, apart);
    let blob_apart = |a: BlobModel, b: BlobModel| true;
    lemma_retained(t.blobs, t.outlives(message_id), blob_apart);
    assert forall|i: int| 0 <= i < after.rows.len() implies 1 <= (#[trigger] after.rows[i]).id
        < after.next_id by {
        assert(t.rows.contains(after.rows[i]));
        let k = choose|k: int| 0 <= k < t.rows.len() && t.rows[k] == after.rows[i];
        assert(1 <= t.rows[k].id < t.next_id);
    }
    assert forall|i: int| 0 <= i < after.blobs.len() implies after.has(
        (#[trigger] after.blobs[i]).attachment_id,
    ) by {
        let b = after.blobs[i];
        assert((t.outlives(message_id))(b));
        let hit = is_attachment(b.attachment_id);
        lemma_position(t.rows, hit, 0);
        let q = position(t.rows, hit, 0);
        let owner = t.rows[q];
        assert(keep(owner));
        assert(after.rows.contains(owner));
        let k = choose|k: int| 0 <= k < after.rows.len() && after.rows[k] == owner;
        lemma_position(after.rows, hit, 0);
        let p = position(after.rows, hit, 0);
        if p >= after.rows.len() {
            assert(hit(after.rows[k]));
        }
    }
    // none of the message's attachments is left
    let left = after.for_message(message_id);
    let all_apart = |a: AttachmentModel, b: AttachmentModel| true;
    lemma_retained(after.rows, of_message(message_id), all_apart);
    if left.len() > 0 {
        assert(of_message(message_id)(left[0]));
        assert(after.rows.contains(left[0]));
        let k = choose|k: int| 0 <= k < after.rows.len() && after.rows[k] == left[0];
        assert(keep(after.rows[k]));
    }
}

/// What is known of the attachments, with their content.
pub struct AttachmentTable {
    rows: Vec<Attachment>,
    blobs: Vec<Blob>,
    next_id: i64,
}

impl View for AttachmentTable {
    type V = AttachmentTableModel;

    closed spec fn view(&self) -> AttachmentTableModel {
        AttachmentTableModel {
            rows: attachment_models(self.rows@),
            blobs: blob_models(self.blobs@),
            next_id: self.next_id as int,
        }
    }
}

impl AttachmentTable {
    /// Whether the table is well formed, as every table made by [`Self::new`]
    /// and changed by the methods of this type is.
    pub open spec fn wf(&self) -> bool {
        self@.wf()
    }

    /// The empty table.
    pub fn new() -> (t: AttachmentTable)
        ensures
            t.wf(),
            t@.rows.len() == 0,
            t@.blobs.len() == 0,
            t@.next_id == 1,
    {
        AttachmentTable { rows: Vec::new(), blobs: Vec::new(), next_id: 1 }
    }

    /// The number of attachments.
    pub fn len(&self) -> (n: usize)
        ensures
            n == self@.rows.len(),
    {
        self.rows.len()
    }

    fn row_position(&self, id: i64) -> (r: usize)
        ensures
            r == position(self@.rows, is_attachment(id), 0),
            r <= self.rows.len(),
    {
        let mut i: usize = 0;
        while i < self.rows.len() && self.rows[i].id != id
            invariant
                i <= self.rows.len(),
                position(self@.rows, is_attachment(id), 0) == position(
                    self@.rows,
                    is_attachment(id),
                    i as int,
                ),
            decreases self.rows.len() - i,
        {
            proof {
                assert(self@.rows[i as int] == self.rows@[i as int]@);
            }
            i += 1;
        }
        proof {
            if i < self.rows.len() {
                assert(self@.rows[i as int] == self.rows@[i as int]@);
            }
        }
        i
    }

    fn blob_position(&self, id: i64) -> (r: usize)
        ensures
            r == position(self@.blobs, is_blob_of(id), 0),
            r <= self.blobs.len(),
    {
        let mut i: usize = 0;
        while i < self.blobs.len() && self.blobs[i].attachment_id != id
            invariant
                i <= self.blobs.len(),
                position(self@.blobs, is_blob_of(id), 0) == position(
                    self@.blobs,
                    is_blob_of(id),
                    i as int,
                ),
            decreases self.blobs.len() - i,
        {
            proof {
                assert(self@.blobs[i as int] == self.blobs@[i as int]@);
            }
            i += 1;
        }
        proof {
            if i < self.blobs.len() {
                assert(self@.blobs[i as int] == self.blobs@[i as int]@);
            }
        }
        i
    }

    /// Adds what is known of an attachment, under the next identifier, and
    /// returns that identifier. Fails with a database error, and changes
    /// nothing, where no identifier is left.
    pub fn save_attachment(&mut self, attachment: &Attachment) -> (r: Result<i64, DEmailError>)
        requires
            old(self).wf(),
        ensures
            final(self).wf(),
            final(self)@ == old(self)@.insert(attachment@).0,
            match r {
                Ok(id) => old(self)@.insert(attachment@).1 == Some(id),
                Err(e) => old(self)@.insert(attachment@).1 is None && e@.kind
                    == ErrorKind::Database,
            },
    {
        proof {
            lemma_insert_wf(self@, attachment@);
        }
        if self.next_id == i64::MAX {
            return Err(DEmailError::Database(String::from_str("no attachment identifier is left")));
        }
        let id = self.next_id;
        let row = Attachment {
            id,
            message_id: attachment.message_id,
            filename: attachment.filename.clone(),
            mime_type: attachment.mime_type.clone(),
            size_bytes: attachment.size_bytes,
            local_path: attachment.local_path.clone(),
        };
        let ghost before = self@;
        self.rows.push(row);
        self.next_id = id + 1;
        proof {
            assert(self@.rows =~= before.rows.push(row@));
        }
        Ok(id)
    }

    /// Stores `data` as the content of the attachment `attachment_id`, in
    /// place of what it had. Fails with a database error, and changes
    /// nothing, where the table holds no such attachment: content comes
    /// after what is known of the attachment.
    pub fn save_attachment_data(&mut self, attachment_id: i64, data: &[u8]) -> (r: Result<
        (),
        DEmailError,
    >)
        requires
            old(self).wf(),
        ensures
            final(self).wf(),
            final(self)@ == old(self)@.put_blob(attachment_id, data@),
            r is Ok == old(self)@.has(attachment_id),
            r matches Err(e) ==> e@.kind == ErrorKind::Database,
    {
        proof {
            lemma_put_blob_wf(self@, attachment_id, data@);
        }
        if self.row_position(attachment_id) >= self.rows.len() {
            return Err(DEmailError::Database(String::from_str("no such attachment")));
        }
        let blob = Blob { attachment_id, data: vstd::slice::slice_to_vec(data) };
        let at: usize = self.blob_position(attachment_id);
        let ghost before = self@;
        if at < self.blobs.len() {
            self.blobs.set(at, blob);
            proof {
                assert(self@.blobs =~= before.blobs.update(at as int, blob@));
            }
        } else {
            self.blobs.push(blob);
            proof {
                assert(self@.blobs =~= before.blobs.push(blob@));
            }
        }
        Ok(())
    }

    /// Adds an attachment together with its content: both are there
    /// afterwards, or, where no identifier is left, neither.
    pub fn store_attachment(&mut self, attachment: &Attachment, data: &[u8]) -> (r: Result<
        i64,
        DEmailError,
    >)
        requires
            old(self).wf(),
        ensures
            final(self).wf(),
            final(self)@ == old(self)@.store(attachment@, data@).0,
            match r {
                Ok(id) => old(self)@.store(attachment@, data@).1 == Some(id) && final(self)@.blob(
                    id,
                ) == Some(data@),
                Err(e) => old(self)@.store(attachment@, data@).1 is None && e@.kind
                    == ErrorKind::Database,
            },
    {
        proof {
            lemma_insert_wf(self@, attachment@);
        }
        let id = match self.save_attachment(attachment) {
            Ok(id) => id,
            Err(e) => {
                return Err(e);
            },
        };
        proof {
            lemma_put_blob_wf(self@, id, data@);
        }
        match self.save_attachment_data(id, data) {
            Ok(_) => Ok(id),
            Err(e) => Err(e),
        }
    }

    /// What is known of the attachments of the message `message_id`.
    pub fn get_attachments_for_message(&self, message_id: i64) -> (r: Vec<Attachment>)
        ensures
            attachment_models(r@) == self@.for_message(message_id),
    {
        let mut r: Vec<Attachment> = Vec::new();
        let mut i: usize = 0;
        let ghost rows = self@.rows;
        let ghost keep = of_message(message_id);
        proof {
            assert(rows.take(0) =~= Seq::<AttachmentModel>::empty());
            lemma_retained_empty(of_message(message_id));
            assert(attachment_models(r@) =~= Seq::<AttachmentModel>::empty());
        }
        while i < self.rows.len()
            invariant
                i <= self.rows.len(),
                rows == self@.rows,
                attachment_models(r@) == retained(rows.take(i as int), of_message(message_id)),
            decreases self.rows.len() - i,
        {
            let row = &self.rows[i];
            proof {
                assert(rows.take(i + 1) =~= rows.take(i as int).push(row@));
                lemma_retained_push(rows.take(i as int), of_message(message_id), row@);
            }
            if row.message_id == message_id {
                let copy = row.clone();
                proof {
                    assert(attachment_models(r@.push(copy)) =~= attachment_models(r@).push(copy@));
                }
                r.push(copy);
            }
            i += 1;
        }
        proof {
            assert(rows.take(self.rows.len() as int) =~= rows);
        }
        r
    }

    /// The content of the attachment `attachment_id`, if it has any.
    pub fn get_attachment_data(&self, attachment_id: i64) -> (r: Option<Vec<u8>>)
        ensures
            match r {
                Some(d) => self@.blob(attachment_id) == Some(d@),
                None => self@.blob(attachment_id) is None,
            },
    {
        let at: usize = self.blob_position(attachment_id);
        if at < self.blobs.len() {
            proof {
                assert(self@.blobs[at as int] == self.blobs@[at as int]@);
            }
            Some(self.blobs[at].data.clone())
        } else {
            None
        }
    }

    /// Takes away the attachments of the message `message_id`, with their
    /// content.
    pub fn remove_for_message(&mut self, message_id: i64)
        requires
            old(self).wf(),
        ensures
            final(self).wf(),
            final(self)@ == old(self)@.without_message(message_id),
    {
        let ghost before = self@;
        proof {
            lemma_without_message_wf(before, message_id);
        }
        // the content that stays
        let mut blobs: Vec<Blob> = Vec::new();
        let mut i: usize = 0;
        proof {
            assert(before.blobs.take(0) =~= Seq::<BlobModel>::empty());
            lemma_retained_empty(before.outlives(message_id));
            assert(blob_models(blobs@) =~= Seq::<BlobModel>::empty());
        }
        while i < self.blobs.len()
            invariant
                i <= self.blobs.len(),
                before == self@,
                blob_models(blobs@) == retained(
                    before.blobs.take(i as int),
                    before.outlives(message_id),
                ),
            decreases self.blobs.len() - i,
        {
            let blob = &self.blobs[i];
            proof {
                assert(before.blobs[i as int] == blob@);
                assert(before.blobs.take(i + 1) =~= before.blobs.take(i as int).push(blob@));
                lemma_retained_push(before.blobs.take(i as int), before.outlives(message_id), blob@);
            }
            let owner: usize = self.row_position(blob.attachment_id);
            let stays = if owner < self.rows.len() {
                proof {
                    assert(before.rows[owner as int] == self.rows@[owner as int]@);
                }
                self.rows[owner].message_id != message_id
            } else {
                false
            };
            if stays {
                let copy = Blob { attachment_id: blob.attachment_id, data: blob.data.clone() };
                proof {
                    assert(blob_models(blobs@.push(copy)) =~= blob_models(blobs@).push(copy@));
                }
                blobs.push(copy);
            }
            i += 1;
        }
        proof {
            assert(before.blobs.take(self.blobs.len() as int) =~= before.blobs);
        }
        // the attachments that stay
        let mut rows: Vec<Attachment> = Vec::new();
        let mut k: usize = 0;
        proof {
            assert(before.rows.take(0) =~= Seq::<AttachmentModel>::empty());
            lemma_retained_empty(of_other_message(message_id));
            assert(attachment_models(rows@) =~= Seq::<AttachmentModel>::empty());
        }
        while k < self.rows.len()
            invariant
                k <= self.rows.len(),
                before == self@,
                attachment_models(rows@) == retained(
                    before.rows.take(k as int),
                    of_other_message(message_id),
                ),
            decreases self.rows.len() - k,
        {
            let row = &self.rows[k];
            proof {
                assert(before.rows[k as int] == row@);
                assert(before.rows.take(k + 1) =~= before.rows.take(k as int).push(row@));
                lemma_retained_push(before.rows.take(k as int), of_other_message(message_id), row@);
            }
            if row.message_id != message_id {
                let copy = row.clone();
                proof {
                    assert(attachment_models(rows@.push(copy)) =~= attachment_models(rows@).push(
                        copy@,
                    ));
                }
                rows.push(copy);
            }
            k += 1;
        }
        proof {
            assert(before.rows.take(self.rows.len() as int) =~= before.rows);
        }
        self.rows = rows;
        self.blobs = blobs;
    }
}

/// The identifier of an attachment, as a function.
pub open spec fn attachment_ids() -> spec_fn(AttachmentModel) -> i64 {
    |a: AttachmentModel| a.id
}

/// Whether rows and blobs can be those of a table of attachments: the
/// identifiers are valid, and each blob belongs to one of the rows.
pub open spec fn restorable_attachments(rows: Seq<AttachmentModel>, blobs: Seq<BlobModel>) -> bool {
    &&& valid_ids(rows.map_values(attachment_ids()))
    &&& forall|i: int|
        0 <= i < blobs.len() ==> first_where(
            rows,
            is_attachment((#[trigger] blobs[i]).attachment_id),
        ) is Some
}

impl AttachmentTable {
    /// What is known of the attachments, in the order of the table.
    pub fn rows(&self) -> (r: &Vec<Attachment>)
        ensures
            attachment_models(r@) == self@.rows,
    {
        &self.rows
    }

    /// The content of the attachments, in the order of the table.
    pub fn blobs(&self) -> (r: &Vec<Blob>)
        ensures
            blob_models(r@) == self@.blobs,
    {
        &self.blobs
    }

    /// The table that holds `rows` and `blobs`; `None` where they cannot be
    /// those of a table.
    pub fn restore(rows: Vec<Attachment>, blobs: Vec<Blob>) -> (r: Option<AttachmentTable>)
        ensures
            match r {
                Some(t) => {
                    &&& restorable_attachments(attachment_models(rows@), blob_models(blobs@))
                    &&& t.wf()
                    &&& t@.rows == attachment_models(rows@)
                    &&& t@.blobs == blob_models(blobs@)
                    &&& t@.next_id == next_after(
                        attachment_models(rows@).map_values(attachment_ids()),
                    )
                },
                None => !restorable_attachments(attachment_models(rows@), blob_models(blobs@)),
            },
    {
        let ghost models = attachment_models(rows@);
        let mut ids: Vec<i64> = Vec::new();
        let mut i: usize = 0;
        while i < rows.len()
            invariant
                i <= rows.len(),
                ids.len() == i,
                forall|a: int| 0 <= a < i ==> #[trigger] ids@[a] == rows@[a].id,
            decreases rows.len() - i,
        {
            ids.push(rows[i].id);
            i += 1;
        }
        proof {
            assert(ids@ =~= models.map_values(attachment_ids()));
        }
        let next_id = match next_identifier(&ids) {
            Some(n) => n,
            None => {
                return None;
            },
        };
        let mut k: usize = 0;
        while k < blobs.len()
            invariant
                k <= blobs.len(),
                models == attachment_models(rows@),
                forall|a: int|
                    0 <= a < k ==> first_where(
                        models,
                        is_attachment((#[trigger] blob_models(blobs@)[a]).attachment_id),
                    ) is Some,
            decreases blobs.len() - k,
        {
            proof {
                assert(blob_models(blobs@)[k as int] == blobs@[k as int]@);
            }
            if !has_row(&rows, blobs[k].attachment_id) {
                proof {
                    let b = blob_models(blobs@)[k as int];
                    assert(first_where(models, is_attachment(b.attachment_id)) is None);
                }
                return None;
            }
            k += 1;
        }
        let t = AttachmentTable { rows, blobs, next_id };
        proof {
            assert(t@.rows == models);
            assert forall|a: int| 0 <= a < models.len() implies 1 <= (#[trigger] t@.rows[a]).id
                < t@.next_id by {
                assert(ids@[a] == models[a].id);
            }
        }
        Some(t)
    }
}

/// Whether `rows` hold an attachment with identifier `id`.
fn has_row(rows: &Vec<Attachment>, id: i64) -> (r: bool)
    ensures
        r == (first_where(attachment_models(rows@), is_attachment(id)) is Some),
{
    let ghost models = attachment_models(rows@);
    let mut i: usize = 0;
    while i < rows.len() && rows[i].id != id
        invariant
            i <= rows.len(),
            models == attachment_models(rows@),
            position(models, is_attachment(id), 0) == position(models, is_attachment(id), i as int),
        decreases rows.len() - i,
    {
        proof {
            assert(models[i as int] == rows@[i as int]@);
        }
        i += 1;
    }
    proof {
        if i < rows.len() {
            assert(models[i as int] == rows@[i as int]@);
        }
    }
    i < rows.len()
}

} // verus!
