//! The cache: every table of the store under one roof, and the operations
//! that the rest of the system asks of it.

use crate::attachments::{AttachmentTable, AttachmentTableModel};
use crate::contacts::{
    contact_models, everyone, header_entries, last_used_first, matching, most_used_first,
    opt_str_text, ContactBook, ContactBookModel, SEARCH_LIMIT,
};
use crate::error::{DEmailError, ErrorKind};
use crate::messages::{
    answering, header_models, in_folder, in_thread, message_models, newest_first, oldest_first,
    starred_in, MessageFilter, MessageOrder, MessageTable, MessageTableModel,
};
use crate::migrations::{apply_migrations, initialize_schema, known_migrations, base_items};
use crate::migrations::{SchemaModel, SchemaState};
use crate::models::{attachment_models, Contact, opt_text, Account, AccountModel, AppSetting, AppSettingModel, Attachment, Draft, DraftModel, EmailSignature, EmailSignatureModel, Folder, FolderModel, Message, MessageHeader, MessageModel, Thread};
use crate::ranking::{arrange_rows, arranged, indices, SortKey, SortKeyModel};
use crate::table::{
    changed, first_where, lemma_position, lemma_retained_empty, lemma_retained_push, next_after,
    next_identifier, position, retained, valid_ids,
};
use crate::attachments::{blob_models, restorable_attachments, Blob};
use crate::contacts::restorable_contacts;
use crate::messages::restorable;
use crate::migrations::{record_models, MigrationRecord, SchemaItem};
use crate::threading::{restorable_threads, thread_models};
use crate::text::{chars_of, str_equal};
use crate::threading::{thread_key, ThreadTable, ThreadTableModel};
use vstd::prelude::*;
use vstd::string::StringExecFns;

verus! {

/// The account with the address `email`.
pub open spec fn with_email(email: Seq<char>) -> spec_fn(AccountModel) -> bool {
    |a: AccountModel| a.email_address == email
}

/// The account with identifier `id`.
pub open spec fn is_account(id: i64) -> spec_fn(AccountModel) -> bool {
    |a: AccountModel| a.id == id
}

/// The accounts other than `id`.
pub open spec fn other_account(id: i64) -> spec_fn(AccountModel) -> bool {
    |a: AccountModel| a.id != id
}

/// The folder of `account_id` with the path `path`.
pub open spec fn is_folder(account_id: i64, path: Seq<char>) -> spec_fn(FolderModel) -> bool {
    |f: FolderModel| f.account_id == account_id && f.path == path
}

/// The folders of the account `account_id`.
pub open spec fn folder_of(account_id: i64) -> spec_fn(FolderModel) -> bool {
    |f: FolderModel| f.account_id == account_id
}

/// The folders of other accounts than `account_id`.
pub open spec fn folder_of_other(account_id: i64) -> spec_fn(FolderModel) -> bool {
    |f: FolderModel| f.account_id != account_id
}

/// The draft with identifier `id`.
pub open spec fn is_draft(id: i64) -> spec_fn(DraftModel) -> bool {
    |d: DraftModel| d.id == id
}

/// The drafts other than `id`.
pub open spec fn other_draft(id: i64) -> spec_fn(DraftModel) -> bool {
    |d: DraftModel| d.id != id
}

/// The drafts of the account `account_id`.
pub open spec fn draft_of(account_id: i64) -> spec_fn(DraftModel) -> bool {
    |d: DraftModel| d.account_id == account_id
}

/// The drafts of other accounts than `account_id`.
pub open spec fn draft_of_other(account_id: i64) -> spec_fn(DraftModel) -> bool {
    |d: DraftModel| d.account_id != account_id
}

/// Last changed first.
pub open spec fn last_changed_first() -> spec_fn(DraftModel) -> SortKeyModel {
    |d: DraftModel| SortKeyModel { major: d.updated_at, minor: 0, text: Seq::empty() }
}

/// The draft `d` with what can be edited taken from `from`, changed at
/// `now`.
pub open spec fn edited(from: DraftModel, now: i64) -> spec_fn(DraftModel) -> DraftModel {
    |d: DraftModel|
        DraftModel {
            to_addresses: from.to_addresses,
            cc_addresses: from.cc_addresses,
            bcc_addresses: from.bcc_addresses,
            subject: from.subject,
            body_plain: from.body_plain,
            body_html: from.body_html,
            updated_at: now,
            ..d
        }
}

/// The signature with identifier `id`.
pub open spec fn is_signature(id: i64) -> spec_fn(EmailSignatureModel) -> bool {
    |s: EmailSignatureModel| s.id == id
}

/// The signatures other than `id`.
pub open spec fn other_signature(id: i64) -> spec_fn(EmailSignatureModel) -> bool {
    |s: EmailSignatureModel| s.id != id
}

/// The signatures of the account `account_id`.
pub open spec fn signature_of(account_id: i64) -> spec_fn(EmailSignatureModel) -> bool {
    |s: EmailSignatureModel| s.account_id == account_id
}

/// The signatures of other accounts than `account_id`.
pub open spec fn signature_of_other(account_id: i64) -> spec_fn(EmailSignatureModel) -> bool {
    |s: EmailSignatureModel| s.account_id != account_id
}

/// A signature that is not the default.
pub open spec fn not_default() -> spec_fn(EmailSignatureModel) -> EmailSignatureModel {
    |s: EmailSignatureModel| EmailSignatureModel { is_default: false, ..s }
}

/// The signature `s` with what can be edited taken from `from`.
pub open spec fn rewritten(from: EmailSignatureModel) -> spec_fn(EmailSignatureModel) -> EmailSignatureModel {
    |s: EmailSignatureModel|
        EmailSignatureModel {
            name: from.name,
            content_html: from.content_html,
            content_plain: from.content_plain,
            is_default: from.is_default,
            ..s
        }
}

/// The default first, then by name.
pub open spec fn default_first() -> spec_fn(EmailSignatureModel) -> SortKeyModel {
    |s: EmailSignatureModel|
        SortKeyModel {
            major: if s.is_default {
                1
            } else {
                0
            },
            minor: 0,
            text: s.name,
        }
}

/// The setting with the key `key`.
pub open spec fn is_setting(key: Seq<char>) -> spec_fn(AppSettingModel) -> bool {
    |s: AppSettingModel| s.key == key
}

/// A setting with the value `value`.
pub open spec fn set_to(value: Seq<char>) -> spec_fn(AppSettingModel) -> AppSettingModel {
    |s: AppSettingModel| AppSettingModel { value, ..s }
}

/// The models of the accounts that a vector holds.
pub open spec fn account_models(v: Seq<Account>) -> Seq<AccountModel> {
    v.map_values(|a: Account| a@)
}

/// The models of the folders that a vector holds.
pub open spec fn folder_models(v: Seq<Folder>) -> Seq<FolderModel> {
    v.map_values(|f: Folder| f@)
}

/// The models of the drafts that a vector holds.
pub open spec fn draft_models(v: Seq<Draft>) -> Seq<DraftModel> {
    v.map_values(|d: Draft| d@)
}

/// The models of the signatures that a vector holds.
pub open spec fn signature_models(v: Seq<EmailSignature>) -> Seq<EmailSignatureModel> {
    v.map_values(|s: EmailSignature| s@)
}

/// The models of the settings that a vector holds.
pub open spec fn setting_models(v: Seq<AppSetting>) -> Seq<AppSettingModel> {
    v.map_values(|s: AppSetting| s@)
}

/// Everything that the cache holds.
pub struct CacheModel {
    pub accounts: Seq<AccountModel>,
    pub next_account_id: int,
    pub folders: Seq<FolderModel>,
    pub next_folder_id: int,
    pub messages: MessageTableModel,
    pub attachments: AttachmentTableModel,
    pub drafts: Seq<DraftModel>,
    pub next_draft_id: int,
    pub signatures: Seq<EmailSignatureModel>,
    pub next_signature_id: int,
    pub settings: Seq<AppSettingModel>,
    pub threads: ThreadTableModel,
    pub contacts: ContactBookModel,
    pub schema: SchemaModel,
}

impl CacheModel {
    /// Every table is well formed, and the identifiers of the accounts,
    /// folders, drafts and signatures start at 1 and lie below the next
    /// one.
    pub open spec fn wf(self) -> bool {
        &&& self.messages.wf()
        &&& self.attachments.wf()
        &&& self.threads.wf()
        &&& self.contacts.wf()
        &&& self.schema.wf()
        &&& 1 <= self.next_account_id <= i64::MAX
        &&& 1 <= self.next_folder_id <= i64::MAX
        &&& 1 <= self.next_draft_id <= i64::MAX
        &&& 1 <= self.next_signature_id <= i64::MAX
        &&& forall|i: int|
            0 <= i < self.accounts.len() ==> 1 <= (#[trigger] self.accounts[i]).id
                < self.next_account_id
        &&& forall|i: int|
            0 <= i < self.folders.len() ==> 1 <= (#[trigger] self.folders[i]).id
                < self.next_folder_id
        &&& forall|i: int|
            0 <= i < self.drafts.len() ==> 1 <= (#[trigger] self.drafts[i]).id < self.next_draft_id
        &&& forall|i: int|
            0 <= i < self.signatures.len() ==> 1 <= (#[trigger] self.signatures[i]).id
                < self.next_signature_id
    }

    /// The attachments after those of the messages `ids`, from index `from`
    /// on, were taken away.
    pub open spec fn attachments_without(t: AttachmentTableModel, ids: Seq<i64>, from: int) -> AttachmentTableModel
        decreases ids.len() - from,
    {
        if from < 0 || from >= ids.len() {
            t
        } else {
            Self::attachments_without(t.without_message(ids[from]), ids, from + 1)
        }
    }

    /// The cache without the account `account_id` and all that belongs to
    /// it: its folders, its messages with their attachments, its drafts,
    /// its signatures and its threads.
    pub open spec fn without_account(self, account_id: i64) -> CacheModel {
        CacheModel {
            accounts: retained(self.accounts, other_account(account_id)),
            folders: retained(self.folders, folder_of_other(account_id)),
            messages: self.messages.without_account(account_id),
            attachments: Self::attachments_without(
                self.attachments,
                self.messages.ids_of_account(account_id),
                0,
            ),
            drafts: retained(self.drafts, draft_of_other(account_id)),
            signatures: retained(self.signatures, signature_of_other(account_id)),
            threads: self.threads.without_account(account_id),
            ..self
        }
    }
}

/// The cache.
pub struct CacheStore {
    accounts: Vec<Account>,
    next_account_id: i64,
    folders: Vec<Folder>,
    next_folder_id: i64,
    messages: MessageTable,
    attachments: AttachmentTable,
    drafts: Vec<Draft>,
    next_draft_id: i64,
    signatures: Vec<EmailSignature>,
    next_signature_id: i64,
    settings: Vec<AppSetting>,
    threads: ThreadTable,
    contacts: ContactBook,
    schema: SchemaState,
}

impl View for CacheStore {
    type V = CacheModel;

    closed spec fn view(&self) -> CacheModel {
        CacheModel {
            accounts: account_models(self.accounts@),
            next_account_id: self.next_account_id as int,
            folders: folder_models(self.folders@),
            next_folder_id: self.next_folder_id as int,
            messages: self.messages@,
            attachments: self.attachments@,
            drafts: draft_models(self.drafts@),
            next_draft_id: self.next_draft_id as int,
            signatures: signature_models(self.signatures@),
            next_signature_id: self.next_signature_id as int,
            settings: setting_models(self.settings@),
            threads: self.threads@,
            contacts: self.contacts@,
            schema: self.schema@,
        }
    }
}

impl CacheStore {
    /// Whether the cache is well formed, as every cache made by
    /// [`Self::new`] and changed by the functions of this module is.
    pub open spec fn wf(&self) -> bool {
        self@.wf()
    }

    /// The empty cache, without a schema.
    pub fn new() -> (s: CacheStore)
        ensures
            s.wf(),
            s@.accounts.len() == 0,
            s@.folders.len() == 0,
            s@.messages.rows.len() == 0,
            s@.attachments.rows.len() == 0,
            s@.drafts.len() == 0,
            s@.signatures.len() == 0,
            s@.settings.len() == 0,
            s@.threads.rows.len() == 0,
            s@.contacts.rows.len() == 0,
            s@.schema.records.len() == 0,
    {
        CacheStore {
            accounts: Vec::new(),
            next_account_id: 1,
            folders: Vec::new(),
            next_folder_id: 1,
            messages: MessageTable::new(),
            attachments: AttachmentTable::new(),
            drafts: Vec::new(),
            next_draft_id: 1,
            signatures: Vec::new(),
            next_signature_id: 1,
            settings: Vec::new(),
            threads: ThreadTable::new(),
            contacts: ContactBook::new(),
            schema: SchemaState::new(),
        }
    }

    /// The table of messages.
    pub fn messages(&self) -> (r: &MessageTable)
        ensures
            r@ == self@.messages,
    {
        &self.messages
    }

    /// The table of attachments.
    pub fn attachments(&self) -> (r: &AttachmentTable)
        ensures
            r@ == self@.attachments,
    {
        &self.attachments
    }

    /// The table of threads.
    pub fn threads(&self) -> (r: &ThreadTable)
        ensures
            r@ == self@.threads,
    {
        &self.threads
    }

    /// The address book.
    pub fn contacts(&self) -> (r: &ContactBook)
        ensures
            r@ == self@.contacts,
    {
        &self.contacts
    }

    /// The schema and its ledger.
    pub fn schema(&self) -> (r: &SchemaState)
        ensures
            r@ == self@.schema,
    {
        &self.schema
    }
}

fn database_error<T>(detail: &str) -> (r: Result<T, DEmailError>)
    ensures
        r matches Err(e) && e@.kind == ErrorKind::Database && e@.detail == detail@,
{
    Err(DEmailError::Database(String::from_str(detail)))
}

/// Adds an account and returns it with its identifier. Fails with a
/// database error, and changes nothing, where an account has that address
/// or no identifier is left.
pub fn create_account(
    store: &mut CacheStore,
    email_address: &str,
    display_name: &str,
    provider_type: &str,
) -> (r: Result<Account, DEmailError>)
    requires
        old(store).wf(),
    ensures
        final(store).wf(),
        match r {
            Ok(a) => {
                &&& first_where(old(store)@.accounts, with_email(email_address@)) is None
                &&& a@ == (AccountModel {
                    id: old(store)@.next_account_id as i64,
                    email_address: email_address@,
                    display_name: display_name@,
                    provider_type: provider_type@,
                })
                &&& final(store)@ == (CacheModel {
                    accounts: old(store)@.accounts.push(a@),
                    next_account_id: old(store)@.next_account_id + 1,
                    ..old(store)@
                })
            },
            Err(e) => {
                &&& first_where(old(store)@.accounts, with_email(email_address@)) is Some
                    || old(store)@.next_account_id == i64::MAX
                &&& e@.kind == ErrorKind::Database
                &&& final(store)@ == old(store)@
            },
        },
{
    let mut i: usize = 0;
    while i < store.accounts.len() && !str_equal(store.accounts[i].email_address.as_str(), email_address)
        invariant
            i <= store.accounts.len(),
            position(store@.accounts, with_email(email_address@), 0) == position(
                store@.accounts,
                with_email(email_address@),
                i as int,
            ),
        decreases store.accounts.len() - i,
    {
        proof {
            assert(store@.accounts[i as int] == store.accounts@[i as int]@);
        }
        i += 1;
    }
    proof {
        if i < store.accounts.len() {
            assert(store@.accounts[i as int] == store.accounts@[i as int]@);
        }
    }
    if i < store.accounts.len() {
        return database_error("an account with this address exists");
    }
    if store.next_account_id == i64::MAX {
        return database_error("no account identifier is left");
    }
    let id = store.next_account_id;
    let made = Account {
        id,
        email_address: String::from_str(email_address),
        display_name: String::from_str(display_name),
        provider_type: String::from_str(provider_type),
    };
    let ghost before = store@;
    store.accounts.push(made.clone());
    store.next_account_id = id + 1;
    proof {
        assert(store@.accounts =~= before.accounts.push(made@));
        assert forall|k: int| 0 <= k < store@.accounts.len() implies 1 <= (
        #[trigger] store@.accounts[k]).id < store@.next_account_id by {
            if k < before.accounts.len() {
                assert(store@.accounts[k] == before.accounts[k]);
            }
        }
    }
    Ok(made)
}

/// The accounts, in the order in which they were added.
pub fn get_accounts(store: &CacheStore) -> (r: Result<Vec<Account>, DEmailError>)
    ensures
        r matches Ok(v) && account_models(v@) == store@.accounts,
{
    let mut v: Vec<Account> = Vec::new();
    let mut i: usize = 0;
    while i < store.accounts.len()
        invariant
            i <= store.accounts.len(),
            v.len() == i,
            forall|k: int| 0 <= k < i ==> (#[trigger] v@[k])@ == store.accounts@[k]@,
        decreases store.accounts.len() - i,
    {
        v.push(store.accounts[i].clone());
        i += 1;
    }
    proof {
        assert(account_models(v@) =~= store@.accounts);
    }
    Ok(v)
}

/// The account with identifier `account_id`.
pub fn get_account(store: &CacheStore, account_id: i64) -> (r: Option<Account>)
    ensures
        match r {
            Some(a) => first_where(store@.accounts, is_account(account_id)) == Some(a@),
            None => first_where(store@.accounts, is_account(account_id)) is None,
        },
{
    let mut i: usize = 0;
    while i < store.accounts.len() && store.accounts[i].id != account_id
        invariant
            i <= store.accounts.len(),
            position(store@.accounts, is_account(account_id), 0) == position(
                store@.accounts,
                is_account(account_id),
                i as int,
            ),
        decreases store.accounts.len() - i,
    {
        proof {
            assert(store@.accounts[i as int] == store.accounts@[i as int]@);
        }
        i += 1;
    }
    if i < store.accounts.len() {
        proof {
            assert(store@.accounts[i as int] == store.accounts@[i as int]@);
        }
        Some(store.accounts[i].clone())
    } else {
        None
    }
}

/// Caches a folder that was found on the server. A folder that the account
/// has under that path is not added again: `folder` gets its identifier.
/// Any other is added under the next identifier, which `folder` gets. Fails
/// with a database error, and changes nothing, where a folder is to be
/// added and no identifier is left.
pub fn save_folder(store: &mut CacheStore, folder: &mut Folder) -> (r: Result<(), DEmailError>)
    requires
        old(store).wf(),
    ensures
        final(store).wf(),
        match first_where(old(store)@.folders, is_folder(old(folder).account_id, old(folder).path@)) {
            Some(known) => {
                &&& r is Ok
                &&& final(store)@ == old(store)@
                &&& final(folder)@ == (FolderModel { id: known.id, ..old(folder)@ })
            },
            None => if old(store)@.next_folder_id < i64::MAX {
                &&& r is Ok
                &&& final(folder)@ == (FolderModel {
                    id: old(store)@.next_folder_id as i64,
                    ..old(folder)@
                })
                &&& final(store)@ == (CacheModel {
                    folders: old(store)@.folders.push(final(folder)@),
                    next_folder_id: old(store)@.next_folder_id + 1,
                    ..old(store)@
                })
            } else {
                &&& r matches Err(e) && e@.kind == ErrorKind::Database
                &&& final(store)@ == old(store)@
                &&& final(folder)@ == old(folder)@
            },
        },
{
    let ghost hit = is_folder(folder.account_id, folder.path@);
    let mut i: usize = 0;
    while i < store.folders.len() && !(store.folders[i].account_id == folder.account_id && str_equal(
        store.folders[i].path.as_str(),
        folder.path.as_str(),
    ))
        invariant
            i <= store.folders.len(),
            hit == is_folder(folder.account_id, folder.path@),
            position(store@.folders, hit, 0) == position(store@.folders, hit, i as int),
        decreases store.folders.len() - i,
    {
        proof {
            assert(store@.folders[i as int] == store.folders@[i as int]@);
        }
        i += 1;
    }
    if i < store.folders.len() {
        proof {
            assert(store@.folders[i as int] == store.folders@[i as int]@);
        }
        folder.id = store.folders[i].id;
        return Ok(());
    }
    if store.next_folder_id == i64::MAX {
        return database_error("no folder identifier is left");
    }
    let id = store.next_folder_id;
    folder.id = id;
    let ghost before = store@;
    store.folders.push(folder.clone());
    store.next_folder_id = id + 1;
    proof {
        assert(store@.folders =~= before.folders.push(folder@));
        assert forall|k: int| 0 <= k < store@.folders.len() implies 1 <= (
        #[trigger] store@.folders[k]).id < store@.next_folder_id by {
            if k < before.folders.len() {
                assert(store@.folders[k] == before.folders[k]);
            }
        }
    }
    Ok(())
}

/// The folders of the account `account_id`, in the order in which they were
/// cached.
pub fn get_folders(store: &CacheStore, account_id: i64) -> (r: Result<Vec<Folder>, DEmailError>)
    ensures
        r matches Ok(v) && folder_models(v@) == retained(store@.folders, folder_of(account_id)),
{
    let mut v: Vec<Folder> = Vec::new();
    let mut i: usize = 0;
    let ghost rows = store@.folders;
    proof {
        assert(rows.take(0) =~= Seq::<FolderModel>::empty());
        lemma_retained_empty(folder_of(account_id));
        assert(folder_models(v@) =~= Seq::<FolderModel>::empty());
    }
    while i < store.folders.len()
        invariant
            i <= store.folders.len(),
            rows == store@.folders,
            folder_models(v@) == retained(rows.take(i as int), folder_of(account_id)),
        decreases store.folders.len() - i,
    {
        let row = &store.folders[i];
        proof {
            assert(rows.take(i + 1) =~= rows.take(i as int).push(row@));
            lemma_retained_push(rows.take(i as int), folder_of(account_id), row@);
        }
        if row.account_id == account_id {
            let copy = row.clone();
            proof {
                assert(folder_models(v@.push(copy)) =~= folder_models(v@).push(copy@));
            }
            v.push(copy);
        }
        i += 1;
    }
    proof {
        assert(rows.take(store.folders.len() as int) =~= rows);
    }
    Ok(v)
}

/// Stores a setting: the value takes the place of the one that the key had,
/// or the setting is added.
pub fn save_setting(store: &mut CacheStore, key: &str, value: &str) -> (r: Result<(), DEmailError>)
    requires
        old(store).wf(),
    ensures
        final(store).wf(),
        r is Ok,
        final(store)@ == (CacheModel {
            settings: if first_where(old(store)@.settings, is_setting(key@)) is Some {
                changed(old(store)@.settings, is_setting(key@), set_to(value@))
            } else {
                old(store)@.settings.push(AppSettingModel { key: key@, value: value@ })
            },
            ..old(store)@
        }),
{
    let ghost before = store@;
    let mut found = false;
    let mut i: usize = 0;
    while i < store.settings.len()
        invariant
            i <= store.settings.len(),
            store.settings.len() == before.settings.len(),
            store@ == (CacheModel { settings: store@.settings, ..before }),
            found == exists|j: int| 0 <= j < i && (is_setting(key@))(#[trigger] before.settings[j]),
            forall|j: int|
                0 <= j < i ==> #[trigger] store@.settings[j] == changed(
                    before.settings,
                    is_setting(key@),
                    set_to(value@),
                )[j],
            forall|j: int| i <= j < store.settings.len() ==> #[trigger] store@.settings[j] == before.settings[j],
        decreases store.settings.len() - i,
    {
        proof {
            assert(store@.settings[i as int] == store.settings@[i as int]@);
            assert(store@.settings[i as int] == before.settings[i as int]);
        }
        if str_equal(store.settings[i].key.as_str(), key) {
            let row = AppSetting { key: store.settings[i].key.clone(), value: String::from_str(value) };
            let ghost prior = store@;
            store.settings.set(i, row);
            proof {
                assert(store@.settings =~= prior.settings.update(i as int, row@));
                assert((is_setting(key@))(before.settings[i as int]));
            }
            found = true;
        }
        i += 1;
    }
    proof {
        lemma_position(before.settings, is_setting(key@), 0);
    }
    if found {
        proof {
            assert(store@.settings =~= changed(before.settings, is_setting(key@), set_to(value@)));
            let j = choose|j: int|
                0 <= j < before.settings.len() && (is_setting(key@))(#[trigger] before.settings[j]);
            assert(position(before.settings, is_setting(key@), 0) <= j);
        }
    } else {
        proof {
            assert(store@.settings =~= before.settings);
            if position(before.settings, is_setting(key@), 0) < before.settings.len() {
                let p = position(before.settings, is_setting(key@), 0);
                assert((is_setting(key@))(before.settings[p]));
            }
        }
        let row = AppSetting { key: String::from_str(key), value: String::from_str(value) };
        store.settings.push(row);
        proof {
            assert(store@.settings =~= before.settings.push(row@));
        }
    }
    Ok(())
}

/// The value of the setting `key`, if it is set.
pub fn get_setting(store: &CacheStore, key: &str) -> (r: Result<Option<String>, DEmailError>)
    ensures
        r matches Ok(v) && match first_where(store@.settings, is_setting(key@)) {
            Some(s) => opt_text(v) == Some(s.value),
            None => v is None,
        },
{
    let mut i: usize = 0;
    while i < store.settings.len() && !str_equal(store.settings[i].key.as_str(), key)
        invariant
            i <= store.settings.len(),
            position(store@.settings, is_setting(key@), 0) == position(
                store@.settings,
                is_setting(key@),
                i as int,
            ),
        decreases store.settings.len() - i,
    {
        proof {
            assert(store@.settings[i as int] == store.settings@[i as int]@);
        }
        i += 1;
    }
    if i < store.settings.len() {
        proof {
            assert(store@.settings[i as int] == store.settings@[i as int]@);
        }
        Ok(Some(store.settings[i].value.clone()))
    } else {
        Ok(None)
    }
}

/// All settings, in the order in which they were first stored.
pub fn get_all_settings(store: &CacheStore) -> (r: Result<Vec<AppSetting>, DEmailError>)
    ensures
        r matches Ok(v) && setting_models(v@) == store@.settings,
{
    let mut v: Vec<AppSetting> = Vec::new();
    let mut i: usize = 0;
    while i < store.settings.len()
        invariant
            i <= store.settings.len(),
            v.len() == i,
            forall|k: int| 0 <= k < i ==> (#[trigger] v@[k])@ == store.settings@[k]@,
        decreases store.settings.len() - i,
    {
        v.push(store.settings[i].clone());
        i += 1;
    }
    proof {
        assert(setting_models(v@) =~= store@.settings);
    }
    Ok(v)
}

/// Applies `edit` of `from` to each draft with the identifier of `from`.
fn rewrite_drafts(drafts: &mut Vec<Draft>, from: &Draft, now: i64)
    ensures
        draft_models(final(drafts)@) == changed(
            draft_models(old(drafts)@),
            is_draft(from.id),
            edited(from@, now),
        ),
{
    let ghost before = draft_models(drafts@);
    let mut i: usize = 0;
    while i < drafts.len()
        invariant
            i <= drafts.len(),
            drafts.len() == before.len(),
            forall|j: int|
                0 <= j < i ==> #[trigger] draft_models(drafts@)[j] == changed(
                    before,
                    is_draft(from.id),
                    edited(from@, now),
                )[j],
            forall|j: int| i <= j < drafts.len() ==> #[trigger] draft_models(drafts@)[j] == before[j],
        decreases drafts.len() - i,
    {
        proof {
            assert(draft_models(drafts@)[i as int] == drafts@[i as int]@);
            assert(draft_models(drafts@)[i as int] == before[i as int]);
        }
        if drafts[i].id == from.id {
            let row = Draft {
                id: drafts[i].id,
                account_id: drafts[i].account_id,
                to_addresses: from.to_addresses.clone(),
                cc_addresses: from.cc_addresses.clone(),
                bcc_addresses: from.bcc_addresses.clone(),
                subject: from.subject.clone(),
                body_plain: from.body_plain.clone(),
                body_html: from.body_html.clone(),
                created_at: drafts[i].created_at,
                updated_at: now,
            };
            let ghost prior = draft_models(drafts@);
            drafts.set(i, row);
            proof {
                assert(draft_models(drafts@) =~= prior.update(i as int, row@));
            }
        }
        i += 1;
    }
    proof {
        assert(draft_models(drafts@) =~= changed(before, is_draft(from.id), edited(from@, now)));
    }
}

impl CacheModel {
    /// The cache after `draft` was saved at `now`, and the identifier of the
    /// draft; no change and `None` where the draft is new and no identifier
    /// is left.
    pub open spec fn with_draft(self, draft: DraftModel, now: i64) -> (CacheModel, Option<i64>) {
        if draft.id != 0 {
            (
                CacheModel {
                    drafts: changed(self.drafts, is_draft(draft.id), edited(draft, now)),
                    ..self
                },
                Some(draft.id),
            )
        } else if self.next_draft_id < i64::MAX {
            (
                CacheModel {
                    drafts: self.drafts.push(
                        DraftModel {
                            id: self.next_draft_id as i64,
                            created_at: now,
                            updated_at: now,
                            ..draft
                        },
                    ),
                    next_draft_id: self.next_draft_id + 1,
                    ..self
                },
                Some(self.next_draft_id as i64),
            )
        } else {
            (self, None)
        }
    }
}

/// Saves a draft at `now`. A draft with the identifier 0 is new: it is
/// added under the next identifier, made and changed at `now`. Any other
/// identifier names the draft whose addresses, subject and bodies are
/// replaced, and which was then changed at `now`; where the cache holds no
/// such draft nothing changes. Returns the identifier of the draft. Fails
/// with a database error, and changes nothing, where a draft is new and no
/// identifier is left.
pub fn save_draft(store: &mut CacheStore, draft: &Draft, now: i64) -> (r: Result<i64, DEmailError>)
    requires
        old(store).wf(),
    ensures
        final(store).wf(),
        final(store)@ == old(store)@.with_draft(draft@, now).0,
        match r {
            Ok(id) => old(store)@.with_draft(draft@, now).1 == Some(id),
            Err(e) => old(store)@.with_draft(draft@, now).1 is None && e@.kind
                == ErrorKind::Database,
        },
{
    let ghost before = store@;
    if draft.id == 0 {
        if store.next_draft_id == i64::MAX {
            return database_error("no draft identifier is left");
        }
        let id = store.next_draft_id;
        let row = Draft {
            id,
            account_id: draft.account_id,
            to_addresses: draft.to_addresses.clone(),
            cc_addresses: draft.cc_addresses.clone(),
            bcc_addresses: draft.bcc_addresses.clone(),
            subject: draft.subject.clone(),
            body_plain: draft.body_plain.clone(),
            body_html: draft.body_html.clone(),
            created_at: now,
            updated_at: now,
        };
        store.drafts.push(row);
        store.next_draft_id = id + 1;
        proof {
            assert(store@.drafts =~= before.drafts.push(row@));
            assert forall|k: int| 0 <= k < store@.drafts.len() implies 1 <= (
            #[trigger] store@.drafts[k]).id < store@.next_draft_id by {
                if k < before.drafts.len() {
                    assert(store@.drafts[k] == before.drafts[k]);
                }
            }
        }
        Ok(id)
    } else {
        rewrite_drafts(&mut store.drafts, draft, now);
        proof {
            assert forall|k: int| 0 <= k < store@.drafts.len() implies 1 <= (
            #[trigger] store@.drafts[k]).id < store@.next_draft_id by {
                assert(store@.drafts[k].id == before.drafts[k].id);
            }
        }
        Ok(draft.id)
    }
}

/// The drafts of the account `account_id`, the one that was changed last
/// first.
pub fn get_drafts(store: &CacheStore, account_id: i64) -> (r: Result<Vec<Draft>, DEmailError>)
    ensures
        r matches Ok(v) && draft_models(v@) == arranged(
            store@.drafts,
            draft_of(account_id),
            last_changed_first(),
            -1,
            0,
        ).map_values(|i: int| store@.drafts[i]),
{
    let mut kept: Vec<bool> = Vec::new();
    let mut keys: Vec<SortKey> = Vec::new();
    let mut i: usize = 0;
    while i < store.drafts.len()
        invariant
            i <= store.drafts.len(),
            kept.len() == i,
            keys.len() == i,
            forall|j: int| 0 <= j < i ==> #[trigger] kept@[j] == (draft_of(account_id))(store@.drafts[j]),
            forall|j: int| 0 <= j < i ==> (#[trigger] keys@[j])@ == (last_changed_first())(store@.drafts[j]),
        decreases store.drafts.len() - i,
    {
        let row = &store.drafts[i];
        proof {
            assert(store@.drafts[i as int] == row@);
        }
        kept.push(row.account_id == account_id);
        keys.push(SortKey { major: row.updated_at, minor: 0, text: Vec::new() });
        i += 1;
    }
    let shown = arrange_rows::<DraftModel>(
        Ghost(store@.drafts),
        Ghost(draft_of(account_id)),
        Ghost(last_changed_first()),
        &kept,
        &keys,
        -1,
        0,
    );
    let mut v: Vec<Draft> = Vec::new();
    let mut k: usize = 0;
    while k < shown.len()
        invariant
            k <= shown.len(),
            forall|j: int| 0 <= j < shown.len() ==> #[trigger] shown@[j] < store.drafts.len(),
            v.len() == k,
            forall|j: int| 0 <= j < k ==> (#[trigger] v@[j])@ == store@.drafts[shown@[j] as int],
        decreases shown.len() - k,
    {
        proof {
            assert(store@.drafts[shown@[k as int] as int] == store.drafts@[shown@[k as int] as int]@);
        }
        v.push(store.drafts[shown[k]].clone());
        k += 1;
    }
    proof {
        let want = arranged(store@.drafts, draft_of(account_id), last_changed_first(), -1, 0).map_values(
            |i: int| store@.drafts[i],
        );
        assert(draft_models(v@).len() == want.len());
        assert forall|j: int| 0 <= j < v.len() implies draft_models(v@)[j] == want[j] by {
            assert(indices(shown@)[j] == shown@[j]);
        }
        assert(draft_models(v@) =~= want);
    }
    Ok(v)
}

/// The drafts of `drafts` that `keep_account` or `keep_id` lets stay: those
/// of other accounts than `account_id` where `by_account` is set, those
/// with another identifier than `id` otherwise.
fn keep_drafts(drafts: &Vec<Draft>, by_account: bool, value: i64) -> (r: Vec<Draft>)
    ensures
        draft_models(r@) == retained(
            draft_models(drafts@),
            if by_account {
                draft_of_other(value)
            } else {
                other_draft(value)
            },
        ),
{
    let ghost keep = if by_account {
        draft_of_other(value)
    } else {
        other_draft(value)
    };
    let ghost rows = draft_models(drafts@);
    let mut r: Vec<Draft> = Vec::new();
    let mut i: usize = 0;
    proof {
        assert(rows.take(0) =~= Seq::<DraftModel>::empty());
        lemma_retained_empty(keep);
        assert(draft_models(r@) =~= Seq::<DraftModel>::empty());
    }
    while i < drafts.len()
        invariant
            i <= drafts.len(),
            rows == draft_models(drafts@),
            keep == if by_account {
                draft_of_other(value)
            } else {
                other_draft(value)
            },
            draft_models(r@) == retained(rows.take(i as int), keep),
        decreases drafts.len() - i,
    {
        let row = &drafts[i];
        proof {
            assert(rows.take(i + 1) =~= rows.take(i as int).push(row@));
            lemma_retained_push(rows.take(i as int), keep, row@);
        }
        let stays = if by_account {
            row.account_id != value
        } else {
            row.id != value
        };
        if stays {
            let copy = row.clone();
            proof {
                assert(draft_models(r@.push(copy)) =~= draft_models(r@).push(copy@));
            }
            r.push(copy);
        }
        i += 1;
    }
    proof {
        assert(rows.take(drafts.len() as int) =~= rows);
    }
    r
}

/// What is kept of rows lies among them, so their identifiers stay below
/// the next one.
proof fn lemma_kept_drafts_below(rows: Seq<DraftModel>, keep: spec_fn(DraftModel) -> bool, next: int)
    requires
        forall|i: int| 0 <= i < rows.len() ==> 1 <= (#[trigger] rows[i]).id < next,
    ensures
        forall|i: int|
            0 <= i < retained(rows, keep).len() ==> 1 <= (#[trigger] retained(rows, keep)[i]).id
                < next,
{
    crate::ranking::lemma_selected(rows, keep);
}

proof fn lemma_kept_signatures_below(
    rows: Seq<EmailSignatureModel>,
    keep: spec_fn(EmailSignatureModel) -> bool,
    next: int,
)
    requires
        forall|i: int| 0 <= i < rows.len() ==> 1 <= (#[trigger] rows[i]).id < next,
    ensures
        forall|i: int|
            0 <= i < retained(rows, keep).len() ==> 1 <= (#[trigger] retained(rows, keep)[i]).id
                < next,
{
    crate::ranking::lemma_selected(rows, keep);
}

proof fn lemma_kept_folders_below(rows: Seq<FolderModel>, keep: spec_fn(FolderModel) -> bool, next: int)
    requires
        forall|i: int| 0 <= i < rows.len() ==> 1 <= (#[trigger] rows[i]).id < next,
    ensures
        forall|i: int|
            0 <= i < retained(rows, keep).len() ==> 1 <= (#[trigger] retained(rows, keep)[i]).id
                < next,
{
    crate::ranking::lemma_selected(rows, keep);
}

proof fn lemma_kept_accounts_below(
    rows: Seq<AccountModel>,
    keep: spec_fn(AccountModel) -> bool,
    next: int,
)
    requires
        forall|i: int| 0 <= i < rows.len() ==> 1 <= (#[trigger] rows[i]).id < next,
    ensures
        forall|i: int|
            0 <= i < retained(rows, keep).len() ==> 1 <= (#[trigger] retained(rows, keep)[i]).id
                < next,
{
    crate::ranking::lemma_selected(rows, keep);
}

/// Deletes the draft `draft_id`.
pub fn delete_draft(store: &mut CacheStore, draft_id: i64) -> (r: Result<(), DEmailError>)
    requires
        old(store).wf(),
    ensures
        final(store).wf(),
        r is Ok,
        final(store)@ == (CacheModel {
            drafts: retained(old(store)@.drafts, other_draft(draft_id)),
            ..old(store)@
        }),
{
    proof {
        lemma_kept_drafts_below(store@.drafts, other_draft(draft_id), store@.next_draft_id);
    }
    let left = keep_drafts(&store.drafts, false, draft_id);
    store.drafts = left;
    Ok(())
}

/// Applies `change` to the signatures: with `clear` set, every signature of
/// the account of `from` stops being the default; otherwise the signature
/// with the identifier of `from` takes its name, its contents and whether
/// it is the default from `from`.
fn rewrite_signatures(signatures: &mut Vec<EmailSignature>, from: &EmailSignature, clear: bool)
    ensures
        signature_models(final(signatures)@) == if clear {
            changed(signature_models(old(signatures)@), signature_of(from.account_id), not_default())
        } else {
            changed(signature_models(old(signatures)@), is_signature(from.id), rewritten(from@))
        },
{
    let ghost before = signature_models(signatures@);
    let ghost want = if clear {
        changed(before, signature_of(from.account_id), not_default())
    } else {
        changed(before, is_signature(from.id), rewritten(from@))
    };
    let mut i: usize = 0;
    while i < signatures.len()
        invariant
            i <= signatures.len(),
            signatures.len() == before.len(),
            want == if clear {
                changed(before, signature_of(from.account_id), not_default())
            } else {
                changed(before, is_signature(from.id), rewritten(from@))
            },
            forall|j: int| 0 <= j < i ==> #[trigger] signature_models(signatures@)[j] == want[j],
            forall|j: int|
                i <= j < signatures.len() ==> #[trigger] signature_models(signatures@)[j]
                    == before[j],
        decreases signatures.len() - i,
    {
        proof {
            assert(signature_models(signatures@)[i as int] == signatures@[i as int]@);
            assert(signature_models(signatures@)[i as int] == before[i as int]);
        }
        let row = &signatures[i];
        let replaced: Option<EmailSignature> = if clear {
            if row.account_id == from.account_id {
                Some(
                    EmailSignature {
                        id: row.id,
                        account_id: row.account_id,
                        name: row.name.clone(),
                        content_html: row.content_html.clone(),
                        content_plain: row.content_plain.clone(),
                        is_default: false,
                    },
                )
            } else {
                None
            }
        } else if row.id == from.id {
            Some(
                EmailSignature {
                    id: row.id,
                    account_id: row.account_id,
                    name: from.name.clone(),
                    content_html: from.content_html.clone(),
                    content_plain: from.content_plain.clone(),
                    is_default: from.is_default,
                },
            )
        } else {
            None
        };
        match replaced {
            Some(new_row) => {
                let ghost prior = signature_models(signatures@);
                signatures.set(i, new_row);
                proof {
                    assert(signature_models(signatures@) =~= prior.update(i as int, new_row@));
                }
            },
            None => {},
        }
        i += 1;
    }
    proof {
        assert(signature_models(signatures@) =~= want);
    }
}

/// The signatures after `signature` was saved over `rows`.
pub open spec fn signatures_after(
    rows: Seq<EmailSignatureModel>,
    signature: EmailSignatureModel,
    next_id: int,
) -> Seq<EmailSignatureModel> {
    let cleared = if signature.is_default {
        changed(rows, signature_of(signature.account_id), not_default())
    } else {
        rows
    };
    if signature.id == 0 {
        cleared.push(EmailSignatureModel { id: next_id as i64, ..signature })
    } else {
        changed(cleared, is_signature(signature.id), rewritten(signature))
    }
}

/// Saves a signature. Where it is to be the default, the other signatures
/// of its account stop being the default. A signature with the identifier
/// 0 is new and is added under the next identifier; any other identifier
/// names the signature whose name and contents are replaced. Returns the
/// identifier of the signature. Fails with a database error, and changes
/// nothing, where a signature is new and no identifier is left.
pub fn save_signature(store: &mut CacheStore, signature: &EmailSignature) -> (r: Result<
    i64,
    DEmailError,
>)
    requires
        old(store).wf(),
    ensures
        final(store).wf(),
        if signature.id == 0 && old(store)@.next_signature_id == i64::MAX {
            &&& r matches Err(e) && e@.kind == ErrorKind::Database
            &&& final(store)@ == old(store)@
        } else {
            &&& r == Ok::<i64, DEmailError>(
                if signature.id == 0 {
                    old(store)@.next_signature_id as i64
                } else {
                    signature.id
                },
            )
            &&& final(store)@ == (CacheModel {
                signatures: signatures_after(
                    old(store)@.signatures,
                    signature@,
                    old(store)@.next_signature_id,
                ),
                next_signature_id: if signature.id == 0 {
                    old(store)@.next_signature_id + 1
                } else {
                    old(store)@.next_signature_id
                },
                ..old(store)@
            })
        },
{
    let ghost before = store@;
    if signature.id == 0 && store.next_signature_id == i64::MAX {
        return database_error("no signature identifier is left");
    }
    if signature.is_default {
        rewrite_signatures(&mut store.signatures, signature, true);
    }
    let ghost cleared = store@.signatures;
    proof {
        assert forall|k: int| 0 <= k < cleared.len() implies 1 <= (#[trigger] cleared[k]).id
            < before.next_signature_id by {
            assert(cleared[k].id == before.signatures[k].id);
        }
    }
    if signature.id == 0 {
        let id = store.next_signature_id;
        let row = EmailSignature {
            id,
            account_id: signature.account_id,
            name: signature.name.clone(),
            content_html: signature.content_html.clone(),
            content_plain: signature.content_plain.clone(),
            is_default: signature.is_default,
        };
        store.signatures.push(row);
        store.next_signature_id = id + 1;
        proof {
            assert(store@.signatures =~= cleared.push(row@));
            assert forall|k: int| 0 <= k < store@.signatures.len() implies 1 <= (
            #[trigger] store@.signatures[k]).id < store@.next_signature_id by {
                if k < cleared.len() {
                    assert(store@.signatures[k] == cleared[k]);
                }
            }
        }
        Ok(id)
    } else {
        rewrite_signatures(&mut store.signatures, signature, false);
        proof {
            assert forall|k: int| 0 <= k < store@.signatures.len() implies 1 <= (
            #[trigger] store@.signatures[k]).id < store@.next_signature_id by {
                assert(store@.signatures[k].id == cleared[k].id);
            }
        }
        Ok(signature.id)
    }
}

/// The signatures of the account `account_id`: the default first, the
/// others by name.
pub fn get_signatures(store: &CacheStore, account_id: i64) -> (r: Result<
    Vec<EmailSignature>,
    DEmailError,
>)
    ensures
        r matches Ok(v) && signature_models(v@) == arranged(
            store@.signatures,
            signature_of(account_id),
            default_first(),
            -1,
            0,
        ).map_values(|i: int| store@.signatures[i]),
{
    let mut kept: Vec<bool> = Vec::new();
    let mut keys: Vec<SortKey> = Vec::new();
    let mut i: usize = 0;
    while i < store.signatures.len()
        invariant
            i <= store.signatures.len(),
            kept.len() == i,
            keys.len() == i,
            forall|j: int|
                0 <= j < i ==> #[trigger] kept@[j] == (signature_of(account_id))(
                    store@.signatures[j],
                ),
            forall|j: int| 0 <= j < i ==> (#[trigger] keys@[j])@ == (default_first())(store@.signatures[j]),
        decreases store.signatures.len() - i,
    {
        let row = &store.signatures[i];
        proof {
            assert(store@.signatures[i as int] == row@);
        }
        kept.push(row.account_id == account_id);
        let major: i64 = if row.is_default {
            1
        } else {
            0
        };
        keys.push(SortKey { major, minor: 0, text: chars_of(row.name.as_str()) });
        i += 1;
    }
    let shown = arrange_rows::<EmailSignatureModel>(
        Ghost(store@.signatures),
        Ghost(signature_of(account_id)),
        Ghost(default_first()),
        &kept,
        &keys,
        -1,
        0,
    );
    let mut v: Vec<EmailSignature> = Vec::new();
    let mut k: usize = 0;
    while k < shown.len()
        invariant
            k <= shown.len(),
            forall|j: int| 0 <= j < shown.len() ==> #[trigger] shown@[j] < store.signatures.len(),
            v.len() == k,
            forall|j: int| 0 <= j < k ==> (#[trigger] v@[j])@ == store@.signatures[shown@[j] as int],
        decreases shown.len() - k,
    {
        proof {
            assert(store@.signatures[shown@[k as int] as int]
                == store.signatures@[shown@[k as int] as int]@);
        }
        v.push(store.signatures[shown[k]].clone());
        k += 1;
    }
    proof {
        let want = arranged(store@.signatures, signature_of(account_id), default_first(), -1, 0).map_values(
            |i: int| store@.signatures[i],
        );
        assert(signature_models(v@).len() == want.len());
        assert forall|j: int| 0 <= j < v.len() implies signature_models(v@)[j] == want[j] by {
            assert(indices(shown@)[j] == shown@[j]);
        }
        assert(signature_models(v@) =~= want);
    }
    Ok(v)
}

fn keep_signatures(signatures: &Vec<EmailSignature>, by_account: bool, value: i64) -> (r: Vec<
    EmailSignature,
>)
    ensures
        signature_models(r@) == retained(
            signature_models(signatures@),
            if by_account {
                signature_of_other(value)
            } else {
                other_signature(value)
            },
        ),
{
    let ghost keep = if by_account {
        signature_of_other(value)
    } else {
        other_signature(value)
    };
    let ghost rows = signature_models(signatures@);
    let mut r: Vec<EmailSignature> = Vec::new();
    let mut i: usize = 0;
    proof {
        assert(rows.take(0) =~= Seq::<EmailSignatureModel>::empty());
        lemma_retained_empty(keep);
        assert(signature_models(r@) =~= Seq::<EmailSignatureModel>::empty());
    }
    while i < signatures.len()
        invariant
            i <= signatures.len(),
            rows == signature_models(signatures@),
            keep == if by_account {
                signature_of_other(value)
            } else {
                other_signature(value)
            },
            signature_models(r@) == retained(rows.take(i as int), keep),
        decreases signatures.len() - i,
    {
        let row = &signatures[i];
        proof {
            assert(rows.take(i + 1) =~= rows.take(i as int).push(row@));
            lemma_retained_push(rows.take(i as int), keep, row@);
        }
        let stays = if by_account {
            row.account_id != value
        } else {
            row.id != value
        };
        if stays {
            let copy = row.clone();
            proof {
                assert(signature_models(r@.push(copy)) =~= signature_models(r@).push(copy@));
            }
            r.push(copy);
        }
        i += 1;
    }
    proof {
        assert(rows.take(signatures.len() as int) =~= rows);
    }
    r
}

/// Deletes the signature `signature_id`.
pub fn delete_signature(store: &mut CacheStore, signature_id: i64) -> (r: Result<(), DEmailError>)
    requires
        old(store).wf(),
    ensures
        final(store).wf(),
        r is Ok,
        final(store)@ == (CacheModel {
            signatures: retained(old(store)@.signatures, other_signature(signature_id)),
            ..old(store)@
        }),
{
    proof {
        lemma_kept_signatures_below(
            store@.signatures,
            other_signature(signature_id),
            store@.next_signature_id,
        );
    }
    let left = keep_signatures(&store.signatures, false, signature_id);
    store.signatures = left;
    Ok(())
}

/// Saves a message that was fetched from the server, under its account,
/// folder and UID: synchronizing it again replaces its row and adds none.
/// The HTML body is stored sanitized. Returns the identifier of the row.
/// Fails with a database error, and changes nothing, where the message is
/// new and no identifier is left.
pub fn save_message(store: &mut CacheStore, message: &Message) -> (r: Result<i64, DEmailError>)
    requires
        old(store).wf(),
    ensures
        final(store).wf(),
        final(store)@ == (CacheModel {
            messages: old(store)@.messages.upsert(message@).0,
            ..old(store)@
        }),
        match r {
            Ok(id) => old(store)@.messages.upsert(message@).1 == Some(id),
            Err(e) => old(store)@.messages.upsert(message@).1 is None && e@
                == crate::messages::no_identifier_left(),
        },
{
    store.messages.save(message)
}

fn one(id: i64) -> (r: Vec<i64>)
    ensures
        r@ == seq![id],
{
    let mut r: Vec<i64> = Vec::new();
    r.push(id);
    r
}

/// Marks the message `message_id` as read, or as unread.
pub fn update_message_read_status(store: &mut CacheStore, message_id: i64, is_read: bool) -> (r:
    Result<(), DEmailError>)
    requires
        old(store).wf(),
    ensures
        final(store).wf(),
        r is Ok,
        final(store)@ == (CacheModel {
            messages: old(store)@.messages.mark_read(seq![message_id], is_read),
            ..old(store)@
        }),
{
    store.messages.mark_read(&one(message_id), is_read);
    Ok(())
}

/// Stars the message `message_id`.
pub fn star_message(store: &mut CacheStore, message_id: i64) -> (r: Result<(), DEmailError>)
    requires
        old(store).wf(),
    ensures
        final(store).wf(),
        r is Ok,
        final(store)@ == (CacheModel {
            messages: old(store)@.messages.mark_starred(seq![message_id], true),
            ..old(store)@
        }),
{
    store.messages.mark_starred(&one(message_id), true);
    Ok(())
}

/// Takes the star of the message `message_id` away.
pub fn unstar_message(store: &mut CacheStore, message_id: i64) -> (r: Result<(), DEmailError>)
    requires
        old(store).wf(),
    ensures
        final(store).wf(),
        r is Ok,
        final(store)@ == (CacheModel {
            messages: old(store)@.messages.mark_starred(seq![message_id], false),
            ..old(store)@
        }),
{
    store.messages.mark_starred(&one(message_id), false);
    Ok(())
}

/// Marks the messages `message_ids` as read.
pub fn bulk_mark_read(store: &mut CacheStore, message_ids: &Vec<i64>) -> (r: Result<(), DEmailError>)
    requires
        old(store).wf(),
    ensures
        final(store).wf(),
        r is Ok,
        final(store)@ == (CacheModel {
            messages: old(store)@.messages.mark_read(message_ids@, true),
            ..old(store)@
        }),
{
    store.messages.mark_read(message_ids, true);
    Ok(())
}

/// Marks the messages `message_ids` as unread.
pub fn bulk_mark_unread(store: &mut CacheStore, message_ids: &Vec<i64>) -> (r: Result<
    (),
    DEmailError,
>)
    requires
        old(store).wf(),
    ensures
        final(store).wf(),
        r is Ok,
        final(store)@ == (CacheModel {
            messages: old(store)@.messages.mark_read(message_ids@, false),
            ..old(store)@
        }),
{
    store.messages.mark_read(message_ids, false);
    Ok(())
}

/// Stars the messages `message_ids`.
pub fn bulk_star_messages(store: &mut CacheStore, message_ids: &Vec<i64>) -> (r: Result<
    (),
    DEmailError,
>)
    requires
        old(store).wf(),
    ensures
        final(store).wf(),
        r is Ok,
        final(store)@ == (CacheModel {
            messages: old(store)@.messages.mark_starred(message_ids@, true),
            ..old(store)@
        }),
{
    store.messages.mark_starred(message_ids, true);
    Ok(())
}

/// Takes the stars of the messages `message_ids` away.
pub fn bulk_unstar_messages(store: &mut CacheStore, message_ids: &Vec<i64>) -> (r: Result<
    (),
    DEmailError,
>)
    requires
        old(store).wf(),
    ensures
        final(store).wf(),
        r is Ok,
        final(store)@ == (CacheModel {
            messages: old(store)@.messages.mark_starred(message_ids@, false),
            ..old(store)@
        }),
{
    store.messages.mark_starred(message_ids, false);
    Ok(())
}

/// Taking attachments away keeps their table well formed.
proof fn lemma_attachments_without_wf(t: AttachmentTableModel, ids: Seq<i64>, from: int)
    requires
        t.wf(),
        0 <= from <= ids.len(),
    ensures
        CacheModel::attachments_without(t, ids, from).wf(),
    decreases ids.len() - from,
{
    if from < ids.len() {
        crate::attachments::lemma_without_message_wf(t, ids[from]);
        lemma_attachments_without_wf(t.without_message(ids[from]), ids, from + 1);
    }
}

/// Takes away the attachments of the messages `ids`.
fn remove_attachments_of(attachments: &mut AttachmentTable, ids: &Vec<i64>)
    requires
        old(attachments).wf(),
    ensures
        final(attachments).wf(),
        final(attachments)@ == CacheModel::attachments_without(old(attachments)@, ids@, 0),
{
    let mut i: usize = 0;
    while i < ids.len()
        invariant
            i <= ids.len(),
            attachments.wf(),
            CacheModel::attachments_without(old(attachments)@, ids@, 0)
                == CacheModel::attachments_without(attachments@, ids@, i as int),
        decreases ids.len() - i,
    {
        attachments.remove_for_message(ids[i]);
        i += 1;
    }
}

/// Deletes the message `message_id` with its index entry, its attachments
/// and their content. Its thread stays as it is.
pub fn delete_message(store: &mut CacheStore, message_id: i64) -> (r: Result<(), DEmailError>)
    requires
        old(store).wf(),
    ensures
        final(store).wf(),
        r is Ok,
        final(store)@ == (CacheModel {
            messages: old(store)@.messages.remove(message_id),
            attachments: old(store)@.attachments.without_message(message_id),
            ..old(store)@
        }),
{
    store.messages.remove(message_id);
    store.attachments.remove_for_message(message_id);
    Ok(())
}

/// Deletes the messages `message_ids` with their index entries, their
/// attachments and the content of those.
pub fn bulk_delete_messages(store: &mut CacheStore, message_ids: &Vec<i64>) -> (r: Result<
    (),
    DEmailError,
>)
    requires
        old(store).wf(),
    ensures
        final(store).wf(),
        r is Ok,
        final(store)@ == (CacheModel {
            messages: old(store)@.messages.remove_all(message_ids@, 0),
            attachments: CacheModel::attachments_without(
                old(store)@.attachments,
                message_ids@,
                0,
            ),
            ..old(store)@
        }),
{
    store.messages.remove_many(message_ids);
    remove_attachments_of(&mut store.attachments, message_ids);
    Ok(())
}

/// Moves the message `message_id` to the folder `target_folder_id`. Fails
/// with a database error, and changes nothing, where another message of
/// its account has its UID in that folder.
pub fn move_message(store: &mut CacheStore, message_id: i64, target_folder_id: i64) -> (r: Result<
    (),
    DEmailError,
>)
    requires
        old(store).wf(),
    ensures
        final(store).wf(),
        r is Ok == old(store)@.messages.can_move(message_id, target_folder_id),
        r is Ok ==> final(store)@ == (CacheModel {
            messages: old(store)@.messages.move_to(message_id, target_folder_id),
            ..old(store)@
        }),
        r matches Err(e) ==> final(store)@ == old(store)@ && e@.kind == ErrorKind::Database,
{
    store.messages.move_to(message_id, target_folder_id)
}

/// One page of the messages of a folder, the newest first: `limit` headers
/// at most, after the first `offset`.
pub fn get_messages_paginated(store: &CacheStore, folder_id: i64, limit: i64, offset: i64) -> (r:
    Result<Vec<MessageHeader>, DEmailError>)
    requires
        store.wf(),
    ensures
        r matches Ok(v) && header_models(v@) == store@.messages.listing(
            in_folder(folder_id),
            newest_first(),
            limit as int,
            offset as int,
        ),
{
    Ok(
        store.messages.list(
            &MessageFilter::InFolder(folder_id),
            MessageOrder::NewestFirst,
            limit,
            offset,
        ),
    )
}

/// The messages of a folder, the newest first.
pub fn get_messages(store: &CacheStore, folder_id: i64) -> (r: Result<
    Vec<MessageHeader>,
    DEmailError,
>)
    requires
        store.wf(),
    ensures
        r matches Ok(v) && header_models(v@) == store@.messages.listing(
            in_folder(folder_id),
            newest_first(),
            -1,
            0,
        ),
{
    Ok(store.messages.list(&MessageFilter::InFolder(folder_id), MessageOrder::NewestFirst, -1, 0))
}

/// The starred messages of an account, the newest first.
pub fn get_starred_messages(store: &CacheStore, account_id: i64) -> (r: Result<
    Vec<MessageHeader>,
    DEmailError,
>)
    requires
        store.wf(),
    ensures
        r matches Ok(v) && header_models(v@) == store@.messages.listing(
            starred_in(account_id),
            newest_first(),
            -1,
            0,
        ),
{
    Ok(
        store.messages.list(
            &MessageFilter::StarredIn(account_id),
            MessageOrder::NewestFirst,
            -1,
            0,
        ),
    )
}

/// The messages of an account that the text index finds for `query`, the
/// newest first: those that hold each word of the query in their subject,
/// sender, recipients or plain body, as written or with both in lower case.
/// A query without a word finds nothing.
pub fn search_messages_fts(store: &CacheStore, account_id: i64, query: &str) -> (r: Result<
    Vec<MessageHeader>,
    DEmailError,
>)
    requires
        store.wf(),
    ensures
        r matches Ok(v) && header_models(v@) == store@.messages.listing(
            answering(account_id, query@),
            newest_first(),
            -1,
            0,
        ),
{
    let filter = MessageFilter::search(account_id, query);
    Ok(store.messages.list(&filter, MessageOrder::NewestFirst, -1, 0))
}

/// The number of messages in a folder, held at the largest number that the
/// result can be.
pub fn count_messages_in_folder(store: &CacheStore, folder_id: i64) -> (r: Result<i64, DEmailError>)
    requires
        store.wf(),
    ensures
        r matches Ok(n) && n == if store@.messages.count_in_folder(folder_id) <= i64::MAX {
            store@.messages.count_in_folder(folder_id) as i64
        } else {
            i64::MAX
        },
{
    let n: usize = store.messages.count_in_folder(folder_id);
    if n as u64 > i64::MAX as u64 {
        Ok(i64::MAX)
    } else {
        Ok(n as i64)
    }
}

/// The message `message_id` in full, with what is known of its attachments.
/// Fails with a database error where the cache holds no such message.
pub fn get_message_details(store: &CacheStore, message_id: i64) -> (r: Result<Message, DEmailError>)
    requires
        store.wf(),
    ensures
        match r {
            Ok(m) => store@.messages.get(message_id) matches Some(row) && m@ == (MessageModel {
                attachments: store@.attachments.for_message(message_id),
                ..row
            }),
            Err(e) => store@.messages.get(message_id) is None && e@.kind == ErrorKind::Database,
        },
{
    match store.messages.get(message_id) {
        Some(mut m) => {
            m.attachments = store.attachments.get_attachments_for_message(message_id);
            Ok(m)
        },
        None => database_error("no such message"),
    }
}

/// Adds what is known of an attachment and returns its identifier.
pub fn save_attachment(store: &mut CacheStore, attachment: &Attachment) -> (r: Result<
    i64,
    DEmailError,
>)
    requires
        old(store).wf(),
    ensures
        final(store).wf(),
        final(store)@ == (CacheModel {
            attachments: old(store)@.attachments.insert(attachment@).0,
            ..old(store)@
        }),
        match r {
            Ok(id) => old(store)@.attachments.insert(attachment@).1 == Some(id),
            Err(e) => old(store)@.attachments.insert(attachment@).1 is None && e@.kind
                == ErrorKind::Database,
        },
{
    store.attachments.save_attachment(attachment)
}

/// Stores the content of the attachment `attachment_id`, in place of what
/// it had. Fails with a database error, and changes nothing, where the
/// cache holds no such attachment.
pub fn save_attachment_data(store: &mut CacheStore, attachment_id: i64, data: &[u8]) -> (r: Result<
    (),
    DEmailError,
>)
    requires
        old(store).wf(),
    ensures
        final(store).wf(),
        final(store)@ == (CacheModel {
            attachments: old(store)@.attachments.put_blob(attachment_id, data@),
            ..old(store)@
        }),
        r is Ok == old(store)@.attachments.has(attachment_id),
        r matches Err(e) ==> e@.kind == ErrorKind::Database,
{
    store.attachments.save_attachment_data(attachment_id, data)
}

/// Stores the content of the attachment `attachment_id`.
pub fn store_attachment_data(store: &mut CacheStore, attachment_id: i64, data: Vec<u8>) -> (r:
    Result<(), DEmailError>)
    requires
        old(store).wf(),
    ensures
        final(store).wf(),
        final(store)@ == (CacheModel {
            attachments: old(store)@.attachments.put_blob(attachment_id, data@),
            ..old(store)@
        }),
        r is Ok == old(store)@.attachments.has(attachment_id),
        r matches Err(e) ==> e@.kind == ErrorKind::Database,
{
    store.attachments.save_attachment_data(attachment_id, data.as_slice())
}

/// What is known of the attachments of the message `message_id`.
pub fn get_attachments_for_message(store: &CacheStore, message_id: i64) -> (r: Result<
    Vec<Attachment>,
    DEmailError,
>)
    ensures
        r matches Ok(v) && attachment_models(v@) == store@.attachments.for_message(message_id),
{
    Ok(store.attachments.get_attachments_for_message(message_id))
}

/// The content of the attachment `attachment_id`, if it has any.
pub fn get_attachment_data(store: &CacheStore, attachment_id: i64) -> (r: Result<
    Option<Vec<u8>>,
    DEmailError,
>)
    ensures
        r matches Ok(d) && match d {
            Some(bytes) => store@.attachments.blob(attachment_id) == Some(bytes@),
            None => store@.attachments.blob(attachment_id) is None,
        },
{
    Ok(store.attachments.get_attachment_data(attachment_id))
}

/// Puts a message into its thread: the thread of its account whose key is
/// the hash of the normal form of its subject, which is made where the
/// account has none. The message is linked to the thread. Returns the
/// identifier of the thread. Fails with a database error, and changes
/// nothing, where a thread is to be made and no identifier is left.
pub fn create_or_update_thread(store: &mut CacheStore, message: &Message, now: i64) -> (r: Result<
    i64,
    DEmailError,
>)
    requires
        old(store).wf(),
    ensures
        final(store).wf(),
        ({
            let (threads, id) = old(store)@.threads.classify(
                message.account_id,
                thread_key(message.subject@),
                message.id,
                now,
            );
            match r {
                Ok(t) => id == Some(t) && final(store)@ == (CacheModel {
                    threads,
                    messages: old(store)@.messages.link_thread(message.id, t),
                    ..old(store)@
                }),
                Err(e) => id is None && final(store)@ == old(store)@ && e@.kind
                    == ErrorKind::Database,
            }
        }),
{
    match store.threads.classify(message.account_id, message.subject.as_str(), message.id, now) {
        Ok(t) => {
            store.messages.link_thread(message.id, t);
            Ok(t)
        },
        Err(e) => Err(e),
    }
}

/// The messages of the thread `thread_id` in full, the oldest first.
pub fn get_thread_messages(store: &CacheStore, thread_id: i64) -> (r: Result<
    Vec<Message>,
    DEmailError,
>)
    requires
        store.wf(),
    ensures
        r matches Ok(v) && message_models(v@) == store@.messages.records(
            in_thread(thread_id),
            oldest_first(),
        ),
{
    Ok(store.messages.collect(&MessageFilter::InThread(thread_id), MessageOrder::OldestFirst))
}

/// The thread `thread_id`. Fails with a database error where the cache
/// holds no such thread.
pub fn get_thread(store: &CacheStore, thread_id: i64) -> (r: Result<Thread, DEmailError>)
    requires
        store.wf(),
    ensures
        match r {
            Ok(t) => store@.threads.get(thread_id) == Some(t@),
            Err(e) => store@.threads.get(thread_id) is None && e@.kind == ErrorKind::Database,
        },
{
    match store.threads.get(thread_id) {
        Some(t) => Ok(t),
        None => database_error("no such thread"),
    }
}

/// Records the addresses of a message's sender, recipients and those in
/// copy in the address book, as seen at `now`.
pub fn extract_and_save_contacts(
    store: &mut CacheStore,
    from: &str,
    to: &str,
    cc: Option<&str>,
    now: i64,
) -> (r: Result<(), DEmailError>)
    requires
        old(store).wf(),
    ensures
        final(store).wf(),
        final(store)@ == (CacheModel {
            contacts: old(store)@.contacts.observe_entries(
                header_entries(from@, to@, opt_str_text(cc)),
                0,
                now,
            ).0,
            ..old(store)@
        }),
        r is Ok == old(store)@.contacts.observe_entries(
            header_entries(from@, to@, opt_str_text(cc)),
            0,
            now,
        ).1,
        r matches Err(e) ==> e@.kind == ErrorKind::Database,
{
    store.contacts.extract_and_save_contacts(from, to, cc, now)
}

/// The contacts whose address or name holds `query`: the twenty that were
/// used most.
pub fn search_contacts(store: &CacheStore, query: &str) -> (r: Result<Vec<Contact>, DEmailError>)
    ensures
        r matches Ok(v) && contact_models(v@) == store@.contacts.listing(
            matching(query@),
            most_used_first(),
            SEARCH_LIMIT as int,
        ),
{
    store.contacts.search_contacts(query)
}

/// The `limit` contacts that were used last.
pub fn get_recent_contacts(store: &CacheStore, limit: i64) -> (r: Result<Vec<Contact>, DEmailError>)
    ensures
        r matches Ok(v) && contact_models(v@) == store@.contacts.listing(
            everyone(),
            last_used_first(),
            limit as int,
        ),
{
    store.contacts.get_recent_contacts(limit)
}

/// The `limit` contacts that were used most.
pub fn get_frequent_contacts(store: &CacheStore, limit: i64) -> (r: Result<
    Vec<Contact>,
    DEmailError,
>)
    ensures
        r matches Ok(v) && contact_models(v@) == store@.contacts.listing(
            everyone(),
            most_used_first(),
            limit as int,
        ),
{
    store.contacts.get_frequent_contacts(limit)
}

fn keep_folders(folders: &Vec<Folder>, account_id: i64) -> (r: Vec<Folder>)
    ensures
        folder_models(r@) == retained(folder_models(folders@), folder_of_other(account_id)),
{
    let ghost keep = folder_of_other(account_id);
    let ghost rows = folder_models(folders@);
    let mut r: Vec<Folder> = Vec::new();
    let mut i: usize = 0;
    proof {
        assert(rows.take(0) =~= Seq::<FolderModel>::empty());
        lemma_retained_empty(keep);
        assert(folder_models(r@) =~= Seq::<FolderModel>::empty());
    }
    while i < folders.len()
        invariant
            i <= folders.len(),
            rows == folder_models(folders@),
            keep == folder_of_other(account_id),
            folder_models(r@) == retained(rows.take(i as int), keep),
        decreases folders.len() - i,
    {
        let row = &folders[i];
        proof {
            assert(rows.take(i + 1) =~= rows.take(i as int).push(row@));
            lemma_retained_push(rows.take(i as int), keep, row@);
        }
        if row.account_id != account_id {
            let copy = row.clone();
            proof {
                assert(folder_models(r@.push(copy)) =~= folder_models(r@).push(copy@));
            }
            r.push(copy);
        }
        i += 1;
    }
    proof {
        assert(rows.take(folders.len() as int) =~= rows);
    }
    r
}

fn keep_accounts(accounts: &Vec<Account>, account_id: i64) -> (r: Vec<Account>)
    ensures
        account_models(r@) == retained(account_models(accounts@), other_account(account_id)),
{
    let ghost keep = other_account(account_id);
    let ghost rows = account_models(accounts@);
    let mut r: Vec<Account> = Vec::new();
    let mut i: usize = 0;
    proof {
        assert(rows.take(0) =~= Seq::<AccountModel>::empty());
        lemma_retained_empty(keep);
        assert(account_models(r@) =~= Seq::<AccountModel>::empty());
    }
    while i < accounts.len()
        invariant
            i <= accounts.len(),
            rows == account_models(accounts@),
            keep == other_account(account_id),
            account_models(r@) == retained(rows.take(i as int), keep),
        decreases accounts.len() - i,
    {
        let row = &accounts[i];
        proof {
            assert(rows.take(i + 1) =~= rows.take(i as int).push(row@));
            lemma_retained_push(rows.take(i as int), keep, row@);
        }
        if row.id != account_id {
            let copy = row.clone();
            proof {
                assert(account_models(r@.push(copy)) =~= account_models(r@).push(copy@));
            }
            r.push(copy);
        }
        i += 1;
    }
    proof {
        assert(rows.take(accounts.len() as int) =~= rows);
    }
    r
}

/// Deletes the account `account_id` and all that belongs to it: its
/// folders, its messages with their index entries and attachments, its
/// drafts, its signatures and its threads. The address book and the
/// settings stay.
pub fn delete_account(store: &mut CacheStore, account_id: i64) -> (r: Result<(), DEmailError>)
    requires
        old(store).wf(),
    ensures
        final(store).wf(),
        r is Ok,
        final(store)@ == old(store)@.without_account(account_id),
{
    let ghost before = store@;
    proof {
        lemma_kept_accounts_below(before.accounts, other_account(account_id), before.next_account_id);
        lemma_kept_folders_below(before.folders, folder_of_other(account_id), before.next_folder_id);
        lemma_kept_drafts_below(before.drafts, draft_of_other(account_id), before.next_draft_id);
        lemma_kept_signatures_below(
            before.signatures,
            signature_of_other(account_id),
            before.next_signature_id,
        );
    }
    let ids = store.messages.ids_of_account(account_id);
    remove_attachments_of(&mut store.attachments, &ids);
    store.messages.remove_account(account_id);
    store.threads.remove_account(account_id);
    let accounts = keep_accounts(&store.accounts, account_id);
    store.accounts = accounts;
    let folders = keep_folders(&store.folders, account_id);
    store.folders = folders;
    let drafts = keep_drafts(&store.drafts, true, account_id);
    store.drafts = drafts;
    let signatures = keep_signatures(&store.signatures, true, account_id);
    store.signatures = signatures;
    Ok(())
}

/// Brings the schema of the cache up to date, at `now`: makes sure that
/// every object of a new installation is there, then applies the migrations
/// that are pending.
pub fn initialize_database(store: &mut CacheStore, now: i64) -> (r: Result<(), DEmailError>)
    requires
        old(store).wf(),
    ensures
        final(store).wf(),
        r is Ok,
        final(store)@ == (CacheModel {
            schema: old(store)@.schema.with_items(base_items()).migrate(known_migrations(), now),
            ..old(store)@
        }),
{
    initialize_schema(&mut store.schema);
    apply_migrations(&mut store.schema, now)
}

/// Adds an attachment together with its content: both are there
/// afterwards, or, where no identifier is left, neither.
pub fn store_attachment(store: &mut CacheStore, attachment: &Attachment, data: &[u8]) -> (r: Result<
    i64,
    DEmailError,
>)
    requires
        old(store).wf(),
    ensures
        final(store).wf(),
        final(store)@ == (CacheModel {
            attachments: old(store)@.attachments.store(attachment@, data@).0,
            ..old(store)@
        }),
        match r {
            Ok(id) => old(store)@.attachments.store(attachment@, data@).1 == Some(id),
            Err(e) => old(store)@.attachments.store(attachment@, data@).1 is None && e@.kind
                == ErrorKind::Database,
        },
{
    store.attachments.store_attachment(attachment, data)
}

/// Takes away the attachments of the message `message_id`, with their
/// content.
pub fn remove_attachments_for_message(store: &mut CacheStore, message_id: i64)
    requires
        old(store).wf(),
    ensures
        final(store).wf(),
        final(store)@ == (CacheModel {
            attachments: old(store)@.attachments.without_message(message_id),
            ..old(store)@
        }),
{
    store.attachments.remove_for_message(message_id);
}

/// The identifier of the thread that a message of `account_id` with the
/// subject `subject` belongs to, if the account has that thread.
pub fn find_thread(store: &CacheStore, account_id: i64, subject: &str) -> (r: Option<i64>)
    requires
        store.wf(),
    ensures
        r == store@.threads.thread_for(account_id, thread_key(subject@)),
{
    store.threads.thread_for(account_id, subject)
}

/// Links the message `message_id` to the thread `thread_id`, which stays as
/// it is.
pub fn link_message_to_thread(store: &mut CacheStore, message_id: i64, thread_id: i64)
    requires
        old(store).wf(),
    ensures
        final(store).wf(),
        final(store)@ == (CacheModel {
            messages: old(store)@.messages.link_thread(message_id, thread_id),
            ..old(store)@
        }),
{
    store.messages.link_thread(message_id, thread_id);
}

/// Whether the cache holds a message of the account and the folder with
/// the UID `uid`.
pub fn knows_message(store: &CacheStore, account_id: i64, folder_id: i64, uid: u32) -> (r: bool)
    requires
        store.wf(),
    ensures
        r == (store@.messages.find_key(account_id, folder_id, uid) is Some),
{
    store.messages.knows(account_id, folder_id, uid)
}

/// The rows of every table of a cache, as they are kept on disk.
pub struct CacheSnapshot {
    pub accounts: Vec<Account>,
    pub folders: Vec<Folder>,
    pub messages: Vec<Message>,
    pub attachments: Vec<Attachment>,
    pub blobs: Vec<Blob>,
    pub drafts: Vec<Draft>,
    pub signatures: Vec<EmailSignature>,
    pub settings: Vec<AppSetting>,
    pub threads: Vec<Thread>,
    pub contacts: Vec<Contact>,
    pub schema_items: Vec<SchemaItem>,
    pub migrations: Vec<MigrationRecord>,
}

/// The identifiers of the accounts.
pub open spec fn account_ids(rows: Seq<AccountModel>) -> Seq<i64> {
    rows.map_values(|a: AccountModel| a.id)
}

/// The identifiers of the folders.
pub open spec fn folder_ids(rows: Seq<FolderModel>) -> Seq<i64> {
    rows.map_values(|f: FolderModel| f.id)
}

/// The identifiers of the drafts.
pub open spec fn draft_ids(rows: Seq<DraftModel>) -> Seq<i64> {
    rows.map_values(|d: DraftModel| d.id)
}

/// The identifiers of the signatures.
pub open spec fn signature_ids(rows: Seq<EmailSignatureModel>) -> Seq<i64> {
    rows.map_values(|s: EmailSignatureModel| s.id)
}

impl CacheSnapshot {
    /// Whether the rows can be those of a cache: in every table the
    /// identifiers are valid, and the rows of the messages, the
    /// attachments, the threads, the contacts and the ledger can be those
    /// of their tables.
    pub open spec fn restorable(&self) -> bool {
        &&& valid_ids(account_ids(account_models(self.accounts@)))
        &&& valid_ids(folder_ids(folder_models(self.folders@)))
        &&& valid_ids(draft_ids(draft_models(self.drafts@)))
        &&& valid_ids(signature_ids(signature_models(self.signatures@)))
        &&& restorable(message_models(self.messages@))
        &&& restorable_attachments(attachment_models(self.attachments@), blob_models(self.blobs@))
        &&& restorable_threads(thread_models(self.threads@))
        &&& restorable_contacts(contact_models(self.contacts@))
        &&& (SchemaModel {
            items: self.schema_items@.to_set(),
            records: record_models(self.migrations@),
        }).wf()
    }
}

fn next_account_id(rows: &Vec<Account>) -> (r: Option<i64>)
    ensures
        match r {
            Some(n) => valid_ids(account_ids(account_models(rows@))) && n == next_after(
                account_ids(account_models(rows@)),
            ) && 1 <= n <= i64::MAX
                && forall|i: int| 0 <= i < rows.len() ==> 1 <= (#[trigger] rows@[i]).id < n,
            None => !valid_ids(account_ids(account_models(rows@))),
        },
{
    let mut ids: Vec<i64> = Vec::new();
    let mut i: usize = 0;
    while i < rows.len()
        invariant
            i <= rows.len(),
            ids.len() == i,
            forall|a: int| 0 <= a < i ==> #[trigger] ids@[a] == rows@[a].id,
        decreases rows.len() - i,
    {
        ids.push(rows[i].id);
        i += 1;
    }
    proof {
        assert(ids@ =~= account_ids(account_models(rows@)));
    }
    let r = next_identifier(&ids);
    proof {
        if r is Some {
            assert forall|k: int| 0 <= k < rows.len() implies 1 <= (#[trigger] rows@[k]).id < r.unwrap() by {
                assert(ids@[k] == rows@[k].id);
            }
        }
    }
    r
}

fn next_folder_id(rows: &Vec<Folder>) -> (r: Option<i64>)
    ensures
        match r {
            Some(n) => valid_ids(folder_ids(folder_models(rows@))) && n == next_after(
                folder_ids(folder_models(rows@)),
            ) && 1 <= n <= i64::MAX
                && forall|i: int| 0 <= i < rows.len() ==> 1 <= (#[trigger] rows@[i]).id < n,
            None => !valid_ids(folder_ids(folder_models(rows@))),
        },
{
    let mut ids: Vec<i64> = Vec::new();
    let mut i: usize = 0;
    while i < rows.len()
        invariant
            i <= rows.len(),
            ids.len() == i,
            forall|a: int| 0 <= a < i ==> #[trigger] ids@[a] == rows@[a].id,
        decreases rows.len() - i,
    {
        ids.push(rows[i].id);
        i += 1;
    }
    proof {
        assert(ids@ =~= folder_ids(folder_models(rows@)));
    }
    let r = next_identifier(&ids);
    proof {
        if r is Some {
            assert forall|k: int| 0 <= k < rows.len() implies 1 <= (#[trigger] rows@[k]).id < r.unwrap() by {
                assert(ids@[k] == rows@[k].id);
            }
        }
    }
    r
}

fn next_draft_id(rows: &Vec<Draft>) -> (r: Option<i64>)
    ensures
        match r {
            Some(n) => valid_ids(draft_ids(draft_models(rows@))) && n == next_after(
                draft_ids(draft_models(rows@)),
            ) && 1 <= n <= i64::MAX && forall|
                i: int,
            |
                0 <= i < rows.len() ==> 1 <= (#[trigger] rows@[i]).id < n,
            None => !valid_ids(draft_ids(draft_models(rows@))),
        },
{
    let mut ids: Vec<i64> = Vec::new();
    let mut i: usize = 0;
    while i < rows.len()
        invariant
            i <= rows.len(),
            ids.len() == i,
            forall|a: int| 0 <= a < i ==> #[trigger] ids@[a] == rows@[a].id,
        decreases rows.len() - i,
    {
        ids.push(rows[i].id);
        i += 1;
    }
    proof {
        assert(ids@ =~= draft_ids(draft_models(rows@)));
    }
    let r = next_identifier(&ids);
    proof {
        if r is Some {
            assert forall|k: int| 0 <= k < rows.len() implies 1 <= (#[trigger] rows@[k]).id < r.unwrap() by {
                assert(ids@[k] == rows@[k].id);
            }
        }
    }
    r
}

fn next_signature_id(rows: &Vec<EmailSignature>) -> (r: Option<i64>)
    ensures
        match r {
            Some(n) => valid_ids(signature_ids(signature_models(rows@))) && n == next_after(
                signature_ids(signature_models(rows@)),
            ) && 1 <= n <= i64::MAX
                && forall|i: int| 0 <= i < rows.len() ==> 1 <= (#[trigger] rows@[i]).id < n,
            None => !valid_ids(signature_ids(signature_models(rows@))),
        },
{
    let mut ids: Vec<i64> = Vec::new();
    let mut i: usize = 0;
    while i < rows.len()
        invariant
            i <= rows.len(),
            ids.len() == i,
            forall|a: int| 0 <= a < i ==> #[trigger] ids@[a] == rows@[a].id,
        decreases rows.len() - i,
    {
        ids.push(rows[i].id);
        i += 1;
    }
    proof {
        assert(ids@ =~= signature_ids(signature_models(rows@)));
    }
    let r = next_identifier(&ids);
    proof {
        if r is Some {
            assert forall|k: int| 0 <= k < rows.len() implies 1 <= (#[trigger] rows@[k]).id < r.unwrap() by {
                assert(ids@[k] == rows@[k].id);
            }
        }
    }
    r
}

impl CacheStore {
    /// The accounts, in the order in which they were added.
    pub fn accounts(&self) -> (r: &Vec<Account>)
        ensures
            account_models(r@) == self@.accounts,
    {
        &self.accounts
    }

    /// The folders, in the order in which they were cached.
    pub fn folders(&self) -> (r: &Vec<Folder>)
        ensures
            folder_models(r@) == self@.folders,
    {
        &self.folders
    }

    /// The drafts, in the order in which they were added.
    pub fn drafts(&self) -> (r: &Vec<Draft>)
        ensures
            draft_models(r@) == self@.drafts,
    {
        &self.drafts
    }

    /// The signatures, in the order in which they were added.
    pub fn signatures(&self) -> (r: &Vec<EmailSignature>)
        ensures
            signature_models(r@) == self@.signatures,
    {
        &self.signatures
    }

    /// The settings, in the order in which they were first stored.
    pub fn settings(&self) -> (r: &Vec<AppSetting>)
        ensures
            setting_models(r@) == self@.settings,
    {
        &self.settings
    }

    /// The cache that holds the rows of `snapshot`; in each table the next new
    /// row gets the identifier after the largest. Fails with a database
    /// error where the rows break a constraint: an identifier that is not
    /// valid or occurs twice, two messages with one account, folder and
    /// UID, two threads of an account with one key, two contacts with one
    /// address, content without its attachment, or a version that stands in
    /// the ledger twice.
    pub fn restore(snapshot: CacheSnapshot) -> (r: Result<CacheStore, DEmailError>)
        ensures
            r is Ok == snapshot.restorable(),
            r matches Err(e) ==> e@.kind == ErrorKind::Database,
            r matches Ok(s) ==> {
                &&& s.wf()
                &&& s@.accounts == account_models(snapshot.accounts@)
                &&& s@.folders == folder_models(snapshot.folders@)
                &&& s@.messages.rows == message_models(snapshot.messages@)
                &&& s@.attachments.rows == attachment_models(snapshot.attachments@)
                &&& s@.attachments.blobs == blob_models(snapshot.blobs@)
                &&& s@.drafts == draft_models(snapshot.drafts@)
                &&& s@.signatures == signature_models(snapshot.signatures@)
                &&& s@.settings == setting_models(snapshot.settings@)
                &&& s@.threads.rows == thread_models(snapshot.threads@)
                &&& s@.contacts.rows == contact_models(snapshot.contacts@)
                &&& s@.schema.items == snapshot.schema_items@.to_set()
                &&& s@.schema.records == record_models(snapshot.migrations@)
                &&& s@.next_account_id == next_after(
                    account_ids(account_models(snapshot.accounts@)),
                )
                &&& s@.next_folder_id == next_after(folder_ids(folder_models(snapshot.folders@)))
                &&& s@.next_draft_id == next_after(draft_ids(draft_models(snapshot.drafts@)))
                &&& s@.next_signature_id == next_after(
                    signature_ids(signature_models(snapshot.signatures@)),
                )
                &&& s@.messages.next_id == next_after(
                    message_models(snapshot.messages@).map_values(crate::messages::identifiers()),
                )
                &&& s@.attachments.next_id == next_after(
                    attachment_models(snapshot.attachments@).map_values(
                        crate::attachments::attachment_ids(),
                    ),
                )
                &&& s@.threads.next_id == next_after(
                    thread_models(snapshot.threads@).map_values(crate::threading::thread_ids()),
                )
                &&& s@.contacts.next_id == next_after(
                    contact_models(snapshot.contacts@).map_values(crate::contacts::contact_ids()),
                )
            },
    {
        let next_account_id = match next_account_id(&snapshot.accounts) {
            Some(n) => n,
            None => {
                return database_error("the accounts break a constraint");
            },
        };
        let next_folder_id = match next_folder_id(&snapshot.folders) {
            Some(n) => n,
            None => {
                return database_error("the folders break a constraint");
            },
        };
        let next_draft_id = match next_draft_id(&snapshot.drafts) {
            Some(n) => n,
            None => {
                return database_error("the drafts break a constraint");
            },
        };
        let next_signature_id = match next_signature_id(&snapshot.signatures) {
            Some(n) => n,
            None => {
                return database_error("the signatures break a constraint");
            },
        };
        let messages = match MessageTable::restore(snapshot.messages) {
            Some(t) => t,
            None => {
                return database_error("the messages break a constraint");
            },
        };
        let attachments = match AttachmentTable::restore(snapshot.attachments, snapshot.blobs) {
            Some(t) => t,
            None => {
                return database_error("the attachments break a constraint");
            },
        };
        let threads = match ThreadTable::restore(snapshot.threads) {
            Some(t) => t,
            None => {
                return database_error("the threads break a constraint");
            },
        };
        let contacts = match ContactBook::restore(snapshot.contacts) {
            Some(t) => t,
            None => {
                return database_error("the contacts break a constraint");
            },
        };
        let schema = match SchemaState::restore(snapshot.schema_items, snapshot.migrations) {
            Some(t) => t,
            None => {
                return database_error("the ledger breaks a constraint");
            },
        };
        let s = CacheStore {
            accounts: snapshot.accounts,
            next_account_id,
            folders: snapshot.folders,
            next_folder_id,
            messages,
            attachments,
            drafts: snapshot.drafts,
            next_draft_id,
            signatures: snapshot.signatures,
            next_signature_id,
            settings: snapshot.settings,
            threads,
            contacts,
            schema,
        };
        proof {
            assert forall|i: int| 0 <= i < s@.accounts.len() implies 1 <= (
            #[trigger] s@.accounts[i]).id < s@.next_account_id by {
                assert(s@.accounts[i] == s.accounts@[i]@);
            }
            assert forall|i: int| 0 <= i < s@.folders.len() implies 1 <= (
            #[trigger] s@.folders[i]).id < s@.next_folder_id by {
                assert(s@.folders[i] == s.folders@[i]@);
            }
            assert forall|i: int| 0 <= i < s@.drafts.len() implies 1 <= (#[trigger] s@.drafts[i]).id
                < s@.next_draft_id by {
                assert(s@.drafts[i] == s.drafts@[i]@);
            }
            assert forall|i: int| 0 <= i < s@.signatures.len() implies 1 <= (
            #[trigger] s@.signatures[i]).id < s@.next_signature_id by {
                assert(s@.signatures[i] == s.signatures@[i]@);
            }
        }
        Ok(s)
    }
}

} // verus!
