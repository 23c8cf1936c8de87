//! The records that the cache holds.

use vstd::prelude::*;

verus! {

/// A mail account: the root that folders, messages, drafts and signatures
/// belong to.
#[derive(Debug)]
pub struct Account {
    pub id: i64,
    pub email_address: String,
    pub display_name: String,
    pub provider_type: String,
}

/// A mailbox of an account, named by its path on the server.
#[derive(Debug)]
pub struct Folder {
    pub id: i64,
    pub account_id: i64,
    pub name: String,
    pub path: String,
    pub parent_id: Option<i64>,
}

/// What a message list shows of a message.
#[derive(Debug)]
pub struct MessageHeader {
    pub id: i64,
    pub subject: String,
    pub from: String,
    pub date: i64,
    pub is_read: bool,
    pub has_attachments: bool,
    pub is_starred: bool,
}

/// A message of a folder. The server knows it by the folder and `imap_uid`.
#[derive(Debug)]
pub struct Message {
    pub id: i64,
    pub account_id: i64,
    pub folder_id: i64,
    pub imap_uid: u32,
    pub message_id_header: String,
    pub from_header: String,
    pub to_header: String,
    pub cc_header: Option<String>,
    pub subject: String,
    pub date: i64,
    pub body_plain: Option<String>,
    pub body_html: Option<String>,
    pub has_attachments: bool,
    pub is_read: bool,
    pub is_starred: bool,
    pub thread_id: Option<i64>,
    pub attachments: Vec<Attachment>,
}

/// What is known of an attachment apart from its content.
#[derive(Debug)]
pub struct Attachment {
    pub id: i64,
    pub message_id: i64,
    pub filename: String,
    pub mime_type: String,
    pub size_bytes: i64,
    pub local_path: Option<String>,
}

/// The credentials of this application at one provider.
#[derive(Debug)]
pub struct OAuthProviderConfig {
    pub client_id: String,
    pub client_secret: String,
}

/// A message being written.
#[derive(Debug)]
pub struct Draft {
    pub id: i64,
    pub account_id: i64,
    pub to_addresses: String,
    pub cc_addresses: Option<String>,
    pub bcc_addresses: Option<String>,
    pub subject: String,
    pub body_plain: Option<String>,
    pub body_html: Option<String>,
    pub created_at: i64,
    pub updated_at: i64,
}

/// A signature of an account.
#[derive(Debug)]
pub struct EmailSignature {
    pub id: i64,
    pub account_id: i64,
    pub name: String,
    pub content_html: String,
    pub content_plain: String,
    pub is_default: bool,
}

/// One setting of the application.
#[derive(Debug)]
pub struct AppSetting {
    pub key: String,
    pub value: String,
}

/// A conversation: the messages of one account whose subjects have the same
/// normal form.
#[derive(Debug)]
pub struct Thread {
    pub id: i64,
    pub subject_hash: String,
    pub first_message_id: i64,
    pub last_message_id: i64,
    pub message_count: i64,
    pub account_id: i64,
    pub created_at: i64,
    pub updated_at: i64,
}

/// An address seen in the mail, with how often and when it was last seen.
#[derive(Debug)]
pub struct Contact {
    pub id: i64,
    pub email: String,
    pub name: Option<String>,
    pub last_used: i64,
    pub use_count: i64,
}

/// The text of an optional string.
pub open spec fn opt_text(o: Option<String>) -> Option<Seq<char>> {
    match o {
        Some(s) => Some(s@),
        None => None,
    }
}

/// The models of the attachments that `v` holds.
pub open spec fn attachment_models(v: Seq<Attachment>) -> Seq<AttachmentModel> {
    v.map_values(|a: Attachment| a@)
}

/// The mathematical model of [`Account`]: its fields, with text as sequences of
/// characters.
pub struct AccountModel {
    pub id: i64,
    pub email_address: Seq<char>,
    pub display_name: Seq<char>,
    pub provider_type: Seq<char>,
}

impl View for Account {
    type V = AccountModel;

    open spec fn view(&self) -> AccountModel {
        AccountModel {
            id: self.id,
            email_address: self.email_address@,
            display_name: self.display_name@,
            provider_type: self.provider_type@,
        }
    }
}

/// The mathematical model of [`Folder`]: its fields, with text as sequences of
/// characters.
pub struct FolderModel {
    pub id: i64,
    pub account_id: i64,
    pub name: Seq<char>,
    pub path: Seq<char>,
    pub parent_id: Option<i64>,
}

impl View for Folder {
    type V = FolderModel;

    open spec fn view(&self) -> FolderModel {
        FolderModel {
            id: self.id,
            account_id: self.account_id,
            name: self.name@,
            path: self.path@,
            parent_id: self.parent_id,
        }
    }
}

/// The mathematical model of [`MessageHeader`]: its fields, with text as sequences of
/// characters.
pub struct MessageHeaderModel {
    pub id: i64,
    pub subject: Seq<char>,
    pub from: Seq<char>,
    pub date: i64,
    pub is_read: bool,
    pub has_attachments: bool,
    pub is_starred: bool,
}

impl View for MessageHeader {
    type V = MessageHeaderModel;

    open spec fn view(&self) -> MessageHeaderModel {
        MessageHeaderModel {
            id: self.id,
            subject: self.subject@,
            from: self.from@,
            date: self.date,
            is_read: self.is_read,
            has_attachments: self.has_attachments,
            is_starred: self.is_starred,
        }
    }
}

/// The mathematical model of [`Message`]: its fields, with text as sequences of
/// characters.
pub struct MessageModel {
    pub id: i64,
    pub account_id: i64,
    pub folder_id: i64,
    pub imap_uid: u32,
    pub message_id_header: Seq<char>,
    pub from_header: Seq<char>,
    pub to_header: Seq<char>,
    pub cc_header: Option<Seq<char>>,
    pub subject: Seq<char>,
    pub date: i64,
    pub body_plain: Option<Seq<char>>,
    pub body_html: Option<Seq<char>>,
    pub has_attachments: bool,
    pub is_read: bool,
    pub is_starred: bool,
    pub thread_id: Option<i64>,
    pub attachments: Seq<AttachmentModel>,
}

impl View for Message {
    type V = MessageModel;

    open spec fn view(&self) -> MessageModel {
        MessageModel {
            id: self.id,
            account_id: self.account_id,
            folder_id: self.folder_id,
            imap_uid: self.imap_uid,
            message_id_header: self.message_id_header@,
            from_header: self.from_header@,
            to_header: self.to_header@,
            cc_header: opt_text(self.cc_header),
            subject: self.subject@,
            date: self.date,
            body_plain: opt_text(self.body_plain),
            body_html: opt_text(self.body_html),
            has_attachments: self.has_attachments,
            is_read: self.is_read,
            is_starred: self.is_starred,
            thread_id: self.thread_id,
            attachments: attachment_models(self.attachments@),
        }
    }
}

/// The mathematical model of [`Attachment`]: its fields, with text as sequences of
/// characters.
pub struct AttachmentModel {
    pub id: i64,
    pub message_id: i64,
    pub filename: Seq<char>,
    pub mime_type: Seq<char>,
    pub size_bytes: i64,
    pub local_path: Option<Seq<char>>,
}

impl View for Attachment {
    type V = AttachmentModel;

    open spec fn view(&self) -> AttachmentModel {
        AttachmentModel {
            id: self.id,
            message_id: self.message_id,
            filename: self.filename@,
            mime_type: self.mime_type@,
            size_bytes: self.size_bytes,
            local_path: opt_text(self.local_path),
        }
    }
}

/// The mathematical model of [`OAuthProviderConfig`]: its fields, with text as sequences of
/// characters.
pub struct OAuthProviderConfigModel {
    pub client_id: Seq<char>,
    pub client_secret: Seq<char>,
}

impl View for OAuthProviderConfig {
    type V = OAuthProviderConfigModel;

    open spec fn view(&self) -> OAuthProviderConfigModel {
        OAuthProviderConfigModel {
            client_id: self.client_id@,
            client_secret: self.client_secret@,
        }
    }
}

/// The mathematical model of [`Draft`]: its fields, with text as sequences of
/// characters.
pub struct DraftModel {
    pub id: i64,
    pub account_id: i64,
    pub to_addresses: Seq<char>,
    pub cc_addresses: Option<Seq<char>>,
    pub bcc_addresses: Option<Seq<char>>,
    pub subject: Seq<char>,
    pub body_plain: Option<Seq<char>>,
    pub body_html: Option<Seq<char>>,
    pub created_at: i64,
    pub updated_at: i64,
}

impl View for Draft {
    type V = DraftModel;

    open spec fn view(&self) -> DraftModel {
        DraftModel {
            id: self.id,
            account_id: self.account_id,
            to_addresses: self.to_addresses@,
            cc_addresses: opt_text(self.cc_addresses),
            bcc_addresses: opt_text(self.bcc_addresses),
            subject: self.subject@,
            body_plain: opt_text(self.body_plain),
            body_html: opt_text(self.body_html),
            created_at: self.created_at,
            updated_at: self.updated_at,
        }
    }
}

/// The mathematical model of [`EmailSignature`]: its fields, with text as sequences of
/// characters.
pub struct EmailSignatureModel {
    pub id: i64,
    pub account_id: i64,
    pub name: Seq<char>,
    pub content_html: Seq<char>,
    pub content_plain: Seq<char>,
    pub is_default: bool,
}

impl View for EmailSignature {
    type V = EmailSignatureModel;

    open spec fn view(&self) -> EmailSignatureModel {
        EmailSignatureModel {
            id: self.id,
            account_id: self.account_id,
            name: self.name@,
            content_html: self.content_html@,
            content_plain: self.content_plain@,
            is_default: self.is_default,
        }
    }
}

/// The mathematical model of [`AppSetting`]: its fields, with text as sequences of
/// characters.
pub struct AppSettingModel {
    pub key: Seq<char>,
    pub value: Seq<char>,
}

impl View for AppSetting {
    type V = AppSettingModel;

    open spec fn view(&self) -> AppSettingModel {
        AppSettingModel {
            key: self.key@,
            value: self.value@,
        }
    }
}

/// The mathematical model of [`Thread`]: its fields, with text as sequences of
/// characters.
pub struct ThreadModel {
    pub id: i64,
    pub subject_hash: Seq<char>,
    pub first_message_id: i64,
    pub last_message_id: i64,
    pub message_count: i64,
    pub account_id: i64,
    pub created_at: i64,
    pub updated_at: i64,
}

impl View for Thread {
    type V = ThreadModel;

    open spec fn view(&self) -> ThreadModel {
        ThreadModel {
            id: self.id,
            subject_hash: self.subject_hash@,
            first_message_id: self.first_message_id,
            last_message_id: self.last_message_id,
            message_count: self.message_count,
            account_id: self.account_id,
            created_at: self.created_at,
            updated_at: self.updated_at,
        }
    }
}

/// The mathematical model of [`Contact`]: its fields, with text as sequences of
/// characters.
pub struct ContactModel {
    pub id: i64,
    pub email: Seq<char>,
    pub name: Option<Seq<char>>,
    pub last_used: i64,
    pub use_count: i64,
}

impl View for Contact {
    type V = ContactModel;

    open spec fn view(&self) -> ContactModel {
        ContactModel {
            id: self.id,
            email: self.email@,
            name: opt_text(self.name),
            last_used: self.last_used,
            use_count: self.use_count,
        }
    }
}

impl Clone for Account {
    fn clone(&self) -> (s: Self)
        ensures
            s == *self,
    {
        Account {
            id: self.id,
            email_address: self.email_address.clone(),
            display_name: self.display_name.clone(),
            provider_type: self.provider_type.clone(),
        }
    }
}

impl Clone for Folder {
    fn clone(&self) -> (s: Self)
        ensures
            s == *self,
    {
        Folder {
            id: self.id,
            account_id: self.account_id,
            name: self.name.clone(),
            path: self.path.clone(),
            parent_id: self.parent_id,
        }
    }
}

impl Clone for MessageHeader {
    fn clone(&self) -> (s: Self)
        ensures
            s == *self,
    {
        MessageHeader {
            id: self.id,
            subject: self.subject.clone(),
            from: self.from.clone(),
            date: self.date,
            is_read: self.is_read,
            has_attachments: self.has_attachments,
            is_starred: self.is_starred,
        }
    }
}

impl Clone for Attachment {
    fn clone(&self) -> (s: Self)
        ensures
            s == *self,
    {
        Attachment {
            id: self.id,
            message_id: self.message_id,
            filename: self.filename.clone(),
            mime_type: self.mime_type.clone(),
            size_bytes: self.size_bytes,
            local_path: self.local_path.clone(),
        }
    }
}

impl Clone for Message {
    fn clone(&self) -> (s: Self)
        ensures
            s@ == self@,
    {
        let attachments = self.attachments.clone();
        proof {
            assert(attachments@ =~= self.attachments@);
        }
        Message {
            id: self.id,
            account_id: self.account_id,
            folder_id: self.folder_id,
            imap_uid: self.imap_uid,
            message_id_header: self.message_id_header.clone(),
            from_header: self.from_header.clone(),
            to_header: self.to_header.clone(),
            cc_header: self.cc_header.clone(),
            subject: self.subject.clone(),
            date: self.date,
            body_plain: self.body_plain.clone(),
            body_html: self.body_html.clone(),
            has_attachments: self.has_attachments,
            is_read: self.is_read,
            is_starred: self.is_starred,
            thread_id: self.thread_id,
            attachments,
        }
    }
}

impl Clone for OAuthProviderConfig {
    fn clone(&self) -> (s: Self)
        ensures
            s == *self,
    {
        OAuthProviderConfig {
            client_id: self.client_id.clone(),
            client_secret: self.client_secret.clone(),
        }
    }
}

impl Clone for Draft {
    fn clone(&self) -> (s: Self)
        ensures
            s == *self,
    {
        Draft {
            id: self.id,
            account_id: self.account_id,
            to_addresses: self.to_addresses.clone(),
            cc_addresses: self.cc_addresses.clone(),
            bcc_addresses: self.bcc_addresses.clone(),
            subject: self.subject.clone(),
            body_plain: self.body_plain.clone(),
            body_html: self.body_html.clone(),
            created_at: self.created_at,
            updated_at: self.updated_at,
        }
    }
}

impl Clone for EmailSignature {
    fn clone(&self) -> (s: Self)
        ensures
            s == *self,
    {
        EmailSignature {
            id: self.id,
            account_id: self.account_id,
            name: self.name.clone(),
            content_html: self.content_html.clone(),
            content_plain: self.content_plain.clone(),
            is_default: self.is_default,
        }
    }
}

impl Clone for AppSetting {
    fn clone(&self) -> (s: Self)
        ensures
            s == *self,
    {
        AppSetting { key: self.key.clone(), value: self.value.clone() }
    }
}

impl Clone for Thread {
    fn clone(&self) -> (s: Self)
        ensures
            s == *self,
    {
        Thread {
            id: self.id,
            subject_hash: self.subject_hash.clone(),
            first_message_id: self.first_message_id,
            last_message_id: self.last_message_id,
            message_count: self.message_count,
            account_id: self.account_id,
            created_at: self.created_at,
            updated_at: self.updated_at,
        }
    }
}

impl Clone for Contact {
    fn clone(&self) -> (s: Self)
        ensures
            s == *self,
    {
        Contact {
            id: self.id,
            email: self.email.clone(),
            name: self.name.clone(),
            last_used: self.last_used,
            use_count: self.use_count,
        }
    }
}

} // verus!
