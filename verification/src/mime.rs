//! What is read of a raw message, as plain values.
//!
//! A raw message is read by a MIME parser outside this library. What the
//! library needs of the result is held in [`ParsedMail`]; the logic that
//! makes a cached message of it is verified. The parser is called where a
//! failure of its own assertions can be caught, which is not here.

use crate::models::opt_text;

use vstd::prelude::*;

verus! {

/// An address of a header, with the name that stands with it.
#[derive(Debug)]
pub struct Mailbox {
    pub name: Option<String>,
    pub address: Option<String>,
}

/// A part of a message that is an attachment.
#[derive(Debug)]
pub struct ParsedAttachment {
    pub name: Option<String>,
    pub mime_type: Option<String>,
    pub contents: Vec<u8>,
}

/// What the library reads of a parsed message.
#[derive(Debug)]
pub struct ParsedMail {
    pub from: Vec<Mailbox>,
    pub to: Vec<Mailbox>,
    pub cc: Vec<Mailbox>,
    pub subject: Option<String>,
    pub date: Option<i64>,
    pub message_id: Option<String>,
    pub body_text: Option<String>,
    pub body_html: Option<String>,
    pub attachments: Vec<ParsedAttachment>,
}

/// The model of a [`Mailbox`].
pub struct MailboxModel {
    pub name: Option<Seq<char>>,
    pub address: Option<Seq<char>>,
}

/// The model of a [`ParsedAttachment`].
pub struct ParsedAttachmentModel {
    pub name: Option<Seq<char>>,
    pub mime_type: Option<Seq<char>>,
    pub contents: Seq<u8>,
}

/// The model of a [`ParsedMail`].
pub struct ParsedMailModel {
    pub from: Seq<MailboxModel>,
    pub to: Seq<MailboxModel>,
    pub cc: Seq<MailboxModel>,
    pub subject: Option<Seq<char>>,
    pub date: Option<i64>,
    pub message_id: Option<Seq<char>>,
    pub body_text: Option<Seq<char>>,
    pub body_html: Option<Seq<char>>,
    pub attachments: Seq<ParsedAttachmentModel>,
}

impl View for Mailbox {
    type V = MailboxModel;

    open spec fn view(&self) -> MailboxModel {
        MailboxModel { name: opt_text(self.name), address: opt_text(self.address) }
    }
}

impl View for ParsedAttachment {
    type V = ParsedAttachmentModel;

    open spec fn view(&self) -> ParsedAttachmentModel {
        ParsedAttachmentModel {
            name: opt_text(self.name),
            mime_type: opt_text(self.mime_type),
            contents: self.contents@,
        }
    }
}

/// The models of the mailboxes that a vector holds.
pub open spec fn mailbox_models(v: Seq<Mailbox>) -> Seq<MailboxModel> {
    v.map_values(|m: Mailbox| m@)
}

/// The models of the parts that a vector holds.
pub open spec fn part_models(v: Seq<ParsedAttachment>) -> Seq<ParsedAttachmentModel> {
    v.map_values(|p: ParsedAttachment| p@)
}

impl View for ParsedMail {
    type V = ParsedMailModel;

    open spec fn view(&self) -> ParsedMailModel {
        ParsedMailModel {
            from: mailbox_models(self.from@),
            to: mailbox_models(self.to@),
            cc: mailbox_models(self.cc@),
            subject: opt_text(self.subject),
            date: self.date,
            message_id: opt_text(self.message_id),
            body_text: opt_text(self.body_text),
            body_html: opt_text(self.body_html),
            attachments: part_models(self.attachments@),
        }
    }
}

} // verus!
