//! The engine of a mail client that keeps a local cache of remote
//! mailboxes.
//!
//! The library decides and computes; it does not talk to servers, files or
//! the clock. What is fetched from a mailbox is read into a message
//! ([`mime`], [`sync`]), saved in the cache ([`cache`], [`messages`],
//! [`attachments`]), put into its conversation ([`threading`]) and mined
//! for addresses ([`contacts`]). The schema of the cache has a version and
//! a ledger of migrations ([`migrations`]). Credentials are planned in
//! [`auth`], a session with a server is sequenced in [`protocol`], and a
//! pass over the accounts in [`orchestrator`]. What comes in from outside
//! is checked in [`validation`] and [`api`].
//!
//! Every function states what it returns and changes over models of the
//! data: text as `Seq<char>`, tables as sequences of rows.

pub mod api;
pub mod attachments;
pub mod auth;
pub mod cache;
pub mod contacts;
pub mod drafts;
pub mod error;
pub mod export;
pub mod messages;
pub mod migrations;
pub mod mime;
pub mod models;
pub mod numfmt;
pub mod orchestrator;
pub mod paths;
pub mod protocol;
pub mod ranking;
pub mod reply_forward;
pub mod sync;
pub mod table;
pub mod text;
pub mod threading;
pub mod validation;
