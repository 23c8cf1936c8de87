//! The error that the library's operations report.

use vstd::prelude::*;
use vstd::string::StringExecFns;

verus! {

/// A failure, by the part of the system that met it, with a description.
#[derive(Debug)]
pub enum DEmailError {
    Database(String),
    Imap(String),
    Smtp(String),
    OAuth(String),
    Io(String),
    Json(String),
    Keyring(String),
    Init(String),
    Config(String),
    Api(String),
    NotFound(String),
    Auth(String),
    Pdf(String),
    Validation(String),
    Unknown(String),
}

/// The stable discriminant of a [`DEmailError`].
#[derive(Clone, Copy, Debug, PartialEq, Eq, Structural)]
pub enum ErrorKind {
    Database,
    Imap,
    Smtp,
    OAuth,
    Io,
    Json,
    Keyring,
    Init,
    Config,
    Api,
    NotFound,
    Auth,
    Pdf,
    Validation,
    Unknown,
}

/// A [`DEmailError`] as a pair of its kind and the text of its description.
pub struct ErrorModel {
    pub kind: ErrorKind,
    pub detail: Seq<char>,
}

impl ErrorKind {
    /// The words that introduce an error of this kind in its message.
    pub open spec fn label(self) -> Seq<char> {
        match self {
            ErrorKind::Database => "Database error"@,
            ErrorKind::Imap => "IMAP error"@,
            ErrorKind::Smtp => "SMTP error"@,
            ErrorKind::OAuth => "OAuth error"@,
            ErrorKind::Io => "IO error"@,
            ErrorKind::Json => "JSON error"@,
            ErrorKind::Keyring => "Keyring error"@,
            ErrorKind::Init => "Initialization error"@,
            ErrorKind::Config => "Configuration error"@,
            ErrorKind::Api => "API error"@,
            ErrorKind::NotFound => "Not found"@,
            ErrorKind::Auth => "Authentication failed"@,
            ErrorKind::Pdf => "PDF generation error"@,
            ErrorKind::Validation => "Validation error"@,
            ErrorKind::Unknown => "Unknown error"@,
        }
    }

    /// The words that introduce an error of this kind in its message.
    pub fn label_text(&self) -> (r: &'static str)
        ensures
            r@ == self.label(),
    {
        match self {
            ErrorKind::Database => "Database error",
            ErrorKind::Imap => "IMAP error",
            ErrorKind::Smtp => "SMTP error",
            ErrorKind::OAuth => "OAuth error",
            ErrorKind::Io => "IO error",
            ErrorKind::Json => "JSON error",
            ErrorKind::Keyring => "Keyring error",
            ErrorKind::Init => "Initialization error",
            ErrorKind::Config => "Configuration error",
            ErrorKind::Api => "API error",
            ErrorKind::NotFound => "Not found",
            ErrorKind::Auth => "Authentication failed",
            ErrorKind::Pdf => "PDF generation error",
            ErrorKind::Validation => "Validation error",
            ErrorKind::Unknown => "Unknown error",
        }
    }
}

impl View for DEmailError {
    type V = ErrorModel;

    open spec fn view(&self) -> ErrorModel {
        match self {
            DEmailError::Database(d) => ErrorModel { kind: ErrorKind::Database, detail: d@ },
            DEmailError::Imap(d) => ErrorModel { kind: ErrorKind::Imap, detail: d@ },
            DEmailError::Smtp(d) => ErrorModel { kind: ErrorKind::Smtp, detail: d@ },
            DEmailError::OAuth(d) => ErrorModel { kind: ErrorKind::OAuth, detail: d@ },
            DEmailError::Io(d) => ErrorModel { kind: ErrorKind::Io, detail: d@ },
            DEmailError::Json(d) => ErrorModel { kind: ErrorKind::Json, detail: d@ },
            DEmailError::Keyring(d) => ErrorModel { kind: ErrorKind::Keyring, detail: d@ },
            DEmailError::Init(d) => ErrorModel { kind: ErrorKind::Init, detail: d@ },
            DEmailError::Config(d) => ErrorModel { kind: ErrorKind::Config, detail: d@ },
            DEmailError::Api(d) => ErrorModel { kind: ErrorKind::Api, detail: d@ },
            DEmailError::NotFound(d) => ErrorModel { kind: ErrorKind::NotFound, detail: d@ },
            DEmailError::Auth(d) => ErrorModel { kind: ErrorKind::Auth, detail: d@ },
            DEmailError::Pdf(d) => ErrorModel { kind: ErrorKind::Pdf, detail: d@ },
            DEmailError::Validation(d) => ErrorModel { kind: ErrorKind::Validation, detail: d@ },
            DEmailError::Unknown(d) => ErrorModel { kind: ErrorKind::Unknown, detail: d@ },
        }
    }
}

/// The model of a validation error described by `detail`.
pub open spec fn validation_error(detail: Seq<char>) -> ErrorModel {
    ErrorModel { kind: ErrorKind::Validation, detail }
}

impl DEmailError {
    /// The discriminant of this error.
    pub fn kind(&self) -> (k: ErrorKind)
        ensures
            k == self@.kind,
    {
        match self {
            DEmailError::Database(_) => ErrorKind::Database,
            DEmailError::Imap(_) => ErrorKind::Imap,
            DEmailError::Smtp(_) => ErrorKind::Smtp,
            DEmailError::OAuth(_) => ErrorKind::OAuth,
            DEmailError::Io(_) => ErrorKind::Io,
            DEmailError::Json(_) => ErrorKind::Json,
            DEmailError::Keyring(_) => ErrorKind::Keyring,
            DEmailError::Init(_) => ErrorKind::Init,
            DEmailError::Config(_) => ErrorKind::Config,
            DEmailError::Api(_) => ErrorKind::Api,
            DEmailError::NotFound(_) => ErrorKind::NotFound,
            DEmailError::Auth(_) => ErrorKind::Auth,
            DEmailError::Pdf(_) => ErrorKind::Pdf,
            DEmailError::Validation(_) => ErrorKind::Validation,
            DEmailError::Unknown(_) => ErrorKind::Unknown,
        }
    }

    /// The description that this error carries.
    pub fn detail(&self) -> (d: &String)
        ensures
            d@ == self@.detail,
    {
        match self {
            DEmailError::Database(d) => d,
            DEmailError::Imap(d) => d,
            DEmailError::Smtp(d) => d,
            DEmailError::OAuth(d) => d,
            DEmailError::Io(d) => d,
            DEmailError::Json(d) => d,
            DEmailError::Keyring(d) => d,
            DEmailError::Init(d) => d,
            DEmailError::Config(d) => d,
            DEmailError::Api(d) => d,
            DEmailError::NotFound(d) => d,
            DEmailError::Auth(d) => d,
            DEmailError::Pdf(d) => d,
            DEmailError::Validation(d) => d,
            DEmailError::Unknown(d) => d,
        }
    }

    /// The message shown for this error: the label of its kind, a colon and
    /// a space, then its description.
    pub fn message(&self) -> (m: String)
        ensures
            m@ == self@.kind.label() + ": "@ + self@.detail,
    {
        let mut m = String::from_str(self.kind().label_text());
        m.append(": ");
        m.append(self.detail().as_str());
        m
    }
}

} // verus!
