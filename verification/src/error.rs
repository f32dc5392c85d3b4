//! The library's error type and the stable process exit codes it maps to.

use vstd::prelude::*;

use crate::text::concat;

verus! {

/// Every way a keychain operation can fail. The strings are display-safe:
/// entry names in them have been sanitized by the caller.
#[derive(Debug, Clone, PartialEq, Eq)]
pub enum JingleError {
    /// Bad arguments or input (exit 2).
    Usage(String),
    /// No entry has the given name (exit 3).
    NotFound(String),
    /// The entry exists but has no such secret field (exit 3).
    FieldNotFound { entry: String, field: String },
    /// An entry with that name already exists (exit 1).
    AlreadyExists(String),
    /// The vault failed to decrypt or authenticate: tampered, truncated, or
    /// opened with the wrong keyfile (exit 4).
    Integrity(String),
    /// The entry is locked and the access was not confirmed (exit 5).
    Locked(String),
    /// The clipboard could not be used (exit 6).
    Clipboard(String),
    /// Anything else (exit 1).
    Other(String),
}

pub type Result<T> = std::result::Result<T, JingleError>;

impl JingleError {
    /// The documented, stable exit code: 1 generic, 2 usage, 3 not found,
    /// 4 integrity or decryption failure, 5 locked-entry refused, 6 clipboard
    /// unavailable.
    pub fn exit_code(&self) -> (code: i32)
        ensures
            code == match self {
                JingleError::Usage(_) => 2i32,
                JingleError::NotFound(_) => 3,
                JingleError::FieldNotFound { .. } => 3,
                JingleError::AlreadyExists(_) => 1,
                JingleError::Locked(_) => 5,
                JingleError::Integrity(_) => 4,
                JingleError::Clipboard(_) => 6,
                JingleError::Other(_) => 1,
            },
    {
        match self {
            JingleError::Usage(_) => 2,
            JingleError::NotFound(_) => 3,
            JingleError::FieldNotFound { .. } => 3,
            JingleError::AlreadyExists(_) => 1,
            JingleError::Locked(_) => 5,
            JingleError::Integrity(_) => 4,
            JingleError::Clipboard(_) => 6,
            JingleError::Other(_) => 1,
        }
    }

    /// The machine-readable code of the error in `--json` output.
    pub fn code_str(&self) -> (s: &'static str)
        ensures
            s@ == match self {
                JingleError::Usage(_) => "usage"@,
                JingleError::NotFound(_) => "not_found"@,
                JingleError::FieldNotFound { .. } => "not_found"@,
                JingleError::AlreadyExists(_) => "already_exists"@,
                JingleError::Locked(_) => "locked"@,
                JingleError::Integrity(_) => "integrity"@,
                JingleError::Clipboard(_) => "clipboard"@,
                JingleError::Other(_) => "error"@,
            },
    {
        match self {
            JingleError::Usage(_) => "usage",
            JingleError::NotFound(_) => "not_found",
            JingleError::FieldNotFound { .. } => "not_found",
            JingleError::AlreadyExists(_) => "already_exists",
            JingleError::Locked(_) => "locked",
            JingleError::Integrity(_) => "integrity",
            JingleError::Clipboard(_) => "clipboard",
            JingleError::Other(_) => "error",
        }
    }

    /// The outcome recorded in the audit log when this error ends an access.
    pub fn audit_outcome(&self) -> (s: &'static str)
        ensures
            s@ == outcome_of(*self),
    {
        match self {
            JingleError::Locked(_) => "refused_locked",
            JingleError::NotFound(_) => "not_found",
            JingleError::FieldNotFound { .. } => "not_found",
            _ => "error",
        }
    }

    /// The human-readable message.
    pub fn message(&self) -> (m: String)
        ensures
            m@ == error_message(*self),
    {
        match self {
            JingleError::Usage(msg) => msg.clone(),
            JingleError::NotFound(name) => {
                let a = concat("no entry named '", name.as_str());
                concat(a.as_str(), "'")
            },
            JingleError::FieldNotFound { entry, field } => {
                let a = concat("entry '", entry.as_str());
                let b = concat(a.as_str(), "' has no field '");
                let c = concat(b.as_str(), field.as_str());
                concat(c.as_str(), "'")
            },
            JingleError::AlreadyExists(name) => {
                let a = concat("entry '", name.as_str());
                concat(a.as_str(), "' already exists")
            },
            JingleError::Locked(name) => {
                let a = concat("entry '", name.as_str());
                let b = concat(a.as_str(), "' is locked; repeat its exact name with --confirm-locked ");
                concat(b.as_str(), name.as_str())
            },
            JingleError::Integrity(msg) => concat("vault integrity check failed: ", msg.as_str()),
            JingleError::Clipboard(msg) => concat("clipboard unavailable: ", msg.as_str()),
            JingleError::Other(msg) => msg.clone(),
        }
    }
}

/// `r` is the usage error with message `m`.
pub open spec fn usage_error<T>(r: Result<T>, m: Seq<char>) -> bool {
    r matches Err(JingleError::Usage(x)) && x@ == m
}

/// When `problem` holds a message, `r` is the usage error with it.
pub open spec fn refused_for<T>(r: Result<T>, problem: Option<Seq<char>>) -> bool {
    match problem {
        Some(m) => usage_error(r, m),
        None => true,
    }
}

/// The audit-log outcome of an access that ended in `e`.
pub open spec fn outcome_of(e: JingleError) -> Seq<char> {
    match e {
        JingleError::Locked(_) => "refused_locked"@,
        JingleError::NotFound(_) => "not_found"@,
        JingleError::FieldNotFound { .. } => "not_found"@,
        _ => "error"@,
    }
}

pub open spec fn error_message(e: JingleError) -> Seq<char> {
    match e {
        JingleError::Usage(msg) => msg@,
        JingleError::NotFound(name) => "no entry named '"@ + name@ + "'"@,
        JingleError::FieldNotFound { entry, field } => "entry '"@ + entry@ + "' has no field '"@ + field@
            + "'"@,
        JingleError::AlreadyExists(name) => "entry '"@ + name@ + "' already exists"@,
        JingleError::Locked(name) => "entry '"@ + name@
            + "' is locked; repeat its exact name with --confirm-locked "@ + name@,
        JingleError::Integrity(msg) => "vault integrity check failed: "@ + msg@,
        JingleError::Clipboard(msg) => "clipboard unavailable: "@ + msg@,
        JingleError::Other(msg) => msg@,
    }
}

} // verus!
