//! Errors reported by the library.
use vstd::prelude::*;

verus! {

/// What went wrong.
#[derive(Debug, Clone)]
pub enum Error {
    SourceNotFound(String),
    SourceAlreadyExists(String),
    DocumentNotFound(String, String),
    UnsupportedFormat(String),
    Storage(String),
    Pipeline { step: String, message: String },
    BudgetExceeded(String),
    /// A request the library cannot act on; the text says why.
    InvalidInput(String),
    /// Something the request names does not exist; the text says what.
    NotFound(String),
}

/// The user-facing text of an error.
pub open spec fn error_message(e: Error) -> Seq<char> {
    match e {
        Error::SourceNotFound(s) => "source '"@ + s@ + "' not found"@,
        Error::SourceAlreadyExists(s) => "source '"@ + s@ + "' already exists"@,
        Error::DocumentNotFound(s, d) => "document '"@ + d@ + "' not found in source '"@ + s@
            + "'"@,
        Error::UnsupportedFormat(f) => "unsupported format: "@ + f@,
        Error::Storage(m) => "storage error: "@ + m@,
        Error::Pipeline { step, message } => "pipeline error in step '"@ + step@ + "': "@
            + message@,
        Error::BudgetExceeded(m) => "budget exceeded: "@ + m@,
        Error::InvalidInput(m) => m@,
        Error::NotFound(m) => m@,
    }
}

/// `r` failed with a storage error carrying the text `msg`.
pub open spec fn is_storage_error<T>(r: Result<T, Error>, msg: Seq<char>) -> bool {
    r matches Err(Error::Storage(m)) && m@ == msg
}

/// A storage error carrying the given text.
pub fn storage_error(msg: &str) -> (e: Error)
    ensures
        e matches Error::Storage(m) && m@ == msg@,
{
    Error::Storage(String::from_str(msg))
}

impl Error {
    /// The user-facing text of this error.
    pub fn message(&self) -> (res: String)
        ensures
            res@ == error_message(*self),
    {
        match self {
            Error::SourceNotFound(s) => {
                let mut r = String::from_str("source '");
                r.append(s.as_str());
                r.append("' not found");
                r
            },
            Error::SourceAlreadyExists(s) => {
                let mut r = String::from_str("source '");
                r.append(s.as_str());
                r.append("' already exists");
                r
            },
            Error::DocumentNotFound(s, d) => {
                let mut r = String::from_str("document '");
                r.append(d.as_str());
                r.append("' not found in source '");
                r.append(s.as_str());
                r.append("'");
                r
            },
            Error::UnsupportedFormat(f) => {
                let mut r = String::from_str("unsupported format: ");
                r.append(f.as_str());
                r
            },
            Error::Storage(m) => {
                let mut r = String::from_str("storage error: ");
                r.append(m.as_str());
                r
            },
            Error::Pipeline { step, message } => {
                let mut r = String::from_str("pipeline error in step '");
                r.append(step.as_str());
                r.append("': ");
                r.append(message.as_str());
                r
            },
            Error::BudgetExceeded(m) => {
                let mut r = String::from_str("budget exceeded: ");
                r.append(m.as_str());
                r
            },
            Error::InvalidInput(m) => m.clone(),
            Error::NotFound(m) => m.clone(),
        }
    }
}

} // verus!
