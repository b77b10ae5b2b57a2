//! The application-wide error type. Its text (see [`AppError::message`]) is
//! what the user interface receives; the `duplicate:` prefix is how the UI
//! recognises a rejected duplicate add.

use vstd::prelude::*;

use crate::text::{concat, to_string};

verus! {

/// Application-wide error. Database and I/O failures carry the text of the
/// underlying error.
#[derive(Debug, PartialEq, Eq)]
pub enum AppError {
    Db(String),
    Io(String),
    Network(String),
    NotFound(String),
    Duplicate(String),
    Invalid(String),
    SyncNotConfigured,
    Other(String),
}

impl AppError {
    /// The text shown for this error.
    pub open spec fn spec_message(&self) -> Seq<char> {
        match self {
            AppError::Db(m) => "database error: "@ + m@,
            AppError::Io(m) => "io error: "@ + m@,
            AppError::Network(m) => "network error: "@ + m@,
            AppError::NotFound(m) => "not found: "@ + m@,
            AppError::Duplicate(m) => "duplicate: "@ + m@,
            AppError::Invalid(m) => "invalid input: "@ + m@,
            AppError::SyncNotConfigured =>
                "sync not configured: set a Bingqilin server URL and token first"@,
            AppError::Other(m) => m@,
        }
    }

    /// The text shown for this error.
    pub fn message(&self) -> (r: String)
        ensures
            r@ == self.spec_message(),
    {
        match self {
            AppError::Db(m) => concat("database error: ", m.as_str()),
            AppError::Io(m) => concat("io error: ", m.as_str()),
            AppError::Network(m) => concat("network error: ", m.as_str()),
            AppError::NotFound(m) => concat("not found: ", m.as_str()),
            AppError::Duplicate(m) => concat("duplicate: ", m.as_str()),
            AppError::Invalid(m) => concat("invalid input: ", m.as_str()),
            AppError::SyncNotConfigured => to_string(
                "sync not configured: set a Bingqilin server URL and token first",
            ),
            AppError::Other(m) => to_string(m.as_str()),
        }
    }
}

/// Every duplicate-add error is shown with the `duplicate: ` prefix, and no
/// other kind of error but a free-form one can carry that prefix.
pub proof fn lemma_duplicate_prefix(e: AppError)
    ensures
        e is Duplicate ==> e.spec_message().take(11) == "duplicate: "@,
        !(e is Other) && e.spec_message().len() >= 11 && e.spec_message().take(11)
            == "duplicate: "@ ==> e is Duplicate,
{
    reveal_strlit("duplicate: ");
    reveal_strlit("database error: ");
    reveal_strlit("io error: ");
    reveal_strlit("network error: ");
    reveal_strlit("not found: ");
    reveal_strlit("invalid input: ");
    reveal_strlit("sync not configured: set a Bingqilin server URL and token first");
    let d = "duplicate: "@;
    let msg = e.spec_message();
    assert(d[0] == 'd' && d[1] == 'u');
    if !(e is Other) && !(e is Duplicate) && msg.len() >= 11 {
        assert(msg.take(11)[0] != d[0] || msg.take(11)[1] != d[1]);
    }
}

/// The error for a missing row: `not found: <what> <id>`.
pub fn not_found(what: &str, id: &str) -> (e: AppError)
    ensures
        e matches AppError::NotFound(m) && m@ == what@ + " "@ + id@,
{
    let mut m = what.to_owned();
    m.append(" ");
    m.append(id);
    AppError::NotFound(m)
}

} // verus!
