//! The errors of the database management.
use vstd::prelude::*;
use crate::text::{decimal, decimal_string, push_str};

verus! {

/// Why a database operation failed; the texts are those of the underlying
/// errors.
#[derive(Debug)]
pub enum DatabaseError {
    NetworkError(String),
    HttpError { status: u16, message: String },
    JsonError(String),
    IoError(String),
    ValidationError(String),
    BackupError(String),
    VerificationFailed,
    AtomicUpdateFailed,
    ConfigError(String),
    SchedulerError(String),
}

/// The text an error is shown with.
pub open spec fn error_text(e: DatabaseError) -> Seq<char> {
    match e {
        DatabaseError::NetworkError(m) => "Network error: "@ + m@,
        DatabaseError::HttpError { status, message } => "HTTP error: status "@ + decimal(status as nat)
            + ", message: "@ + message@,
        DatabaseError::JsonError(m) => "JSON parsing error: "@ + m@,
        DatabaseError::IoError(m) => "File system error: "@ + m@,
        DatabaseError::ValidationError(m) => "Validation failed: "@ + m@,
        DatabaseError::BackupError(m) => "Backup operation failed: "@ + m@,
        DatabaseError::VerificationFailed => "Atomic update verification failed"@,
        DatabaseError::AtomicUpdateFailed => "Atomic update failed"@,
        DatabaseError::ConfigError(m) => "Configuration error: "@ + m@,
        DatabaseError::SchedulerError(m) => "Scheduler error: "@ + m@,
    }
}

/// A text that starts with `head` and goes on with `tail`.
fn joined(head: &str, tail: &str) -> (r: String)
    ensures
        r@ == head@ + tail@,
{
    let mut r = String::new();
    push_str(&mut r, head);
    push_str(&mut r, tail);
    proof {
        assert(Seq::<char>::empty() + head@ =~= head@);
    }
    r
}

impl DatabaseError {
    /// The text the error is shown with.
    pub fn message(&self) -> (r: String)
        ensures
            r@ == error_text(*self),
    {
        match self {
            DatabaseError::NetworkError(m) => joined("Network error: ", m.as_str()),
            DatabaseError::HttpError { status, message } => {
                let mut r = joined("HTTP error: status ", decimal_string(*status as u128).as_str());
                push_str(&mut r, ", message: ");
                push_str(&mut r, message.as_str());
                r
            },
            DatabaseError::JsonError(m) => joined("JSON parsing error: ", m.as_str()),
            DatabaseError::IoError(m) => joined("File system error: ", m.as_str()),
            DatabaseError::ValidationError(m) => joined("Validation failed: ", m.as_str()),
            DatabaseError::BackupError(m) => joined("Backup operation failed: ", m.as_str()),
            DatabaseError::VerificationFailed => String::from_str("Atomic update verification failed"),
            DatabaseError::AtomicUpdateFailed => String::from_str("Atomic update failed"),
            DatabaseError::ConfigError(m) => joined("Configuration error: ", m.as_str()),
            DatabaseError::SchedulerError(m) => joined("Scheduler error: ", m.as_str()),
        }
    }
}

} // verus!
