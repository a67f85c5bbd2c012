use vstd::prelude::*;

verus! {

/// Result type of the engine's fallible operations.
pub type SQLiteResult<T> = Result<T, SQLiteErr>;

/// Primary result codes of the engine.
#[derive(Copy, Clone, Debug, PartialEq, Eq, Structural)]
pub enum SQLiteErr {
    /// Generic error
    Error,
    /// Internal logic error
    Internal,
    /// Access permission denied
    Perm,
    /// Callback routine requested an abort
    Abort,
    /// The database file is locked
    Busy,
    /// A table in the database is locked
    Locked,
    /// A memory allocation failed
    NoMem,
    /// Attempt to write a readonly database
    ReadOnly,
    /// Operation terminated by an interrupt
    Interrupt,
    /// Some kind of disk I/O error occurred
    IO,
    /// The database disk image is malformed
    Corrupt,
    /// Unknown opcode in a file-control request
    NotFound,
    /// Insertion failed because database is full
    Full,
    /// Unable to open the database file
    CantOpen,
    /// Database lock protocol error
    Protocol,
    /// Internal use only
    Empty,
    /// The database schema changed
    Schema,
    /// String or BLOB exceeds size limit
    TooBig,
    /// Abort due to constraint violation
    Constraint,
    /// Data type mismatch
    Mismatch,
    /// Library used incorrectly
    Misuse,
    /// Uses OS features not supported on host
    Nolfs,
    /// Authorization denied
    Auth,
    /// Not used
    Format,
    /// Bind parameter index out of range
    Range,
    /// File opened that is not a database file
    NotADB,
    /// Notifications from the log
    Notice,
    /// Warnings from the log
    Warning,
}

impl SQLiteErr {
    /// The numeric result code of each error, as the C interface reports it.
    pub open spec fn spec_code(self) -> i32 {
        match self {
            SQLiteErr::Error => 1,
            SQLiteErr::Internal => 2,
            SQLiteErr::Perm => 3,
            SQLiteErr::Abort => 4,
            SQLiteErr::Busy => 5,
            SQLiteErr::Locked => 6,
            SQLiteErr::NoMem => 7,
            SQLiteErr::ReadOnly => 8,
            SQLiteErr::Interrupt => 9,
            SQLiteErr::IO => 10,
            SQLiteErr::Corrupt => 11,
            SQLiteErr::NotFound => 12,
            SQLiteErr::Full => 13,
            SQLiteErr::CantOpen => 14,
            SQLiteErr::Protocol => 15,
            SQLiteErr::Empty => 16,
            SQLiteErr::Schema => 17,
            SQLiteErr::TooBig => 18,
            SQLiteErr::Constraint => 19,
            SQLiteErr::Mismatch => 20,
            SQLiteErr::Misuse => 21,
            SQLiteErr::Nolfs => 22,
            SQLiteErr::Auth => 23,
            SQLiteErr::Format => 24,
            SQLiteErr::Range => 25,
            SQLiteErr::NotADB => 26,
            SQLiteErr::Notice => 27,
            SQLiteErr::Warning => 28,
        }
    }

    /// The numeric result code of this error.
    pub fn code(&self) -> (r: i32)
        ensures
            r == self.spec_code(),
            1 <= r <= 28,
    {
        match self {
            SQLiteErr::Error => 1,
            SQLiteErr::Internal => 2,
            SQLiteErr::Perm => 3,
            SQLiteErr::Abort => 4,
            SQLiteErr::Busy => 5,
            SQLiteErr::Locked => 6,
            SQLiteErr::NoMem => 7,
            SQLiteErr::ReadOnly => 8,
            SQLiteErr::Interrupt => 9,
            SQLiteErr::IO => 10,
            SQLiteErr::Corrupt => 11,
            SQLiteErr::NotFound => 12,
            SQLiteErr::Full => 13,
            SQLiteErr::CantOpen => 14,
            SQLiteErr::Protocol => 15,
            SQLiteErr::Empty => 16,
            SQLiteErr::Schema => 17,
            SQLiteErr::TooBig => 18,
            SQLiteErr::Constraint => 19,
            SQLiteErr::Mismatch => 20,
            SQLiteErr::Misuse => 21,
            SQLiteErr::Nolfs => 22,
            SQLiteErr::Auth => 23,
            SQLiteErr::Format => 24,
            SQLiteErr::Range => 25,
            SQLiteErr::NotADB => 26,
            SQLiteErr::Notice => 27,
            SQLiteErr::Warning => 28,
        }
    }
}

} // verus!
