use vstd::prelude::*;

verus! {

/// Why a ledger operation was refused. Every failure aborts the operation as a whole.
#[derive(Clone, Copy, Debug, PartialEq, Eq, Structural)]
pub enum LedgerError {
    /// A required input is missing or malformed (an empty item name).
    Validation,
    /// A timestamp does not parse, or does not name a real calendar minute.
    Timestamp,
    /// A referenced item or trade does not exist.
    NotFound,
    /// The store cannot take the write (identifiers exhausted, a clashing row).
    Storage,
}

impl LedgerError {
    /// A short message, as a caller would show it to a user.
    pub fn message(&self) -> (r: &'static str) {
        match self {
            LedgerError::Validation => "invalid input",
            LedgerError::Timestamp => "invalid timestamp",
            LedgerError::NotFound => "not found",
            LedgerError::Storage => "storage failure",
        }
    }
}

} // verus!
