use vstd::prelude::*;

verus! {

/// Why an operation was refused.
#[derive(Clone, Debug, PartialEq, Eq)]
pub enum ContractError {
    /// The sender may not perform this operation.
    Unauthorized,
    /// The referenced record does not exist; `kind` names what was looked for.
    NotFound { kind: String },
    /// A subscription lacks a value for a field of its alert.
    ValidationError { msg: String },
    /// The owner record was never written.
    NotInitialized,
}

} // verus!
