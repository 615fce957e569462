//! The error taxonomy of the store. Every error is terminal for the call
//! that raised it and is surfaced verbatim to the caller.

use vstd::prelude::*;

verus! {

/// A payload field broke one of its declared bounds.
#[derive(Clone, Copy, Debug, PartialEq, Eq, Structural)]
pub enum ValidationError {
    /// The text field at this index is longer than its declared maximum.
    FieldTooLong { field: usize },
    /// The scalar field at this index lies outside its declared domain.
    OutOfRange { field: usize },
}

/// Every way an operation of the store can fail.
#[derive(Clone, Copy, Debug, PartialEq, Eq, Structural)]
pub enum StoreError {
    /// The payload broke a field bound; carries the validator's verdict.
    Validation { err: ValidationError },
    /// `create` or `deposit` found a record already present at the derived
    /// address.
    AlreadyExists,
    /// `update`, `delete` or `withdraw` found no record at the derived
    /// address.
    NotFound,
    /// The caller is not the stored owner of the record.
    Unauthorized,
    /// `withdraw` ran while the reference price had not reached the unlock
    /// threshold.
    ConditionNotMet,
    /// The supplied funds do not cover the storage reserve plus any custody
    /// amount.
    InsufficientFunds,
    /// No valid nonce exists for the requested address derivation.
    AddressSpaceExhausted,
}

} // verus!
