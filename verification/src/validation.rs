//! The decisions of entry validation: which types of entry can be validated
//! at all, what the outcome of a validation callback means, and when a
//! pending validation is over.

use vstd::prelude::*;

verus! {

/// The type of an entry.
#[derive(Clone, Debug, PartialEq, Eq)]
pub enum EntryType {
    /// An entry of the application, of the type with this name.
    App(String),
    Dna,
    AgentId,
    Deletion,
    LinkAdd,
    LinkRemove,
    LinkList,
    ChainHeader,
    ChainMigrate,
    CapTokenClaim,
    CapTokenGrant,
}

/// Why an entry is not valid.
#[derive(Clone, Debug, PartialEq, Eq)]
pub enum ValidationError {
    /// The entry is of an application type that the DNA does not define; the
    /// name of the type.
    UnknownAppEntryType(String),
    /// The entry is of a system type that is not validated.
    SystemEntryType,
    /// The validation callback turned the entry down, in these words.
    Failed(String),
    /// The application has no validation callback for the entry; the reason
    /// that was given.
    NotImplemented(String),
}

/// What a validation callback answered.
#[derive(Clone, Debug, PartialEq, Eq)]
pub enum CallbackResult {
    Pass,
    Fail(String),
    NotImplemented(String),
}

/// Where a validation stands.
#[derive(Debug, PartialEq, Eq)]
pub enum ValidationPoll {
    /// The validation is over; its outcome.
    Ready(Result<String, ValidationError>),
    /// No result has been recorded yet.
    Pending,
}

/// Whether entries of this type can be validated: those of an application
/// type that is known, and links, deletions, capability grants and agent
/// ids.
pub open spec fn can_validate(entry_type: EntryType, known: bool) -> bool {
    match entry_type {
        EntryType::App(_) => known,
        EntryType::LinkAdd => true,
        EntryType::LinkRemove => true,
        EntryType::Deletion => true,
        EntryType::CapTokenGrant => true,
        EntryType::AgentId => true,
        _ => false,
    }
}

/// Checks that entries of type `entry_type` can be validated. `zome_name` is
/// the zome that defines the type, if the type is one of the application and
/// the DNA defines it.
pub fn check_entry_type(entry_type: &EntryType, zome_name: Option<&String>) -> (r: Result<
    (),
    ValidationError,
>)
    ensures
        r is Ok == can_validate(*entry_type, zome_name is Some),
        r matches Err(e) ==> match *entry_type {
            EntryType::App(name) => e matches ValidationError::UnknownAppEntryType(n) && n@
                == name@,
            _ => e == ValidationError::SystemEntryType,
        },
{
    match entry_type {
        EntryType::App(name) => match zome_name {
            Some(_) => Ok(()),
            None => Err(ValidationError::UnknownAppEntryType(name.clone())),
        },
        EntryType::LinkAdd => Ok(()),
        EntryType::LinkRemove => Ok(()),
        EntryType::Deletion => Ok(()),
        EntryType::CapTokenGrant => Ok(()),
        EntryType::AgentId => Ok(()),
        _ => Err(ValidationError::SystemEntryType),
    }
}

/// What the answer of a validation callback, or the error that kept it from
/// answering, means for the entry.
pub fn validation_outcome(answer: Result<CallbackResult, String>) -> (r: Result<
    (),
    ValidationError,
>)
    ensures
        r is Ok == (answer == Ok::<CallbackResult, String>(CallbackResult::Pass)),
        r matches Err(e) ==> match answer {
            Ok(CallbackResult::Fail(words)) => e matches ValidationError::Failed(w) && w@
                == words@,
            Ok(CallbackResult::NotImplemented(reason)) => e matches ValidationError::NotImplemented(
                w,
            ) && w@ == reason@,
            Err(words) => e matches ValidationError::Failed(w) && w@ == words@,
            Ok(CallbackResult::Pass) => false,
        },
{
    match answer {
        Ok(CallbackResult::Pass) => Ok(()),
        Ok(CallbackResult::Fail(words)) => Err(ValidationError::Failed(words)),
        Ok(CallbackResult::NotImplemented(reason)) => Err(ValidationError::NotImplemented(reason)),
        Err(words) => Err(ValidationError::Failed(words)),
    }
}

/// Where the validation of the entry at `address` stands, given the result
/// that has been recorded for it, if any.
pub fn poll_validation(recorded: Option<&Result<(), String>>, address: &String) -> (p:
    ValidationPoll)
    ensures
        match recorded {
            Some(Ok(_)) => p matches ValidationPoll::Ready(Ok(a)) && a@ == address@,
            Some(Err(words)) => p matches ValidationPoll::Ready(Err(ValidationError::Failed(w)))
                && w@ == words@,
            None => p == ValidationPoll::Pending,
        },
{
    match recorded {
        Some(Ok(_)) => ValidationPoll::Ready(Ok(address.clone())),
        Some(Err(words)) => ValidationPoll::Ready(Err(ValidationError::Failed(words.clone()))),
        None => ValidationPoll::Pending,
    }
}

} // verus!
