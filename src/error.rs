//! Errors reported by the profile store and the importers.
use vstd::prelude::*;

verus! {

/// Why an operation of the store was refused.
#[derive(Debug)]
pub enum StoreError {
    /// Another profile already holds the requested name.
    DuplicateName,
    /// A backup document that cannot be restored; holds the reason.
    MalformedBackup(String),
    /// The document is not valid JSON; holds the parser's reason.
    InvalidJson(String),
    /// The document is JSON but of no recognised shape; holds the reason.
    UnrecognizedFormat(String),
}

impl StoreError {
    /// The human-readable message of the error.
    pub fn message(&self) -> (r: String)
        ensures
            r@ == self.message_spec(),
    {
        match self {
            StoreError::DuplicateName => "环境名称已存在 / Profile name already exists".to_owned(),
            StoreError::MalformedBackup(reason) => "Invalid backup: ".to_owned().concat(reason.as_str()),
            StoreError::InvalidJson(reason) => "Invalid JSON: ".to_owned().concat(reason.as_str()),
            StoreError::UnrecognizedFormat(reason) => reason.clone(),
        }
    }

    pub open spec fn message_spec(&self) -> Seq<char> {
        match self {
            StoreError::DuplicateName => "环境名称已存在 / Profile name already exists"@,
            StoreError::MalformedBackup(reason) => "Invalid backup: "@ + reason@,
            StoreError::InvalidJson(reason) => "Invalid JSON: "@ + reason@,
            StoreError::UnrecognizedFormat(reason) => reason@,
        }
    }
}

} // verus!
