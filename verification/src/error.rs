//! The failures of a gathering run.

use vstd::prelude::*;

verus! {

/// A configuration value that a run cannot do without.
#[derive(Clone, Copy, Debug, PartialEq, Eq, Structural)]
pub enum Setting {
    /// The realm whose groups are gathered.
    Realm,
    /// The names of the top-level groups to gather.
    RootGroups,
}

/// What went wrong between the run and the directory.
#[derive(Clone, Debug, PartialEq, Eq)]
pub enum DirectoryFault {
    /// The directory client could not complete a call; the text is its report.
    CallFailed(String),
    /// A group or user record lacks a field that every record must carry.
    MissingField,
    /// A group is listed among its own descendants.
    Cycle,
    /// An answer arrived that the run was not waiting for.
    Unexpected,
}

/// Why a gathering run stopped.
#[derive(Clone, Debug, PartialEq, Eq)]
pub enum GatherError {
    /// A required setting is missing; nothing was asked of the directory.
    ConfigurationError(Setting),
    /// The directory failed, or what it sent cannot be used.
    DirectoryError(DirectoryFault),
    /// The registry was asked to take in a run that has nothing to merge.
    MergeError,
}

impl GatherError {
    /// The error in words, for a log or a user.
    pub fn message(&self) -> (text: String)
        ensures
            text@ == match *self {
                GatherError::ConfigurationError(Setting::Realm) => "missing configuration: realm"@,
                GatherError::ConfigurationError(Setting::RootGroups) =>
                    "missing configuration: root groups"@,
                GatherError::DirectoryError(DirectoryFault::CallFailed(report)) => report@,
                GatherError::DirectoryError(DirectoryFault::MissingField) =>
                    "directory sent a record without a required field"@,
                GatherError::DirectoryError(DirectoryFault::Cycle) =>
                    "directory lists a group among its own descendants"@,
                GatherError::DirectoryError(DirectoryFault::Unexpected) =>
                    "answer does not fit what the run was waiting for"@,
                GatherError::MergeError => "run has nothing to merge"@,
            },
    {
        match self {
            GatherError::ConfigurationError(Setting::Realm) =>
                "missing configuration: realm".to_owned(),
            GatherError::ConfigurationError(Setting::RootGroups) =>
                "missing configuration: root groups".to_owned(),
            GatherError::DirectoryError(DirectoryFault::CallFailed(report)) => report.clone(),
            GatherError::DirectoryError(DirectoryFault::MissingField) =>
                "directory sent a record without a required field".to_owned(),
            GatherError::DirectoryError(DirectoryFault::Cycle) =>
                "directory lists a group among its own descendants".to_owned(),
            GatherError::DirectoryError(DirectoryFault::Unexpected) =>
                "answer does not fit what the run was waiting for".to_owned(),
            GatherError::MergeError => "run has nothing to merge".to_owned(),
        }
    }
}

} // verus!
