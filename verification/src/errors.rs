//! The ways in which a command fails.

use vstd::prelude::*;
use crate::hash::NodeHash;

verus! {

/// Why a command failed. A failure ends the command and leaves the session
/// as it was.
#[derive(Debug, Clone, Copy, PartialEq, Eq)]
pub enum CommandError {
    /// The request names directories, which tree-fetch does not support.
    DirectoriesNotSupported,
    /// The root directory of the request is not a well-formed path.
    InvalidPath,
    /// The repository has no manifest with this hash.
    ManifestNotFound(NodeHash),
    /// The repository has no changeset with this hash.
    ChangesetNotFound(NodeHash),
}

impl CommandError {
    /// The text that tells the client of the failure.
    pub fn message(&self) -> (text: String)
        ensures
            *self is DirectoriesNotSupported ==> text@ == "directories param is not supported"@,
            *self is InvalidPath ==> text@ == "invalid path"@,
            *self is ManifestNotFound ==> text@ == "manifest not found"@,
            *self is ChangesetNotFound ==> text@ == "changeset not found"@,
    {
        match self {
            CommandError::DirectoriesNotSupported => "directories param is not supported".to_owned(),
            CommandError::InvalidPath => "invalid path".to_owned(),
            CommandError::ManifestNotFound(_) => "manifest not found".to_owned(),
            CommandError::ChangesetNotFound(_) => "changeset not found".to_owned(),
        }
    }
}

} // verus!
