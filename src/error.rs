use vstd::prelude::*;

verus! {

/// Why materializing a path stopped; each variant carries the path concerned.
#[derive(Clone, Debug, PartialEq, Eq)]
pub enum MaterializeError {
    /// The requested path does not start at the root separator.
    NotRooted(Vec<u8>),
    /// The source entry does not exist.
    SourceNotFound(Vec<u8>),
    /// The source entry exists but its metadata could not be read.
    MetadataReadError(Vec<u8>),
    /// The source entry is neither a directory nor a regular file.
    UnsupportedEntryKind(Vec<u8>),
    /// The target entry could not be created.
    CreateError(Vec<u8>),
    /// The target's owner and group could not be set.
    OwnershipError(Vec<u8>),
    /// The target's permission bits could not be set.
    PermissionSyncError(Vec<u8>),
}

impl MaterializeError {
    /// The path that the error concerns.
    pub open spec fn path_of(&self) -> Seq<u8> {
        match self {
            MaterializeError::NotRooted(p) => p@,
            MaterializeError::SourceNotFound(p) => p@,
            MaterializeError::MetadataReadError(p) => p@,
            MaterializeError::UnsupportedEntryKind(p) => p@,
            MaterializeError::CreateError(p) => p@,
            MaterializeError::OwnershipError(p) => p@,
            MaterializeError::PermissionSyncError(p) => p@,
        }
    }

    /// The path that the error concerns.
    pub fn path(&self) -> (r: &Vec<u8>)
        ensures
            r@ == self.path_of(),
    {
        match self {
            MaterializeError::NotRooted(p) => p,
            MaterializeError::SourceNotFound(p) => p,
            MaterializeError::MetadataReadError(p) => p,
            MaterializeError::UnsupportedEntryKind(p) => p,
            MaterializeError::CreateError(p) => p,
            MaterializeError::OwnershipError(p) => p,
            MaterializeError::PermissionSyncError(p) => p,
        }
    }
}

} // verus!
