use vstd::prelude::*;

verus! {

/// Why an operation on article metadata was refused.
#[derive(Debug, PartialEq, Eq)]
pub enum ConfigError {
    /// A date string is not `YYYY-MM-DD` or names no calendar day.
    InvalidFormat,
    /// The entry is already in the collection.
    DuplicateEntry(String),
    /// A deletion was asked of an empty collection.
    EmptyCollection,
    /// A deletion index is not below the collection's length.
    IndexOutOfBounds(usize),
    /// The title is empty, so no file name can be made.
    EmptyTitle,
    /// The target file is already there; it holds the path.
    FileAlreadyExists(String),
}

} // verus!
