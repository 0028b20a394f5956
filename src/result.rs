//! The errors of the library.
use vstd::prelude::*;

verus! {

/// Why an operation failed. The first five come from the file system when a
/// log is opened; the last two from appending an entry to an open log.
#[derive(Debug, Clone, Copy, PartialEq, Eq, Structural)]
pub enum Error {
    FileCreateAndOpen,
    FileOpen,
    FileSetLen,
    FileSync,
    FileMemoryMap,
    /// The entry has an empty key and an empty value, which the log could not
    /// tell from its end marker, or a length that does not fit its header.
    EntryInvalid,
    /// The entry and the end marker after it do not fit in the mapped region.
    LogFull,
}

impl Error {
    /// A sentence that says what went wrong.
    pub fn message(&self) -> (r: &'static str)
        ensures
            r@ == match self {
                Error::FileCreateAndOpen => "Failed creating and opening file"@,
                Error::FileOpen => "Failed opening file"@,
                Error::FileSetLen => "Failed setting file size"@,
                Error::FileSync => "Failed syncing file"@,
                Error::FileMemoryMap => "Failed memory-mapping file"@,
                Error::EntryInvalid => "Entry cannot be encoded in the log"@,
                Error::LogFull => "Log has no room left for the entry"@,
            },
    {
        match self {
            Error::FileCreateAndOpen => "Failed creating and opening file",
            Error::FileOpen => "Failed opening file",
            Error::FileSetLen => "Failed setting file size",
            Error::FileSync => "Failed syncing file",
            Error::FileMemoryMap => "Failed memory-mapping file",
            Error::EntryInvalid => "Entry cannot be encoded in the log",
            Error::LogFull => "Log has no room left for the entry",
        }
    }
}

} // verus!
