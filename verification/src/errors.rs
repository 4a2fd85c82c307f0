//! Error kinds surfaced by the library.
//!
//! Every fallible operation returns a `Result` whose error names one of
//! these kinds; nothing panics and nothing is silently swallowed except
//! the deliberate "entry absent" -> `false` mapping in `exist`.

use vstd::prelude::*;

verus! {

/// The stable failure kinds of the core.
#[derive(Clone, Copy, Debug, PartialEq, Eq, Structural)]
pub enum GuiError {
    /// Input validation failed (for example an empty search pattern).
    InvalidInput,
    /// A path could not be opened because it does not exist.
    NotFound,
    /// A registry identifier is not live in the relevant namespace.
    HandleNotFound,
    /// The container's structural header could not be parsed.
    CorruptArchive,
    /// A structural problem inside an otherwise open container.
    ArchiveError,
    /// A named entry is absent inside an otherwise valid archive.
    EntryNotFound,
    /// Entry content could not be decoded as UTF-8 text.
    DecodeError,
    /// A descriptor-level failure (permissions, disk full, devices).
    IoError,
}

impl GuiError {
    /// A stable machine-readable code for the error kind; the calling
    /// layer decides the user-facing presentation.
    pub fn code(&self) -> (r: &'static str)
        ensures
            r@ == self.code_spec(),
    {
        match self {
            GuiError::InvalidInput => "error.invalid.input",
            GuiError::NotFound => "error.not.found",
            GuiError::HandleNotFound => "zip.id.missing",
            GuiError::CorruptArchive => "error.archive.corrupt",
            GuiError::ArchiveError => "error.archive",
            GuiError::EntryNotFound => "error.entry.missing",
            GuiError::DecodeError => "error.decode",
            GuiError::IoError => "error.io",
        }
    }

    /// What `code` returns for each kind.
    pub open spec fn code_spec(&self) -> Seq<char> {
        match self {
            GuiError::InvalidInput => "error.invalid.input"@,
            GuiError::NotFound => "error.not.found"@,
            GuiError::HandleNotFound => "zip.id.missing"@,
            GuiError::CorruptArchive => "error.archive.corrupt"@,
            GuiError::ArchiveError => "error.archive"@,
            GuiError::EntryNotFound => "error.entry.missing"@,
            GuiError::DecodeError => "error.decode"@,
            GuiError::IoError => "error.io"@,
        }
    }
}

} // verus!
