//! The ways in which an article can fail to be understood.

use vstd::prelude::*;

verus! {

/// Why a document or a body could not be processed.
#[derive(Debug, Clone, Copy, PartialEq, Eq, Structural)]
pub enum DreadError {
    /// The first line is not a Markdown header.
    NotAHeader,
    /// No line before the first subordinate header carries a license mark.
    NoLicenseLine,
    /// A non-empty body must begin with a newline.
    MustStartWithNewline,
    /// A list run with no items reached the table renderer.
    EmptyListRun,
}

impl DreadError {
    /// A message for a human reader.
    pub fn message(&self) -> (r: String)
        ensures
            r@ == match self {
                DreadError::NotAHeader => "It doesn't start with a Markdown header"@,
                DreadError::NoLicenseLine => "It doesn't contain a copyright symbol (©)"@,
                DreadError::MustStartWithNewline =>
                    "Internal error: a non-empty body must start with a newline"@,
                DreadError::EmptyListRun => "Internal error: there should be at least one list item"@,
            },
    {
        match self {
            DreadError::NotAHeader => String::from_str("It doesn't start with a Markdown header"),
            DreadError::NoLicenseLine => String::from_str("It doesn't contain a copyright symbol (©)"),
            DreadError::MustStartWithNewline => String::from_str(
                "Internal error: a non-empty body must start with a newline",
            ),
            DreadError::EmptyListRun => String::from_str(
                "Internal error: there should be at least one list item",
            ),
        }
    }
}

} // verus!
