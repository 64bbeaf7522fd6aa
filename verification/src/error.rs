//! Errors of the linter.

use vstd::prelude::*;

verus! {

/// Why a validation (or a step of one) failed.
#[derive(Debug, Clone)]
pub enum VirtLintError {
    /// An argument had a value outside its range (such as a warning domain
    /// or level number handed in by a validator script).
    InvalidArgument(String),
    /// A validator tag was asked for that no validator carries.
    UnknownValidatorTag(String),
    /// An XML document could not be parsed.
    XmlParse,
    /// A number in an XML document could not be read.
    ParseInt(String),
    /// Reading validator scripts from disk failed.
    Io(String),
    /// A validator script failed.
    Script(String),
    /// A libvirt call failed.
    Libvirt(String),
}

} // verus!
