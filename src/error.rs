use vstd::prelude::*;

verus! {

#[verifier::external_type_specification]
#[verifier::external_body]
pub struct ExPatternError(glob::PatternError);

/// Errors that can occur during file processing.
#[derive(Debug)]
pub enum CflError {
    /// A file or directory could not be read; the text describes the cause.
    Io(String),
    /// A glob pattern did not compile.
    Pattern(glob::PatternError),
    /// The clipboard could not be written; the text describes the cause.
    Clipboard(String),
    /// The path to process does not exist.
    PathNotFound(String),
}

} // verus!
