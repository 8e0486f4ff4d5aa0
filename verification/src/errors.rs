use vstd::prelude::*;
use crate::language::Language;

verus! {

/// A file-level failure: the file contributes nothing to an aggregate, and
/// never aborts a whole run by itself.
#[derive(Clone, Copy, PartialEq, Eq, Structural, Debug)]
pub enum AnalyzeError {
    /// The path has no file extension.
    MissingExtension,
    /// The extension is not in the supported set.
    UnknownExtension,
    /// The language is known, but this capability set does not enable it.
    CapabilityMissing(Language),
    /// The language's query source failed to compile against its grammar.
    QueryBuild(Language),
    /// The content could not be parsed into a syntax tree.
    Parse,
    /// The content could not be decoded as UTF-8 text.
    Decode,
}

/// A run-level failure: aborts the whole run with a message.
#[derive(Clone, Copy, PartialEq, Eq, Structural, Debug)]
pub enum RunError {
    /// The root path does not exist.
    RootMissing,
    /// The root path is neither a file nor a directory.
    NotFileOrDir,
    /// Directory mode finished with zero successfully analyzed files.
    NoFiles,
}

} // verus!
