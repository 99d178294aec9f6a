use vstd::prelude::*;

verus! {

/// Why loading a JSON document failed. Kept as its own enumeration so a
/// caller can tell a missing file from malformed JSON from a document that
/// parses but does not have the expected shape.
#[derive(Clone, Copy, Debug, PartialEq, Eq, Structural)]
pub enum ParseErrorKind {
    FileNotFound,
    MalformedJson,
    SchemaMismatch,
}

/// The closed set of failures an installation can end in. The first failure
/// aborts the whole operation; nothing is rolled back.
#[derive(Clone, Debug, PartialEq, Eq)]
pub enum InstallError {
    /// No user configuration file exists in the working directory.
    ConfigMissing,
    /// A JSON document (config, manifest, or package descriptor) could not
    /// be read as the expected shape.
    ParseError(ParseErrorKind),
    /// The repository cache could not be created or brought up to date.
    RepositoryError,
    /// A requested or internally referenced item is absent from the manifest.
    ItemNotFound(String),
    /// An item's internal dependencies lead back to an item that is still
    /// being installed.
    CycleDetected(String),
    /// The manifest references a file the cached repository does not hold.
    SourceFileMissing(String),
    /// A file could not be written to its target path.
    CopyFailure(String),
    /// The package descriptor is missing, or the package manager failed.
    DependencyInstallError,
}

} // verus!
