use vstd::prelude::*;

verus! {

/// One parsed invocation of the tool.
pub struct Cli {
    pub command: Commands,
}

/// The tool's subcommands.
pub enum Commands {
    /// Write a default configuration into the current directory.
    Init,
    /// Install `item` from the registry repository `repo`; `force` is
    /// accepted on the command line but drives no overwrite guard.
    Add { repo: String, item: String, force: bool },
}

} // verus!
