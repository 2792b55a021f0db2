//! The request one invocation serves, as plain values.

use vstd::prelude::*;

verus! {

/// What the command line asked for: an executable name (or path),
/// its positional arguments, and the flags of this invocation.
pub struct Args {
    /// Name of the executable to run, or a path to it.
    pub exe: String,
    /// Additional arguments to pass to the executable.
    pub args: Vec<String>,
    /// Path to the config file, when the default is overridden.
    pub config_file: Option<String>,
    /// Print the command that would run, and run nothing.
    pub dry_run: bool,
    /// Give the spawned process the resolved environment only.
    pub clear_env: bool,
}

} // verus!
