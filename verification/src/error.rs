//! Fatal conditions of resolution and composition.

use vstd::prelude::*;

verus! {

/// A fatal condition: every one aborts the whole invocation.
#[derive(Debug)]
pub enum Error {
    /// No directory of the search path yielded a qualifying candidate
    /// for the requested name.
    ExecutableNotFound { name: String },
    /// Two rules attempted to bind the same variable for one target.
    DuplicateEnvironmentBinding { var: String },
}

impl Error {
    /// The diagnostic line reported for this condition.
    pub open spec fn spec_message(self) -> Seq<char> {
        match self {
            Error::ExecutableNotFound { name } => "Requested executable '"@ + name@
                + "' cannot be found anywhere in $PATH"@,
            Error::DuplicateEnvironmentBinding { var } => "Environment variable "@ + var@
                + " is specified multiple times"@,
        }
    }

    /// Renders the diagnostic line.
    pub fn message(&self) -> (r: String)
        ensures
            r@ == self.spec_message(),
    {
        match self {
            Error::ExecutableNotFound { name } => {
                let mut s = String::from_str("Requested executable '");
                s.append(name.as_str());
                s.append("' cannot be found anywhere in $PATH");
                s
            },
            Error::DuplicateEnvironmentBinding { var } => {
                let mut s = String::from_str("Environment variable ");
                s.append(var.as_str());
                s.append(" is specified multiple times");
                s
            },
        }
    }
}

} // verus!
