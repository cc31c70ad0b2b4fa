//! The library's top-level error.

use vstd::prelude::*;

use crate::shell;

verus! {

/// Either an error from the shell's own logic, or an I/O failure that the
/// surrounding program reports as a plain message.
#[derive(Debug, PartialEq, Eq)]
pub enum Error {
    ShellError(shell::Error),
    Io(String),
}

impl From<shell::Error> for Error {
    fn from(e: shell::Error) -> (r: Error) {
        Error::ShellError(e)
    }
}

impl vstd::std_specs::convert::FromSpecImpl<shell::Error> for Error {
    open spec fn obeys_from_spec() -> bool {
        true
    }

    open spec fn from_spec(e: shell::Error) -> Error {
        Error::ShellError(e)
    }
}

} // verus!
