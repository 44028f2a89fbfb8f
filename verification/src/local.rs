//! The machine on which the tool itself runs.

use crate::error::SeeedError;
use vstd::prelude::*;

verus! {

/// The machine on which the tool itself runs, as a run sees it.
pub trait LocalMachine {
    /// Shows a line on the console.
    fn echo(&mut self, line: &str);

    /// Runs a command line in a shell. A status other than zero is an error.
    fn exec(&mut self, command: &str) -> Result<(), SeeedError>;

    /// Reads a file fully into memory.
    fn read_file(&mut self, path: &str) -> Result<String, SeeedError>;
}

} // verus!
