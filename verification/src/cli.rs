//! The command-line surface: one positional source path and the two
//! output paths, each with a fixed default.

use vstd::prelude::*;

verus! {

/// The arguments of a run: the source file to read, and where to write
/// the generated code and header.
#[derive(Debug, Clone, PartialEq, Eq)]
pub struct Cli {
    pub source: String,
    pub c_output: String,
    pub h_output: String,
}

impl Cli {
    pub fn new(source: String, c_output: String, h_output: String) -> (c: Cli)
        ensures
            c.source == source,
            c.c_output == c_output,
            c.h_output == h_output,
    {
        Cli { source, c_output, h_output }
    }
}

} // verus!
