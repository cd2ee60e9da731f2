//! Source positions attached to every symbol and AST node.

use vstd::prelude::*;
use vstd::string::StringExecFns;

verus! {

/// A source position: the directory and file the source came from, and the
/// 1-based line and column of the byte that produced a symbol or node.
#[derive(Debug, PartialEq, Eq)]
pub struct DebugInfo {
    pub directory: String,
    pub file: String,
    pub line: u32,
    pub column: u32,
}

/// The mathematical image of a `DebugInfo`: the strings as character
/// sequences, the position unchanged.
pub struct DebugV {
    pub directory: Seq<char>,
    pub file: Seq<char>,
    pub line: u32,
    pub column: u32,
}

impl View for DebugInfo {
    type V = DebugV;

    open spec fn view(&self) -> DebugV {
        DebugV {
            directory: self.directory@,
            file: self.file@,
            line: self.line,
            column: self.column,
        }
    }
}

impl Clone for DebugInfo {
    fn clone(&self) -> (r: Self)
        ensures
            r@ == self@,
    {
        DebugInfo {
            directory: self.directory.clone(),
            file: self.file.clone(),
            line: self.line,
            column: self.column,
        }
    }
}

impl DebugInfo {
    /// Builds a position from borrowed directory and file names.
    pub fn at(directory: &str, file: &str, line: u32, column: u32) -> (r: Self)
        ensures
            r@ == (DebugV { directory: directory@, file: file@, line, column }),
    {
        DebugInfo {
            directory: String::from_str(directory),
            file: String::from_str(file),
            line,
            column,
        }
    }
}

} // verus!
