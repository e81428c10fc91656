use vstd::prelude::*;

verus! {

/// An error found while parsing a script or map source.
#[derive(Clone, Debug)]
pub struct ParseError {
    pub file_name: String,
    pub description: String,
    pub line: u32,
}

impl ParseError {
    /// Creates a parse error for the given file, description and line.
    pub fn new(file_name: String, description: String, line: u32) -> (res: Self)
        ensures
            res.file_name@ == file_name@,
            res.description@ == description@,
            res.line == line,
    {
        Self { file_name, description, line }
    }
}

} // verus!
