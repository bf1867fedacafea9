//! Positions in source text.
use vstd::prelude::*;

verus! {

/// Where a construct starts: the source file it came from, if named, and a
/// 1-based line and column.
#[derive(Debug, PartialEq, Eq)]
pub struct SourceSpan {
    pub source_filename: Option<String>,
    pub line: usize,
    pub column: usize,
}

impl SourceSpan {
    pub fn new(source_filename: Option<String>, line: usize, column: usize) -> (r: Self)
        ensures
            r.source_filename == source_filename,
            r.line == line,
            r.column == column,
    {
        SourceSpan { source_filename, line, column }
    }

    /// A copy of this span.
    pub fn duplicate(&self) -> (r: Self)
        ensures
            r == *self,
    {
        let source_filename = match &self.source_filename {
            Some(name) => Some(name.clone()),
            None => None,
        };
        SourceSpan { source_filename, line: self.line, column: self.column }
    }
}

impl Clone for SourceSpan {
    fn clone(&self) -> (r: Self)
        ensures
            r == *self,
    {
        self.duplicate()
    }
}

} // verus!
