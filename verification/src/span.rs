//! Source positions.
use vstd::prelude::*;

verus! {

/// Handle of a source file.
#[derive(Clone, Copy, Debug, PartialEq, Eq, Structural, Hash)]
pub struct InputFile {
    pub index: usize,
}

/// A range of bytes within some source file.
#[derive(Clone, Copy, Debug, PartialEq, Eq, Structural, Hash)]
pub struct Span {
    pub start: usize,
    pub end: usize,
}

/// A span together with the file it lies in.
#[derive(Clone, Copy, Debug, PartialEq, Eq, Structural, Hash)]
pub struct FileSpan {
    pub input_file: InputFile,
    pub start: usize,
    pub end: usize,
}

impl Span {
    /// This span, anchored in `input_file`.
    pub fn in_file(self, input_file: InputFile) -> (r: FileSpan)
        ensures
            r == (FileSpan { input_file, start: self.start, end: self.end }),
    {
        FileSpan { input_file, start: self.start, end: self.end }
    }
}

} // verus!
