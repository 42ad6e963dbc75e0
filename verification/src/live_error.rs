use vstd::prelude::*;
use vstd::string::StringExecFns;
use crate::span::Span;

verus! {

/// An error found in one file, placed by a span.
#[derive(Debug)]
pub struct LiveError {
    pub span: Span,
    pub message: String,
}

/// An error together with the name of the file it was found in.
#[derive(Debug)]
pub struct LiveFileError {
    pub file: String,
    pub span: Span,
    pub message: String,
}

impl LiveError {
    /// Attaches the file's name to the error.
    pub fn to_live_file_error(self, file: &str) -> (r: LiveFileError)
        ensures
            r.file@ == file@,
            r.span == self.span,
            r.message == self.message,
    {
        LiveFileError { file: String::from_str(file), span: self.span, message: self.message }
    }
}

} // verus!
