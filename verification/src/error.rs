//! Bilingual error values: every stage reports what went wrong in both
//! Vietnamese and English, with a source position where one is known.

use vstd::prelude::*;

verus! {

/// A lexical or parse error, carried from the front end to the caller.
#[derive(Debug)]
pub struct VlError {
    pub msg_vi: String,
    pub msg_en: String,
    pub line: usize,
    pub col: usize,
}

impl VlError {
    /// Builds an error from its two messages and a position.
    pub fn new(vi: &str, en: &str, line: usize, col: usize) -> (e: VlError)
        ensures
            e.msg_vi@ == vi@,
            e.msg_en@ == en@,
            e.line == line,
            e.col == col,
    {
        VlError { msg_vi: vi.to_owned(), msg_en: en.to_owned(), line, col }
    }
}

/// A fatal compile-time fault: the program needs more constants, names or
/// code than the bytecode format can address.
#[derive(Debug)]
pub struct CompilerError {
    pub vn: String,
    pub en: String,
    pub line: usize,
    pub col: usize,
}

impl CompilerError {
    /// Builds an error from its two messages and a position.
    pub fn new(vn: &str, en: &str, line: usize, col: usize) -> (e: CompilerError)
        ensures
            e.vn@ == vn@,
            e.en@ == en@,
            e.line == line,
            e.col == col,
    {
        CompilerError { vn: vn.to_owned(), en: en.to_owned(), line, col }
    }
}

} // verus!
