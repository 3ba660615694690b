//! Error values surfaced by the descriptor parsers and the piece catalog.

use vstd::prelude::*;

verus! {

/// A malformed descriptor file: carries the 1-based line number on which the
/// problem was found and the offending token text.
#[derive(Debug)]
pub struct InvalidFormatError {
    pub line: usize,
    pub token: String,
}

impl InvalidFormatError {
    pub fn new(line: usize, token: String) -> (r: Self)
        ensures
            r.line == line,
            r.token == token,
    {
        Self { line, token }
    }
}

/// A piece name that is not present in the catalog: carries the missing name.
#[derive(Debug)]
pub struct PieceNotFoundError {
    pub name: String,
}

/// The errors a board or catalog load can end in.
#[derive(Debug)]
pub enum Error {
    InvalidFileFormat(InvalidFormatError),
    PieceNotFound(PieceNotFoundError),
}

} // verus!
