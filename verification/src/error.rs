use vstd::prelude::*;

use crate::ast::Pos;

verus! {

/// The reason a parser failed.
#[derive(Debug)]
pub enum ParseError {
    Expecting { value: String },
}

/// A parse failure at an exact position. `recoverable` means that no
/// irreversible commitment was made, so a sibling grammar alternative may
/// still be tried; a non-recoverable error aborts the whole parse.
#[derive(Debug)]
pub struct Error {
    pub pos: Pos,
    pub recoverable: bool,
    pub inner: ParseError,
}

/// `e` is an "expecting `v`" error at line `line`, column `col`.
pub open spec fn expecting_at(e: Error, line: int, col: int, recoverable: bool, v: Seq<char>) -> bool {
    &&& e.pos.line == line
    &&& e.pos.column == col
    &&& e.recoverable == recoverable
    &&& e.inner matches ParseError::Expecting { value } && value@ == v
}

} // verus!
