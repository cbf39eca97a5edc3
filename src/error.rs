//! Errors of a parse.
use vstd::prelude::*;

use crate::catalog::PropertyType;

verus! {

/// The stage of the parse that found an input malformed.
#[derive(Clone, Copy, Debug, PartialEq, Eq, Structural)]
pub enum ErrorKind {
    /// A continuation line with no line before it.
    Fold,
    /// A content line that does not follow the grammar.
    Grammar,
    /// Malformed parameters: a missing `=`, a bad name or bad quoting.
    Param,
    /// A value that does not fit the kind of its property.
    Value,
    /// A missing or repeated `BEGIN:VCARD`, or a missing `END:VCARD`.
    Envelope,
    /// A property type that occurs more or less often than a card allows.
    Cardinality,
}

/// Why a parse failed: the stage; `line`, the index, counted from 0, of the
/// logical (unfolded) line that was rejected, the number of logical lines
/// where `END:VCARD` never came, or 0 where the whole card is at fault (a
/// fold error before any line exists, a cardinality error); and,
/// for a cardinality error, the property type that breaks its rule and how
/// many properties of it were found.
#[derive(Clone, Debug, PartialEq, Eq)]
pub struct ParserError {
    pub kind: ErrorKind,
    pub line: usize,
    pub property: Option<PropertyType>,
    pub found: usize,
}

impl ParserError {
    /// An error of the given stage at the given logical line.
    pub fn new(kind: ErrorKind, line: usize) -> (r: ParserError)
        ensures
            r == (ParserError { kind, line, property: None, found: 0 }),
    {
        ParserError { kind, line, property: None, found: 0 }
    }
}

} // verus!
