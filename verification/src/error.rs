//! The ways in which reading a declaration's directives can fail.

use vstd::prelude::*;
use vstd::string::*;

verus! {

/// A structural error: the expansion stops and nothing is produced.
#[derive(Debug, Clone, Copy, PartialEq, Eq, Structural)]
pub enum ExpandError {
    /// The argument is not of the form `size = <value>`.
    UnexpectedMetaItem,
    /// The value given for `size` is not an integer literal that fits in 64 bits.
    UnexpectedSizeType,
    /// The arguments of a `loc` directive are not `<integer> : <integer>`.
    /// `field` and `attribute` locate the directive in the declaration.
    MalformedRange { field: usize, attribute: usize },
    /// A field without a name carries a `loc` directive.
    TupleStruct { field: usize },
}

impl ExpandError {
    /// The text of the diagnostic for each error.
    pub open spec fn message_text(self) -> Seq<char> {
        match self {
            ExpandError::UnexpectedMetaItem => "Unexpected meta item"@,
            ExpandError::UnexpectedSizeType => "Unexpected size type"@,
            ExpandError::MalformedRange { .. } => "expected `<integer> : <integer>`"@,
            ExpandError::TupleStruct { .. } => "Tuple structs are not supported"@,
        }
    }

    /// The index of the field that the error is attributed to, if any.
    pub open spec fn field_index(self) -> Option<usize> {
        match self {
            ExpandError::MalformedRange { field, .. } => Some(field),
            ExpandError::TupleStruct { field } => Some(field),
            _ => None,
        }
    }

    /// The text of the diagnostic for this error.
    pub fn message(&self) -> (r: String)
        ensures
            r@ == self.message_text(),
    {
        match self {
            ExpandError::UnexpectedMetaItem => String::from_str("Unexpected meta item"),
            ExpandError::UnexpectedSizeType => String::from_str("Unexpected size type"),
            ExpandError::MalformedRange { .. } => String::from_str(
                "expected `<integer> : <integer>`",
            ),
            ExpandError::TupleStruct { .. } => String::from_str("Tuple structs are not supported"),
        }
    }

    /// The index of the field that this error is attributed to, if any.
    pub fn field(&self) -> (r: Option<usize>)
        ensures
            r == self.field_index(),
    {
        match self {
            ExpandError::MalformedRange { field, .. } => Some(*field),
            ExpandError::TupleStruct { field } => Some(*field),
            _ => None,
        }
    }
}

} // verus!
