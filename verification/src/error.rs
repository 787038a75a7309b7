//! The failures that the library reports.

use vstd::prelude::*;

verus! {

/// Why an operation on tokens could not produce its result.
#[derive(Clone, Copy, Debug, PartialEq, Eq, Structural)]
pub enum TokenizationError {
    /// The word is not in the list of the category that was probed.
    NoMatch,
    /// The last byte of a wire form is not the ordinal of any category.
    InvalidCategory,
    /// The token is not an element of the sequence it was looked up in.
    TokenNotFound,
    /// The token's span would end before it starts: the element that follows
    /// the token, or the end of the source for the last element, lies before
    /// the token's offset.
    NegativeSpan,
    /// The source ends before the token's span does.
    SourceTooShort,
    /// The bytes of the token's span are not UTF-8.
    InvalidText,
}

} // verus!
