//! The one error of the library.

use vstd::prelude::*;

verus! {

/// What `SymbolParsingError::message` returns.
pub const PARSING_ERROR_MSG: &'static str =
    "To be a valid `Symbol` or `CustomSymbol`, the provided ident or string must be at least one \
    character long, at most `Alphabet::max_symbol_len()` characters long, and consist only of \
    characters that are included in the `Alphabet`. No other characters are permitted, nor is \
    whitespace of any kind.";

/// A text could not become a symbol: it is empty, longer than the
/// alphabet allows, or holds a character that the alphabet lacks. The
/// value says no more than that.
#[derive(Clone, Copy, Debug, PartialEq, Eq, Structural)]
pub struct SymbolParsingError;

impl SymbolParsingError {
    /// The text that explains the error to a reader.
    pub fn message(&self) -> (msg: &'static str)
        ensures
            msg@ == PARSING_ERROR_MSG@,
    {
        PARSING_ERROR_MSG
    }
}

} // verus!
