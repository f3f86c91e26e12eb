//! Short identifiers held as 128-bit integers.
//!
//! A symbol is a text of a few characters out of a fixed alphabet. It is
//! kept as the value of that text read as a numeral, so symbols are
//! compared, ordered and hashed as integers, and the text is computed
//! back from the value when it is asked for.
//!
//! - `bound`: how many characters fit into 128 bits;
//! - `alphabet`: the table of characters and the digit of a character;
//! - `codec`: the value of a text and the text of a value, with the laws
//!   that make them inverse to each other;
//! - `symbol`: the symbol type, parsing and printing;
//! - `convert`: conversions from texts and to texts and raw values;
//! - `order`: equality and order of symbols;
//! - `text`: strings and decimal numerals;
//! - `error`: the error of parsing.

pub mod alphabet;
pub mod bound;
pub mod codec;
pub mod convert;
pub mod error;
pub mod order;
pub mod symbol;
pub mod text;

pub use crate::alphabet::{Alphabet, DefaultAlphabet};
pub use crate::bound::{ceil_log2, max_len};
pub use crate::error::{SymbolParsingError, PARSING_ERROR_MSG};
pub use crate::symbol::{CustomSymbol, Symbol};
