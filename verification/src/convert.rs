//! Conversions between symbols, texts and raw values.

use crate::alphabet::Alphabet;
use crate::bound::{max_len, max_len_of};
use crate::codec::{
    encode_of, is_valid_text, lemma_decode_encode, lemma_valid_text_gives_symbol_value,
    over_alphabet,
};
use crate::error::SymbolParsingError;
use crate::symbol::{push_digit, CustomSymbol};
use vstd::prelude::*;
use vstd::std_specs::convert::{FromSpecImpl, TryFromSpecImpl};

verus! {

impl<'a, const N: usize, A: Alphabet<N>> TryFrom<&'a str> for CustomSymbol<N, A> {
    type Error = SymbolParsingError;

    /// The symbol of `value`, if `value` is a valid text: not empty, of
    /// at most `max_len_of(N)` characters, all of them in the alphabet.
    fn try_from(value: &'a str) -> (r: Result<Self, SymbolParsingError>)
        ensures
            r == Self::parsed(value@),
            r is Ok <==> is_valid_text(A::ALPHABET@, value@),
            r matches Ok(sym) ==> sym.raw() == encode_of(A::ALPHABET@, value@) && sym@ == value@
                && sym.well_formed(),
    {
        if N == 0 {
            proof {
                if value@.len() > 0 {
                    assert(!A::ALPHABET@.contains(value@[0]));
                }
            }
            return Err(SymbolParsingError);
        }
        let max = max_len(N);
        let mut data: u128 = 0;
        let mut count: usize = 0;
        for c in it: value.chars()
            invariant
                N >= 1,
                it.seq() == value@,
                count == it.index(),
                count <= max == max_len_of(N as nat),
                data == encode_of(A::ALPHABET@, value@.take(count as int)),
                over_alphabet(A::ALPHABET@, value@.take(count as int)),
        {
            if count == max {
                return Err(SymbolParsingError);
            }
            let ghost prefix = value@.take(count as int);
            match push_digit::<N, A>(data, c, Ghost(prefix)) {
                Ok(next) => {
                    data = next;
                },
                Err(e) => {
                    return Err(e);
                },
            }
            proof {
                assert(value@.take(count + 1) =~= prefix.push(c));
                assert forall|j: int| 0 <= j < count + 1 implies A::ALPHABET@.contains(
                    #[trigger] value@.take(count + 1)[j],
                ) by {
                    if j < count {
                        assert(value@.take(count + 1)[j] == prefix[j]);
                    }
                }
            }
            count += 1;
        }
        if count == 0 {
            return Err(SymbolParsingError);
        }
        proof {
            assert(value@.take(count as int) =~= value@);
            lemma_valid_text_gives_symbol_value(A::ALPHABET@, value@);
            lemma_decode_encode(A::ALPHABET@, value@);
        }
        Ok(CustomSymbol::from_raw(data))
    }
}

impl<'a, const N: usize, A: Alphabet<N>> TryFromSpecImpl<&'a str> for CustomSymbol<N, A> {
    open spec fn obeys_try_from_spec() -> bool {
        true
    }

    open spec fn try_from_spec(value: &'a str) -> Result<Self, SymbolParsingError> {
        Self::parsed(value@)
    }
}

impl<const N: usize, A: Alphabet<N>> TryFrom<String> for CustomSymbol<N, A> {
    type Error = SymbolParsingError;

    /// The symbol of `value`, if `value` is a valid text.
    fn try_from(value: String) -> (r: Result<Self, SymbolParsingError>)
        ensures
            r == Self::parsed(value@),
            r is Ok <==> is_valid_text(A::ALPHABET@, value@),
            r matches Ok(sym) ==> sym.raw() == encode_of(A::ALPHABET@, value@) && sym@ == value@
                && sym.well_formed(),
    {
        CustomSymbol::try_from(value.as_str())
    }
}

impl<const N: usize, A: Alphabet<N>> TryFromSpecImpl<String> for CustomSymbol<N, A> {
    open spec fn obeys_try_from_spec() -> bool {
        true
    }

    open spec fn try_from_spec(value: String) -> Result<Self, SymbolParsingError> {
        Self::parsed(value@)
    }
}

impl<'a, const N: usize, A: Alphabet<N>> TryFrom<&'a String> for CustomSymbol<N, A> {
    type Error = SymbolParsingError;

    /// The symbol of `value`, if `value` is a valid text.
    fn try_from(value: &'a String) -> (r: Result<Self, SymbolParsingError>)
        ensures
            r == Self::parsed(value@),
            r is Ok <==> is_valid_text(A::ALPHABET@, value@),
            r matches Ok(sym) ==> sym.raw() == encode_of(A::ALPHABET@, value@) && sym@ == value@
                && sym.well_formed(),
    {
        CustomSymbol::try_from(value.as_str())
    }
}

impl<'a, const N: usize, A: Alphabet<N>> TryFromSpecImpl<&'a String> for CustomSymbol<N, A> {
    open spec fn obeys_try_from_spec() -> bool {
        true
    }

    open spec fn try_from_spec(value: &'a String) -> Result<Self, SymbolParsingError> {
        Self::parsed(value@)
    }
}

impl<const N: usize, A: Alphabet<N>> From<CustomSymbol<N, A>> for u128 {
    /// The value that the symbol holds, all 128 bits of it.
    fn from(value: CustomSymbol<N, A>) -> (data: u128)
        ensures
            data == value.raw(),
            value.well_formed(),
    {
        value.value()
    }
}

impl<const N: usize, A: Alphabet<N>> FromSpecImpl<CustomSymbol<N, A>> for u128 {
    open spec fn obeys_from_spec() -> bool {
        true
    }

    open spec fn from_spec(value: CustomSymbol<N, A>) -> u128 {
        value.raw()
    }
}

impl<const N: usize, A: Alphabet<N>> From<CustomSymbol<N, A>> for String {
    /// The text of the symbol.
    fn from(value: CustomSymbol<N, A>) -> (text: String)
        ensures
            text@ == value@,
    {
        value.to_string()
    }
}

/// Two strings with one text need not be one value to Verus, so the
/// conversion is specified by its `ensures`, over the views.
impl<const N: usize, A: Alphabet<N>> FromSpecImpl<CustomSymbol<N, A>> for String {
    open spec fn obeys_from_spec() -> bool {
        false
    }

    open spec fn from_spec(value: CustomSymbol<N, A>) -> String {
        choose|text: String| text@ == value@
    }
}

impl<'a, const N: usize, A: Alphabet<N>> From<&'a CustomSymbol<N, A>> for String {
    /// The text of the symbol.
    fn from(value: &'a CustomSymbol<N, A>) -> (text: String)
        ensures
            text@ == value@,
    {
        value.to_string()
    }
}

impl<'a, const N: usize, A: Alphabet<N>> FromSpecImpl<&'a CustomSymbol<N, A>> for String {
    open spec fn obeys_from_spec() -> bool {
        false
    }

    open spec fn from_spec(value: &'a CustomSymbol<N, A>) -> String {
        choose|text: String| text@ == value@
    }
}

} // verus!
