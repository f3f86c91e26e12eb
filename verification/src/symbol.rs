//! Symbols: a text over an alphabet, held as its value in 128 bits.

use crate::alphabet::{invert_in, Alphabet, DefaultAlphabet};
use crate::bound::{max_len, max_len_of};
use crate::codec::{
    decode_of, encode_of, has_text, is_symbol_value, is_valid_text, lemma_decode_encode,
    lemma_decode_over_alphabet, lemma_encode_decode, lemma_encode_fits, lemma_encode_injective,
    lemma_encode_push, lemma_split_last_digit, lemma_valid_text_gives_symbol_value,
    over_alphabet,
};
use crate::error::SymbolParsingError;
use crate::text::{debug_layout, debug_layout_of, debug_quoted, quote_text, string_from_reversed};
use core::marker::PhantomData;
use vstd::prelude::*;

verus! {

/// A symbol over the alphabet `A` of `N` characters. It holds the value
/// of its text and nothing else; the alphabet is part of the type, so
/// symbols over different alphabets do not meet.
#[derive(Debug, Hash, Ord)]
pub struct CustomSymbol<const N: usize, A: Alphabet<N>> {
    _alphabet: PhantomData<A>,
    data: u128,
}

/// A symbol over the default alphabet: up to 25 characters out of the
/// lower-case letters and `_`.
pub type Symbol = CustomSymbol<27, DefaultAlphabet>;

impl<const N: usize, A: Alphabet<N>> Clone for CustomSymbol<N, A> {
    fn clone(&self) -> (copy: Self)
        ensures
            copy == *self,
    {
        *self
    }
}

impl<const N: usize, A: Alphabet<N>> Copy for CustomSymbol<N, A> {

}

impl<const N: usize, A: Alphabet<N>> View for CustomSymbol<N, A> {
    type V = Seq<char>;

    /// A symbol is viewed as its text.
    open spec fn view(&self) -> Seq<char> {
        decode_of(A::ALPHABET@, self.raw() as nat)
    }
}

/// One step of encoding: the value of `prefix` followed by `c`, from
/// the value of `prefix`.
pub(crate) fn push_digit<const N: usize, A: Alphabet<N>>(
    data: u128,
    c: char,
    Ghost(prefix): Ghost<Seq<char>>,
) -> (r: Result<u128, SymbolParsingError>)
    requires
        N >= 1,
        prefix.len() < max_len_of(N as nat),
        data == encode_of(A::ALPHABET@, prefix),
    ensures
        r is Ok <==> A::ALPHABET@.contains(c),
        r matches Ok(next) ==> next == encode_of(A::ALPHABET@, prefix.push(c)),
{
    match invert_in(&A::ALPHABET, c) {
        Ok(digit) => {
            proof {
                lemma_encode_push(A::ALPHABET@, prefix, c);
                lemma_encode_fits(A::ALPHABET@, prefix.push(c));
            }
            let radix: u128 = N as u128 + 1;
            Ok(data * radix + digit)
        },
        Err(e) => Err(e),
    }
}

impl<const N: usize, A: Alphabet<N>> CustomSymbol<N, A> {
    /// Every symbol holds a value that a symbol may hold.
    #[verifier::type_invariant]
    spec fn holds_symbol_value(self) -> bool {
        is_symbol_value(A::ALPHABET@, self.data as nat)
    }

    /// The value that the symbol holds.
    pub closed spec fn raw(&self) -> u128 {
        self.data
    }

    /// The symbol that holds `data`.
    pub closed spec fn with_raw(data: u128) -> Self {
        CustomSymbol { _alphabet: PhantomData, data }
    }

    /// The symbol holds the value of a text that is valid over its
    /// alphabet. Every symbol that a program holds is well formed; the
    /// predicate is for symbols that a proof speaks of.
    pub open spec fn well_formed(&self) -> bool {
        is_symbol_value(A::ALPHABET@, self.raw() as nat)
    }

    /// What parsing makes of `text`: the symbol with the value of
    /// `text` where `text` is valid, and the error where it is not.
    pub open spec fn parsed(text: Seq<char>) -> Result<Self, SymbolParsingError> {
        if is_valid_text(A::ALPHABET@, text) {
            Ok(Self::with_raw(encode_of(A::ALPHABET@, text) as u128))
        } else {
            Err(SymbolParsingError)
        }
    }

    /// The symbol that holds `data`, which the caller knows to be the
    /// value of a symbol: nothing is tested.
    pub fn from_raw(data: u128) -> (sym: Self)
        requires
            is_symbol_value(A::ALPHABET@, data as nat),
        ensures
            sym == Self::with_raw(data),
            sym.raw() == data,
            sym.well_formed(),
    {
        CustomSymbol { _alphabet: PhantomData, data }
    }

    /// The symbol of the text `chars`, if `chars` is a valid text.
    pub fn parse_chars(chars: &[char]) -> (r: Result<Self, SymbolParsingError>)
        ensures
            r == Self::parsed(chars@),
            r is Ok <==> is_valid_text(A::ALPHABET@, chars@),
            r matches Ok(sym) ==> sym.raw() == encode_of(A::ALPHABET@, chars@) && sym@ == chars@
                && sym.well_formed(),
    {
        if N == 0 || chars.len() == 0 {
            proof {
                if chars@.len() > 0 {
                    assert(!A::ALPHABET@.contains(chars@[0]));
                }
            }
            return Err(SymbolParsingError);
        }
        let max = max_len(N);
        if chars.len() > max {
            return Err(SymbolParsingError);
        }
        let mut data: u128 = 0;
        let mut i: usize = 0;
        while i < chars.len()
            invariant
                N >= 1,
                i <= chars.len() <= max_len_of(N as nat),
                data == encode_of(A::ALPHABET@, chars@.take(i as int)),
                over_alphabet(A::ALPHABET@, chars@.take(i as int)),
            decreases chars.len() - i,
        {
            let ghost prefix = chars@.take(i as int);
            match push_digit::<N, A>(data, chars[i], Ghost(prefix)) {
                Ok(next) => {
                    data = next;
                },
                Err(e) => {
                    return Err(e);
                },
            }
            proof {
                assert(chars@.take(i + 1) =~= prefix.push(chars@[i as int]));
                assert forall|j: int| 0 <= j < i + 1 implies A::ALPHABET@.contains(
                    #[trigger] chars@.take(i + 1)[j],
                ) by {
                    if j < i {
                        assert(chars@.take(i + 1)[j] == prefix[j]);
                    }
                }
            }
            i += 1;
        }
        proof {
            assert(chars@.take(i as int) =~= chars@);
            lemma_valid_text_gives_symbol_value(A::ALPHABET@, chars@);
            lemma_decode_encode(A::ALPHABET@, chars@);
        }
        Ok(CustomSymbol { _alphabet: PhantomData, data })
    }

    /// Whether `data` is the value of a symbol over this alphabet, and
    /// so may be handed to `from_raw`.
    pub fn is_valid_raw(data: u128) -> (ok: bool)
        ensures
            ok == is_symbol_value(A::ALPHABET@, data as nat),
    {
        if N == 0 {
            return false;
        }
        let radix: u128 = N as u128 + 1;
        let max = max_len(N);
        let mut n: u128 = data;
        let mut count: usize = 0;
        loop
            invariant
                N >= 1,
                radix == N + 1,
                count < max == max_len_of(N as nat),
                is_symbol_value(A::ALPHABET@, data as nat) <==> has_text(A::ALPHABET@, n as nat)
                    && decode_of(A::ALPHABET@, n as nat).len() + count <= max,
            decreases n,
        {
            proof {
                lemma_split_last_digit(n as nat, radix as nat);
            }
            if n % radix == 0 {
                return false;
            }
            if n < radix {
                return true;
            }
            assert(decode_of(A::ALPHABET@, (n / radix) as nat).len() >= 1);
            count += 1;
            if count == max {
                return false;
            }
            n = n / radix;
        }
    }

    /// The characters of the text of `data`, the last one first.
    fn decode_reversed(data: u128) -> (chars: Vec<char>)
        requires
            has_text(A::ALPHABET@, data as nat),
        ensures
            chars@.reverse() == decode_of(A::ALPHABET@, data as nat),
    {
        let radix: u128 = N as u128 + 1;
        let mut n: u128 = data;
        let mut chars: Vec<char> = Vec::new();
        loop
            invariant
                N >= 1,
                radix == N + 1,
                has_text(A::ALPHABET@, n as nat),
                decode_of(A::ALPHABET@, data as nat) == decode_of(A::ALPHABET@, n as nat)
                    + chars@.reverse(),
            decreases n,
        {
            proof {
                lemma_split_last_digit(n as nat, radix as nat);
            }
            let ghost before = chars@;
            let ghost whole = n;
            let i = n % radix;
            n = n / radix;
            let c = A::ALPHABET[(i - 1) as usize];
            chars.push(c);
            proof {
                assert(chars@.reverse() =~= seq![c] + before.reverse());
                if n != 0 {
                    assert(decode_of(A::ALPHABET@, whole as nat) + before.reverse() =~= decode_of(
                        A::ALPHABET@,
                        n as nat,
                    ) + chars@.reverse());
                }
            }
            if n == 0 {
                return chars;
            }
        }
    }

    /// The text of the symbol.
    pub fn to_string(&self) -> (text: String)
        ensures
            text@ == self@,
            is_valid_text(A::ALPHABET@, text@),
            self.well_formed(),
    {
        proof {
            use_type_invariant(self);
            lemma_decode_over_alphabet(A::ALPHABET@, self.data as nat);
        }
        let chars = Self::decode_reversed(self.data);
        string_from_reversed(&chars)
    }

    /// The symbol as a developer reads it: its value in decimal and its
    /// text as `{:?}` quotes it.
    pub fn debug_string(&self) -> (text: String)
        ensures
            text@ == debug_layout_of(self.raw(), debug_quoted(self@)),
    {
        let quoted = quote_text(self.to_string().as_str());
        debug_layout(self.value(), quoted.as_str())
    }

    /// The value that the symbol holds.
    pub(crate) fn value(&self) -> (data: u128)
        ensures
            data == self.raw(),
            is_symbol_value(A::ALPHABET@, data as nat),
    {
        proof {
            use_type_invariant(self);
        }
        self.data
    }
}

impl<const N: usize, A: Alphabet<N>> CustomSymbol<N, A> {
    /// The symbol that holds `data` holds `data`.
    pub proof fn lemma_raw_of_with_raw(data: u128)
        ensures
            Self::with_raw(data).raw() == data,
    {
    }

    /// Parsing and printing are inverse to each other: a valid text
    /// parses into a symbol whose text it is.
    pub proof fn lemma_parsed_has_text(text: Seq<char>)
        requires
            is_valid_text(A::ALPHABET@, text),
        ensures
            Self::parsed(text) matches Ok(sym) && sym@ == text && sym.raw() == encode_of(
                A::ALPHABET@,
                text,
            ) && sym.well_formed(),
    {
        lemma_valid_text_gives_symbol_value(A::ALPHABET@, text);
        lemma_decode_encode(A::ALPHABET@, text);
    }

    /// Two valid texts that differ parse into symbols that differ, and
    /// that hold different values.
    pub proof fn lemma_parsed_injective(first: Seq<char>, second: Seq<char>)
        requires
            is_valid_text(A::ALPHABET@, first),
            is_valid_text(A::ALPHABET@, second),
            first != second,
        ensures
            Self::parsed(first) matches Ok(a) && Self::parsed(second) matches Ok(b) && a.raw()
                != b.raw() && a != b,
    {
        Self::lemma_parsed_has_text(first);
        Self::lemma_parsed_has_text(second);
        lemma_encode_injective(A::ALPHABET@, first, second);
    }

    /// The length limit is exact: a text made of the alphabet's
    /// characters parses exactly when it has at least one character
    /// and at most `max_len_of(N)`, so that one character more than the
    /// limit is refused.
    pub proof fn lemma_parsed_length_limit(text: Seq<char>)
        requires
            over_alphabet(A::ALPHABET@, text),
        ensures
            Self::parsed(text) is Ok <==> 1 <= text.len() <= max_len_of(N as nat),
            text.len() == max_len_of(N as nat) + 1 ==> Self::parsed(text) is Err,
    {
    }

    /// The empty text is refused, and so is every text that holds a
    /// character, at any place `i`, that the alphabet lacks.
    pub proof fn lemma_parsed_refuses(text: Seq<char>, i: int)
        requires
            text.len() == 0 || (0 <= i < text.len() && !A::ALPHABET@.contains(text[i])),
        ensures
            Self::parsed(text) is Err,
    {
    }

    /// Where no character stands twice in the alphabet, the text of a
    /// symbol is valid and parses back into a symbol with the same
    /// value: no two symbols have one text.
    pub proof fn lemma_text_parses_back(sym: Self)
        requires
            A::ALPHABET@.no_duplicates(),
            sym.well_formed(),
        ensures
            is_valid_text(A::ALPHABET@, sym@),
            Self::parsed(sym@) matches Ok(back) && back.raw() == sym.raw(),
    {
        lemma_decode_over_alphabet(A::ALPHABET@, sym.raw() as nat);
        lemma_encode_decode(A::ALPHABET@, sym.raw() as nat);
    }
}

} // verus!
