//! Alphabets: the ordered table of characters that a symbol may hold, and
//! the inversion of a character into its digit.

use crate::bound::{bits_per_char, ceil_log2_of, max_len, max_len_of};
use crate::error::SymbolParsingError;
use vstd::prelude::*;

verus! {

/// The digit that stands for `c` under `table`: the place of the first
/// occurrence of `c`, counted from 1. A character that the table lacks
/// has the digit 0, which no character of the table has.
pub open spec fn digit_of(table: Seq<char>, c: char) -> nat {
    match table.index_of_first(c) {
        Some(i) => (i + 1) as nat,
        None => 0,
    }
}

/// What `digit_of` returns, spelled out: 0 exactly for the characters
/// that the table lacks, and else the first place that holds `c`.
pub proof fn lemma_digit_of(table: Seq<char>, c: char)
    ensures
        digit_of(table, c) <= table.len(),
        digit_of(table, c) == 0 <==> !table.contains(c),
        digit_of(table, c) > 0 ==> table[digit_of(table, c) - 1] == c,
        forall|j: int| 0 <= j < digit_of(table, c) - 1 ==> table[j] != c,
{
    table.index_of_first_ensures(c);
}

/// The first place that holds `c` has the digit of `c`: `digit_of` has
/// no other value with the properties of `lemma_digit_of`.
pub proof fn lemma_digit_of_first(table: Seq<char>, c: char, i: int)
    requires
        0 <= i < table.len(),
        table[i] == c,
        forall|j: int| 0 <= j < i ==> table[j] != c,
    ensures
        digit_of(table, c) == i + 1,
{
    lemma_digit_of(table, c);
    assert(table.contains(c));
}

/// In a table without repeated characters every place is the first
/// place of its character.
pub proof fn lemma_digit_of_distinct(table: Seq<char>, i: int)
    requires
        table.no_duplicates(),
        0 <= i < table.len(),
    ensures
        digit_of(table, table[i]) == i + 1,
{
    lemma_digit_of_first(table, table[i], i);
}

/// The digit of `c` under `table`: the place of its first occurrence,
/// counted from 1 since 0 is kept free. Fails exactly when the table
/// lacks `c`.
pub fn invert_in<const N: usize>(table: &[char; N], c: char) -> (r: Result<
    u128,
    SymbolParsingError,
>)
    ensures
        r is Ok <==> table@.contains(c),
        r matches Ok(d) ==> d == digit_of(table@, c) && 1 <= d <= N,
{
    let mut i: usize = 0;
    while i < N
        invariant
            i <= N,
            forall|j: int| 0 <= j < i ==> table@[j] != c,
        decreases N - i,
    {
        if table[i] == c {
            proof {
                lemma_digit_of_first(table@, c, i as int);
            }
            return Ok((i + 1) as u128);
        }
        i += 1;
    }
    Err(SymbolParsingError)
}

/// An alphabet: `N` characters in a fixed order. A type that implements
/// the trait gives the table and leaves the rest as it is provided; the
/// symbols read the table alone.
pub trait Alphabet<const N: usize>: Copy + Clone + PartialEq + Eq {
    /// The characters that a symbol over this alphabet may hold. No
    /// character should stand in it twice: a second occurrence is never
    /// the digit of its character.
    const ALPHABET: [char; N];

    /// The number of characters of the alphabet.
    const LEN: usize = N;

    /// The longest text that a symbol over this alphabet can hold.
    fn max_symbol_len() -> (max: usize)
        requires
            N >= 1,
        ensures
            max == max_len_of(N as nat),
    {
        max_len(N)
    }

    /// The digit of `c`: the place of its first occurrence in
    /// `ALPHABET`, counted from 1. Fails exactly when the alphabet
    /// lacks `c`.
    fn invert_char(c: char) -> (r: Result<u128, SymbolParsingError>)
        ensures
            r is Ok <==> Self::ALPHABET@.contains(c),
            r matches Ok(d) ==> d == digit_of(Self::ALPHABET@, c) && 1 <= d <= N,
    {
        invert_in(&Self::ALPHABET, c)
    }
}

/// The alphabet of `Symbol`: the lower-case letters `a` to `z`, then `_`.
#[derive(Clone, Copy, Debug, PartialEq, Eq, PartialOrd, Ord, Hash)]
pub struct DefaultAlphabet;

impl Alphabet<27> for DefaultAlphabet {
    const ALPHABET: [char; 27] = [
        'a', 'b', 'c', 'd', 'e', 'f', 'g', 'h', 'i', 'j', 'k', 'l', 'm', 'n', 'o', 'p', 'q', 'r',
        's', 't', 'u', 'v', 'w', 'x', 'y', 'z', '_',
    ];
}

/// The table of the default alphabet as a sequence.
pub open spec fn default_table() -> Seq<char> {
    seq![
        'a', 'b', 'c', 'd', 'e', 'f', 'g', 'h', 'i', 'j', 'k', 'l', 'm', 'n', 'o', 'p', 'q', 'r',
        's', 't', 'u', 'v', 'w', 'x', 'y', 'z', '_',
    ]
}

/// The default alphabet holds the 27 characters of `default_table`,
/// none of them twice, and allows texts of up to 25 characters.
pub proof fn lemma_default_alphabet()
    ensures
        DefaultAlphabet::ALPHABET@ == default_table(),
        DefaultAlphabet::ALPHABET@.len() == 27,
        DefaultAlphabet::ALPHABET@.no_duplicates(),
        bits_per_char(27) == 5,
        max_len_of(27) == 25,
{
    assert(DefaultAlphabet::ALPHABET@ =~= default_table());
    assert(ceil_log2_of(28) == 5) by {
        reveal_with_fuel(ceil_log2_of, 6);
    }
    assert(bits_per_char(27) == 5);
}

} // verus!
