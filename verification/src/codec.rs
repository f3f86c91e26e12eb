//! The codec as mathematics: a text over an alphabet of `N` characters
//! is a numeral of radix `N + 1` whose digits run from 1 to `N`. The
//! digit 0 is never written, so no numeral has a leading zero and texts
//! of different lengths have different values.

use crate::alphabet::{digit_of, lemma_digit_of, lemma_digit_of_distinct};
use crate::bound::{bits_per_char, lemma_bits_per_char_positive, lemma_ceil_log2_bounds, max_len_of};
use vstd::arithmetic::div_mod::{
    lemma_basic_div, lemma_div_decreases, lemma_fundamental_div_mod,
    lemma_fundamental_div_mod_converse, lemma_mod_bound,
};
use vstd::arithmetic::power::{lemma_pow_increases, lemma_pow_multiplies, pow};
use vstd::arithmetic::power2::{lemma2_to64, lemma_pow2, lemma_pow2_adds, pow2};
use vstd::prelude::*;

verus! {

/// The radix of the numerals over `table`: one more than its length.
pub open spec fn radix_of(table: Seq<char>) -> nat {
    table.len() + 1
}

/// Every character of `text` stands in `table`.
pub open spec fn over_alphabet(table: Seq<char>, text: Seq<char>) -> bool {
    forall|i: int| 0 <= i < text.len() ==> table.contains(#[trigger] text[i])
}

/// The texts that can become a symbol over `table`: not empty, no
/// longer than the alphabet allows, and made of its characters.
pub open spec fn is_valid_text(table: Seq<char>, text: Seq<char>) -> bool {
    &&& 1 <= text.len() <= max_len_of(table.len())
    &&& over_alphabet(table, text)
}

/// The value of `text` read as a numeral, its first character the most
/// significant digit.
pub open spec fn encode_of(table: Seq<char>, text: Seq<char>) -> nat
    decreases text.len(),
{
    if text.len() == 0 {
        0
    } else {
        encode_of(table, text.drop_last()) * radix_of(table) + digit_of(table, text.last())
    }
}

/// `data` is written with the digits 1 to `N` alone: it is not 0 and no
/// digit of it is 0.
pub open spec fn has_text(table: Seq<char>, data: nat) -> bool
    decreases data,
    via has_text_decreases
{
    &&& table.len() >= 1
    &&& data % radix_of(table) != 0
    &&& (data < radix_of(table) || has_text(table, data / radix_of(table)))
}

#[via_fn]
proof fn has_text_decreases(table: Seq<char>, data: nat) {
    if table.len() >= 1 && data >= radix_of(table) {
        lemma_split_last_digit(data, radix_of(table));
    }
}

/// Taking the last digit off a numeral of radix `r`: the digit is below
/// `r`, the rest is smaller than the whole, and it is 0 exactly when
/// the numeral has one digit.
pub proof fn lemma_split_last_digit(data: nat, r: nat)
    requires
        r >= 2,
    ensures
        data % r < r,
        data == (data / r) * r + data % r,
        data > 0 ==> data / r < data,
        data < r <==> data / r == 0,
{
    let x = data as int;
    let d = r as int;
    lemma_mod_bound(x, d);
    lemma_fundamental_div_mod(x, d);
    assert(d * (x / d) == (x / d) * d) by (nonlinear_arith);
    if x > 0 {
        lemma_div_decreases(x, d);
    }
    if x < d {
        lemma_basic_div(x, d);
    } else {
        assert(x / d != 0) by {
            if x / d == 0 {
                assert(d * (x / d) == 0) by (nonlinear_arith)
                    requires
                        x / d == 0,
                ;
            }
        }
    }
}

/// The text that `data` stands for: its digits, most significant first,
/// each replaced by the character at its place. It is meant for values
/// with `has_text`.
pub open spec fn decode_of(table: Seq<char>, data: nat) -> Seq<char>
    decreases data,
    via decode_of_decreases
{
    let last = table[data % radix_of(table) - 1];
    if table.len() == 0 || data < radix_of(table) {
        seq![last]
    } else {
        decode_of(table, data / radix_of(table)).push(last)
    }
}

#[via_fn]
proof fn decode_of_decreases(table: Seq<char>, data: nat) {
    if table.len() >= 1 && data >= radix_of(table) {
        lemma_split_last_digit(data, radix_of(table));
    }
}

/// The values that a symbol over `table` may hold: those with a text
/// that is no longer than the alphabet allows.
pub open spec fn is_symbol_value(table: Seq<char>, data: nat) -> bool {
    &&& has_text(table, data)
    &&& decode_of(table, data).len() <= max_len_of(table.len())
}

/// One more character multiplies the value by the radix and adds the
/// character's digit.
pub proof fn lemma_encode_push(table: Seq<char>, text: Seq<char>, c: char)
    ensures
        encode_of(table, text.push(c)) == encode_of(table, text) * radix_of(table) + digit_of(
            table,
            c,
        ),
{
    assert(text.push(c).drop_last() =~= text);
}

/// A text of `k` characters has a value below `radix^k`, whatever its
/// characters are.
pub proof fn lemma_encode_below_pow(table: Seq<char>, text: Seq<char>)
    ensures
        encode_of(table, text) < pow(radix_of(table) as int, text.len()),
    decreases text.len(),
{
    let r = radix_of(table) as int;
    reveal(pow);
    if text.len() > 0 {
        let init = text.drop_last();
        lemma_encode_below_pow(table, init);
        lemma_digit_of(table, text.last());
        let e = encode_of(table, init) as int;
        let p = pow(r, init.len());
        let d = digit_of(table, text.last()) as int;
        assert(e * r + d < p * r) by (nonlinear_arith)
            requires
                0 <= e < p,
                0 <= d < r,
        ;
        assert(pow(r, text.len()) == r * p);
        assert(r * p == p * r) by (nonlinear_arith);
    }
}

/// Raising to a power keeps the order of the bases.
proof fn lemma_pow_base_increases(a: int, b: int, e: nat)
    requires
        0 <= a <= b,
    ensures
        0 <= pow(a, e) <= pow(b, e),
    decreases e,
{
    reveal(pow);
    if e > 0 {
        lemma_pow_base_increases(a, b, (e - 1) as nat);
        let x = pow(a, (e - 1) as nat);
        let y = pow(b, (e - 1) as nat);
        assert(0 <= a * x <= b * y) by (nonlinear_arith)
            requires
                0 <= a <= b,
                0 <= x <= y,
        ;
    }
}

/// The reason for the limit: with at most `max_len_of(n)` digits a
/// numeral of radix `n + 1` stays below `2^128`.
pub proof fn lemma_radix_pow_fits(n: nat, k: nat)
    requires
        n >= 1,
        k <= max_len_of(n),
    ensures
        pow((n + 1) as int, k) <= pow2(128),
        pow2(128) == 0x1_0000_0000_0000_0000_0000_0000_0000_0000,
{
    let b = bits_per_char(n);
    lemma_bits_per_char_positive(n);
    lemma_ceil_log2_bounds(n + 1);
    lemma_pow2(b);
    lemma_pow_base_increases((n + 1) as int, pow(2, b), k);
    lemma_pow_multiplies(2, b, k);
    assert(b * k <= 128) by (nonlinear_arith)
        requires
            k <= max_len_of(n),
            max_len_of(n) * b <= 128,
            b >= 1,
    ;
    lemma_pow_increases(2, b * k, 128);
    lemma_pow2(128);
    lemma2_to64();
    lemma_pow2_adds(64, 64);
}

/// A valid text has a value that 128 bits hold.
pub proof fn lemma_encode_fits(table: Seq<char>, text: Seq<char>)
    requires
        table.len() >= 1,
        text.len() <= max_len_of(table.len()),
    ensures
        encode_of(table, text) <= u128::MAX,
{
    lemma_encode_below_pow(table, text);
    lemma_radix_pow_fits(table.len(), text.len());
}

/// Decoding undoes encoding: a non-empty text over the alphabet is the
/// text of its own value. This holds of every table, also of one that
/// repeats a character, since a character's digit is its first place.
pub proof fn lemma_decode_encode(table: Seq<char>, text: Seq<char>)
    requires
        text.len() >= 1,
        over_alphabet(table, text),
    ensures
        has_text(table, encode_of(table, text)),
        decode_of(table, encode_of(table, text)) == text,
    decreases text.len(),
{
    let r = radix_of(table) as int;
    let init = text.drop_last();
    let c = text.last();
    let e = encode_of(table, init) as int;
    let d = digit_of(table, c) as int;
    let data = encode_of(table, text) as int;
    lemma_digit_of(table, c);
    assert(table.contains(text[text.len() - 1]));
    assert(1 <= d < r);
    assert(data == e * r + d);
    lemma_fundamental_div_mod_converse(data, r, e, d);
    assert(text =~= init.push(c));
    if init.len() == 0 {
        assert(e == 0);
        assert(data == d) by (nonlinear_arith)
            requires
                data == e * r + d,
                e == 0,
        ;
        assert(decode_of(table, data as nat) =~= seq![c]);
    } else {
        assert(over_alphabet(table, init)) by {
            assert forall|i: int| 0 <= i < init.len() implies table.contains(
                #[trigger] init[i],
            ) by {
                assert(init[i] == text[i]);
            }
        }
        lemma_decode_encode(table, init);
        assert(e >= 1) by {
            if e == 0 {
                assert(0nat % (r as nat) == 0) by (nonlinear_arith)
                    requires
                        r >= 1,
                ;
            }
        }
        assert(data >= r) by (nonlinear_arith)
            requires
                data == e * r + d,
                e >= 1,
                d >= 0,
                r >= 1,
        ;
    }
}

/// Two texts with one value are one text: encoding is injective on the
/// non-empty texts over the alphabet, of equal length or not.
pub proof fn lemma_encode_injective(table: Seq<char>, first: Seq<char>, second: Seq<char>)
    requires
        first.len() >= 1,
        second.len() >= 1,
        over_alphabet(table, first),
        over_alphabet(table, second),
        first != second,
    ensures
        encode_of(table, first) != encode_of(table, second),
{
    lemma_decode_encode(table, first);
    lemma_decode_encode(table, second);
}

/// The text of a value is not empty and is made of the alphabet's
/// characters.
pub proof fn lemma_decode_over_alphabet(table: Seq<char>, data: nat)
    requires
        has_text(table, data),
    ensures
        decode_of(table, data).len() >= 1,
        over_alphabet(table, decode_of(table, data)),
    decreases data,
{
    let r = radix_of(table);
    let last = table[data % r - 1];
    lemma_split_last_digit(data, r);
    assert(table.contains(last));
    if data >= r {
        lemma_decode_over_alphabet(table, data / r);
        let init = decode_of(table, data / r);
        assert forall|i: int| 0 <= i < init.push(last).len() implies table.contains(
            #[trigger] init.push(last)[i],
        ) by {
            if i < init.len() {
                assert(init.push(last)[i] == init[i]);
            }
        }
    }
}

/// Encoding undoes decoding where no character stands twice in the
/// table: a value with a text is the value of that text. With
/// `lemma_decode_encode` this makes the two functions inverse to each
/// other.
pub proof fn lemma_encode_decode(table: Seq<char>, data: nat)
    requires
        table.no_duplicates(),
        has_text(table, data),
    ensures
        encode_of(table, decode_of(table, data)) == data,
    decreases data,
{
    let r = radix_of(table);
    let digit = data % r;
    let last = table[digit - 1];
    lemma_split_last_digit(data, r);
    lemma_digit_of_distinct(table, digit - 1);
    if data < r {
        lemma_encode_push(table, Seq::<char>::empty(), last);
        assert(Seq::<char>::empty().push(last) =~= seq![last]);
        assert(0 * r + digit == data) by (nonlinear_arith)
            requires
                digit == data,
        ;
    } else {
        lemma_encode_decode(table, data / r);
        lemma_encode_push(table, decode_of(table, data / r), last);
    }
}

/// The value of a valid text is a value that a symbol may hold.
pub proof fn lemma_valid_text_gives_symbol_value(table: Seq<char>, text: Seq<char>)
    requires
        is_valid_text(table, text),
    ensures
        is_symbol_value(table, encode_of(table, text)),
        encode_of(table, text) <= u128::MAX,
{
    lemma_decode_encode(table, text);
    assert(table.contains(text[0]));
    lemma_encode_fits(table, text);
}

} // verus!
