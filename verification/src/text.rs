//! Texts as `String`s: what the library needs beyond what vstd
//! specifies, and the decimal numeral of a value.

use vstd::prelude::*;

verus! {

/// `String::push`: the text grows by the one character `c` at its end.
/// Verus takes this contract on trust; the body is the call itself.
#[verifier::external_body]
pub(crate) fn push_char(text: &mut String, c: char)
    ensures
        final(text)@ == old(text)@.push(c),
{
    text.push(c)
}

/// The text that `{:?}` writes for a string: the string between double
/// quotes, with the characters escaped that Rust's `Debug` escapes.
pub uninterp spec fn debug_quoted(text: Seq<char>) -> Seq<char>;

/// Formats `text` with `{:?}`, the `Debug` form of `str`. Verus takes
/// on trust that the result depends on the characters of `text` alone,
/// and knows nothing else of it.
#[verifier::external_body]
pub(crate) fn quote_text(text: &str) -> (quoted: String)
    ensures
        quoted@ == debug_quoted(text@),
{
    format!("{:?}", text)
}

/// The text made of `chars` read from the end to the start.
pub(crate) fn string_from_reversed(chars: &Vec<char>) -> (text: String)
    ensures
        text@ == chars@.reverse(),
{
    let mut text = String::new();
    let mut i: usize = chars.len();
    while i > 0
        invariant
            i <= chars.len(),
            text@ == chars@.reverse().take(chars.len() - i),
        decreases i,
    {
        i -= 1;
        push_char(&mut text, chars[i]);
        assert(text@ =~= chars@.reverse().take(chars.len() - i));
    }
    assert(chars@.reverse().take(chars.len() as int) =~= chars@.reverse());
    text
}

/// The ten decimal digits, each at the place of its value.
pub open spec fn decimal_digits() -> Seq<char> {
    seq!['0', '1', '2', '3', '4', '5', '6', '7', '8', '9']
}

/// The decimal numeral of `n`, without leading zeros.
pub open spec fn decimal_of(n: nat) -> Seq<char>
    decreases n,
{
    if n < 10 {
        seq![decimal_digits()[n as int]]
    } else {
        decimal_of(n / 10).push(decimal_digits()[(n % 10) as int])
    }
}

/// Writes `n` as a decimal numeral.
pub fn decimal_string(n: u128) -> (text: String)
    ensures
        text@ == decimal_of(n as nat),
{
    let digits: [char; 10] = ['0', '1', '2', '3', '4', '5', '6', '7', '8', '9'];
    assert(digits@ =~= decimal_digits());
    let mut rest: u128 = n;
    let mut chars: Vec<char> = Vec::new();
    loop
        invariant
            digits@ == decimal_digits(),
            decimal_of(n as nat) == decimal_of(rest as nat) + chars@.reverse(),
        decreases rest,
    {
        let ghost before = chars@;
        let ghost whole = rest;
        let digit = digits[(rest % 10) as usize];
        rest = rest / 10;
        chars.push(digit);
        proof {
            assert(chars@.reverse() =~= seq![digit] + before.reverse());
            if rest != 0 {
                assert(decimal_of(whole as nat) + before.reverse() =~= decimal_of(rest as nat)
                    + chars@.reverse());
            }
        }
        if rest == 0 {
            return string_from_reversed(&chars);
        }
    }
}

/// How a symbol is laid out for a developer: as a struct named `Symbol`
/// with the value `data` in decimal and the text `quoted`, which is
/// taken as it comes.
pub open spec fn debug_layout_of(data: u128, quoted: Seq<char>) -> Seq<char> {
    "Symbol { data: "@ + decimal_of(data as nat) + ", symbol: "@ + quoted + " }"@
}

/// Lays out a symbol's value and its text, already quoted, for a
/// developer.
pub fn debug_layout(data: u128, quoted: &str) -> (text: String)
    ensures
        text@ == debug_layout_of(data, quoted@),
{
    let mut text = String::from_str("Symbol { data: ");
    text.append(decimal_string(data).as_str());
    text.append(", symbol: ");
    text.append(quoted);
    text.append(" }");
    text
}

} // verus!
