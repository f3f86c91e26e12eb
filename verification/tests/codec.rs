use smol_symbol::alphabet::invert_in;
use smol_symbol::text::{debug_layout, decimal_string};
use smol_symbol::{
    ceil_log2, max_len, Alphabet, CustomSymbol, DefaultAlphabet, Symbol, SymbolParsingError,
    PARSING_ERROR_MSG,
};
use std::collections::HashSet;

#[derive(Clone, Copy, Debug, PartialEq, Eq, PartialOrd, Ord, Hash)]
struct Unary;

impl Alphabet<1> for Unary {
    const ALPHABET: [char; 1] = ['a'];
}

#[derive(Clone, Copy, Debug, PartialEq, Eq, PartialOrd, Ord, Hash)]
struct Binary;

impl Alphabet<2> for Binary {
    const ALPHABET: [char; 2] = ['a', 'b'];
}

#[derive(Clone, Copy, Debug, PartialEq, Eq, PartialOrd, Ord, Hash)]
struct Quoting;

impl Alphabet<2> for Quoting {
    const ALPHABET: [char; 2] = ['"', 'a'];
}

#[derive(Clone, Copy, Debug, PartialEq, Eq, PartialOrd, Ord, Hash)]
struct Repeating;

impl Alphabet<11> for Repeating {
    const ALPHABET: [char; 11] = ['h', 'e', 'l', 'l', 'o', '_', 'w', 'o', 'r', 'l', 'd'];
}

#[derive(Clone, Copy, Debug, PartialEq, Eq, PartialOrd, Ord, Hash)]
struct Kanji;

impl Alphabet<2> for Kanji {
    const ALPHABET: [char; 2] = ['東', '京'];
}

#[derive(Clone, Copy, Debug, PartialEq, Eq, PartialOrd, Ord, Hash)]
struct Empty;

impl Alphabet<0> for Empty {
    const ALPHABET: [char; 0] = [];
}

fn raw(text: &str) -> u128 {
    Symbol::try_from(text).unwrap().into()
}

#[test]
fn ceil_log2_is_the_least_exponent() {
    assert_eq!(ceil_log2(0), 0);
    assert_eq!(ceil_log2(1), 0);
    assert_eq!(ceil_log2(2), 1);
    assert_eq!(ceil_log2(3), 2);
    assert_eq!(ceil_log2(4), 2);
    assert_eq!(ceil_log2(5), 3);
    assert_eq!(ceil_log2(8), 3);
    assert_eq!(ceil_log2(9), 4);
    assert_eq!(ceil_log2(12), 4);
    assert_eq!(ceil_log2(28), 5);
    assert_eq!(ceil_log2(66), 7);
    assert_eq!(ceil_log2(1024), 10);
    assert_eq!(ceil_log2(1025), 11);
    assert_eq!(ceil_log2(usize::MAX), usize::BITS as usize);
}

#[test]
fn max_len_divides_the_width_by_the_bits_of_a_character() {
    assert_eq!(max_len(1), 128);
    assert_eq!(max_len(2), 64);
    assert_eq!(max_len(3), 64);
    assert_eq!(max_len(4), 42);
    assert_eq!(max_len(11), 32);
    assert_eq!(max_len(27), 25);
    assert_eq!(max_len(65), 18);
    assert_eq!(max_len(66), 18);
    assert_eq!(max_len(68), 18);
    assert_eq!(max_len(255), 16);
    assert_eq!(max_len(256), 14);
    assert_eq!(max_len(usize::MAX), 128 / usize::BITS as usize);
}

#[test]
fn smaller_alphabets_allow_longer_symbols() {
    assert!(max_len(11) > max_len(66));
    let mut last = max_len(1);
    for n in 2..2000usize {
        let next = max_len(n);
        assert!(next <= last);
        last = next;
    }
}

#[test]
fn default_alphabet_constants() {
    assert_eq!(DefaultAlphabet::LEN, 27);
    assert_eq!(DefaultAlphabet::max_symbol_len(), 25);
    let text: String = DefaultAlphabet::ALPHABET.iter().collect();
    assert_eq!(text, "abcdefghijklmnopqrstuvwxyz_");
    assert_eq!(Unary::max_symbol_len(), 128);
    assert_eq!(Repeating::max_symbol_len(), 32);
}

#[test]
fn invert_char_counts_from_one() {
    assert_eq!(DefaultAlphabet::invert_char('a'), Ok(1));
    assert_eq!(DefaultAlphabet::invert_char('b'), Ok(2));
    assert_eq!(DefaultAlphabet::invert_char('z'), Ok(26));
    assert_eq!(DefaultAlphabet::invert_char('_'), Ok(27));
    assert_eq!(DefaultAlphabet::invert_char('A'), Err(SymbolParsingError));
    assert_eq!(DefaultAlphabet::invert_char('-'), Err(SymbolParsingError));
    assert_eq!(DefaultAlphabet::invert_char(' '), Err(SymbolParsingError));
    assert_eq!(Kanji::invert_char('京'), Ok(2));
    assert_eq!(Empty::invert_char('a'), Err(SymbolParsingError));
}

#[test]
fn invert_char_takes_the_first_of_repeated_characters() {
    assert_eq!(Repeating::invert_char('h'), Ok(1));
    assert_eq!(Repeating::invert_char('l'), Ok(3));
    assert_eq!(Repeating::invert_char('o'), Ok(5));
    assert_eq!(Repeating::invert_char('d'), Ok(11));
    assert_eq!(invert_in(&['x', 'y', 'x'], 'x'), Ok(1));
    assert_eq!(invert_in(&['x', 'y', 'x'], 'y'), Ok(2));
    assert_eq!(invert_in(&['x', 'y', 'x'], 'z'), Err(SymbolParsingError));
}

#[test]
fn encode_reads_the_first_character_as_the_most_significant_digit() {
    assert_eq!(raw("a"), 1);
    assert_eq!(raw("z"), 26);
    assert_eq!(raw("_"), 27);
    assert_eq!(raw("aa"), 29);
    assert_eq!(raw("ab"), 30);
    assert_eq!(raw("zz"), 754);
    assert_eq!(raw("aaa"), 813);
    assert_eq!(raw("hello"), 5036767);
    assert_eq!(raw("a_what"), 34317296);
    assert_eq!(raw("hello_world"), 2427169659967924);
    assert_eq!(raw("this_is_a_symbol"), 103472738014991221645200);
    assert_eq!(
        raw("_________________________"),
        1509909033949224437981629384719597567
    );
}

#[test]
fn encode_under_two_alphabets() {
    let repeating: u128 = CustomSymbol::<11, Repeating>::try_from("hello_world")
        .unwrap()
        .into();
    assert_eq!(repeating, 73650943487);
    assert_ne!(repeating, raw("hello_world"));
    assert_eq!(
        CustomSymbol::<11, Repeating>::from_raw(repeating).to_string(),
        "hello_world"
    );
    assert_eq!(
        Symbol::from_raw(raw("hello_world")).to_string(),
        "hello_world"
    );
    let binary: u128 = CustomSymbol::<2, Binary>::try_from("abba").unwrap().into();
    assert_eq!(binary, 52);
}

#[test]
fn a_text_and_its_prefix_have_different_values() {
    assert_ne!(raw("a"), raw("aa"));
    assert_ne!(raw("aa"), raw("aaa"));
    assert_ne!(
        Symbol::try_from("a").unwrap(),
        Symbol::try_from("aa").unwrap()
    );
}

#[test]
fn decode_undoes_encode_on_all_short_texts() {
    let letters = DefaultAlphabet::ALPHABET;
    let mut seen: HashSet<u128> = HashSet::new();
    let mut texts: Vec<String> = Vec::new();
    for a in letters {
        texts.push(format!("{}", a));
        for b in letters {
            texts.push(format!("{}{}", a, b));
            for c in letters {
                texts.push(format!("{}{}{}", a, b, c));
            }
        }
    }
    assert_eq!(texts.len(), 27 + 27 * 27 + 27 * 27 * 27);
    for text in &texts {
        let symbol = Symbol::try_from(text).unwrap();
        assert_eq!(&symbol.to_string(), text);
        assert!(seen.insert(symbol.into()));
    }
}

#[test]
fn encode_fails_on_the_empty_text() {
    assert_eq!(Symbol::try_from(""), Err(SymbolParsingError));
    assert_eq!(Symbol::try_from(String::new()), Err(SymbolParsingError));
    assert_eq!(Symbol::parse_chars(&[]), Err(SymbolParsingError));
    assert!(CustomSymbol::<1, Unary>::try_from("").is_err());
}

#[test]
fn encode_fails_beyond_the_length_limit() {
    for len in 1..=25usize {
        assert!(Symbol::try_from("a".repeat(len)).is_ok());
        assert!(Symbol::try_from("_".repeat(len)).is_ok());
    }
    assert_eq!(Symbol::try_from("a".repeat(26)), Err(SymbolParsingError));
    assert_eq!(Symbol::try_from("_".repeat(26)), Err(SymbolParsingError));
    assert!(Symbol::try_from("a".repeat(27)).is_err());
    assert!(Symbol::try_from("a".repeat(1000)).is_err());
    assert!(CustomSymbol::<11, Repeating>::try_from("d".repeat(32)).is_ok());
    assert!(CustomSymbol::<11, Repeating>::try_from("d".repeat(33)).is_err());
}

#[test]
fn encode_fails_on_a_character_outside_the_alphabet() {
    assert_eq!(Symbol::try_from("Hello"), Err(SymbolParsingError));
    assert_eq!(Symbol::try_from("hello!"), Err(SymbolParsingError));
    assert_eq!(Symbol::try_from("hel lo"), Err(SymbolParsingError));
    assert_eq!(Symbol::try_from("東京"), Err(SymbolParsingError));
    assert_eq!(Symbol::parse_chars(&['a', 'B']), Err(SymbolParsingError));
    assert!(CustomSymbol::<2, Binary>::try_from("abc").is_err());
}

#[test]
fn the_widest_symbol_fills_all_bits() {
    let text = "a".repeat(128);
    let symbol = CustomSymbol::<1, Unary>::try_from(text.as_str()).unwrap();
    let data: u128 = symbol.into();
    assert_eq!(data, u128::MAX);
    assert_eq!(symbol.to_string(), text);
    assert!(CustomSymbol::<1, Unary>::try_from("a".repeat(129)).is_err());
    assert_eq!(
        u128::from(CustomSymbol::<1, Unary>::try_from("aaa").unwrap()),
        7
    );
}

#[test]
fn length_is_counted_in_characters() {
    let text = "東京".repeat(32);
    assert_eq!(text.chars().count(), 64);
    assert_eq!(text.len(), 192);
    let symbol = CustomSymbol::<2, Kanji>::try_from(text.as_str()).unwrap();
    assert_eq!(symbol.to_string(), text);
    let longer = format!("{}東", text);
    assert!(CustomSymbol::<2, Kanji>::try_from(longer).is_err());
}

#[test]
fn an_empty_alphabet_has_no_symbol() {
    assert!(CustomSymbol::<0, Empty>::try_from("").is_err());
    assert!(CustomSymbol::<0, Empty>::try_from("a").is_err());
    assert!(CustomSymbol::<0, Empty>::parse_chars(&['a']).is_err());
    assert!(!CustomSymbol::<0, Empty>::is_valid_raw(0));
    assert!(!CustomSymbol::<0, Empty>::is_valid_raw(1));
}

#[test]
fn parse_chars_agrees_with_try_from() {
    let chars: Vec<char> = "hello_world".chars().collect();
    assert_eq!(
        Symbol::parse_chars(&chars),
        Symbol::try_from("hello_world")
    );
    assert_eq!(
        u128::from(Symbol::parse_chars(&['a', 'b']).unwrap()),
        30
    );
    let long: Vec<char> = "this_is_too_long_to_store_".chars().collect();
    assert_eq!(Symbol::parse_chars(&long), Err(SymbolParsingError));
    let fits: Vec<char> = "this_is_just_short_enough".chars().collect();
    assert_eq!(
        Symbol::parse_chars(&fits).unwrap().to_string(),
        "this_is_just_short_enough"
    );
}

#[test]
fn conversions_from_owned_and_borrowed_strings() {
    let owned = String::from("some_text");
    let from_ref = Symbol::try_from(&owned).unwrap();
    let from_str = Symbol::try_from(owned.as_str()).unwrap();
    let from_owned = Symbol::try_from(owned).unwrap();
    assert_eq!(from_ref, from_str);
    assert_eq!(from_owned, from_str);
    assert_eq!(String::from(from_owned), "some_text");
    assert_eq!(String::from(&from_ref), "some_text");
    let text: String = from_str.into();
    assert_eq!(text, "some_text");
}

#[test]
fn raw_values_come_back() {
    let symbol = Symbol::try_from("raw_value").unwrap();
    let data: u128 = symbol.into();
    assert!(Symbol::is_valid_raw(data));
    let again = Symbol::from_raw(data);
    assert_eq!(again, symbol);
    assert_eq!(again.to_string(), "raw_value");
    assert_eq!(Symbol::from_raw(1).to_string(), "a");
    assert_eq!(Symbol::from_raw(29).to_string(), "aa");
    assert_eq!(Symbol::from_raw(754).to_string(), "zz");
}

#[test]
fn raw_values_with_a_zero_digit_or_too_many_digits_are_no_symbols() {
    assert!(!Symbol::is_valid_raw(0));
    assert!(Symbol::is_valid_raw(1));
    assert!(Symbol::is_valid_raw(27));
    assert!(!Symbol::is_valid_raw(28));
    assert!(Symbol::is_valid_raw(29));
    assert!(!Symbol::is_valid_raw(56));
    assert!(Symbol::is_valid_raw(1509909033949224437981629384719597567));
    assert!(!Symbol::is_valid_raw(1509909033949224437981629384719597568));
    // 26 times the digit 1
    assert!(!Symbol::is_valid_raw(1565831590762158676425393436005508589));
    assert!(!Symbol::is_valid_raw(u128::MAX));
    assert!(CustomSymbol::<1, Unary>::is_valid_raw(u128::MAX));
    assert!(!CustomSymbol::<1, Unary>::is_valid_raw(u128::MAX - 1));
}

#[test]
fn symbols_are_ordered_as_their_values() {
    let a = Symbol::try_from("a").unwrap();
    let b = Symbol::try_from("b").unwrap();
    let z = Symbol::try_from("z").unwrap();
    let aa = Symbol::try_from("aa").unwrap();
    assert!(a < b);
    assert!(b < z);
    assert!(z < aa);
    assert!(aa > a);
    assert!(a <= a);
    assert!(a >= a);
    assert_eq!(a.partial_cmp(&b), Some(std::cmp::Ordering::Less));
    assert_eq!(b.partial_cmp(&a), Some(std::cmp::Ordering::Greater));
    assert_eq!(a.partial_cmp(&a), Some(std::cmp::Ordering::Equal));
    assert_eq!(a.cmp(&b), std::cmp::Ordering::Less);
    let mut symbols = vec![aa, z, a, b];
    symbols.sort();
    assert_eq!(symbols, vec![a, b, z, aa]);
    let texts = ["hello", "world", "a", "zebra", "_", "ab", "ba"];
    for left in texts {
        for right in texts {
            let l = Symbol::try_from(left).unwrap();
            let r = Symbol::try_from(right).unwrap();
            assert_eq!(l < r, raw(left) < raw(right));
            assert_eq!(l == r, raw(left) == raw(right));
            assert_eq!(l.partial_cmp(&r), raw(left).partial_cmp(&raw(right)));
        }
    }
}

#[test]
fn equal_symbols_hash_alike() {
    let mut set: HashSet<Symbol> = HashSet::new();
    assert!(set.insert(Symbol::try_from("one").unwrap()));
    assert!(set.insert(Symbol::try_from("two").unwrap()));
    assert!(!set.insert(Symbol::try_from("one").unwrap()));
    assert!(set.contains(&Symbol::from_raw(raw("two"))));
    assert_eq!(set.len(), 2);
}

#[test]
fn symbols_are_copied() {
    let symbol = Symbol::try_from("copy_me").unwrap();
    let copy = symbol;
    let clone = symbol.clone();
    assert_eq!(symbol, copy);
    assert_eq!(symbol, clone);
}

#[test]
fn the_error_explains_itself() {
    let error = Symbol::try_from("").unwrap_err();
    assert_eq!(error.message(), PARSING_ERROR_MSG);
    assert!(error.message().starts_with("To be a valid `Symbol`"));
    assert!(error.message().ends_with("whitespace of any kind."));
    assert_eq!(Symbol::try_from("too-bad").unwrap_err(), error);
    assert_eq!(Symbol::try_from("a".repeat(26)).unwrap_err(), error);
}

#[test]
fn debug_string_shows_value_and_text() {
    assert_eq!(
        Symbol::try_from("a").unwrap().debug_string(),
        "Symbol { data: 1, symbol: \"a\" }"
    );
    assert_eq!(
        Symbol::try_from("hello").unwrap().debug_string(),
        "Symbol { data: 5036767, symbol: \"hello\" }"
    );
    assert_eq!(
        CustomSymbol::<2, Quoting>::try_from("a\"")
            .unwrap()
            .debug_string(),
        "Symbol { data: 7, symbol: \"a\\\"\" }"
    );
}

#[test]
fn debug_layout_takes_the_text_as_it_comes() {
    assert_eq!(
        debug_layout(5, "\"x\""),
        "Symbol { data: 5, symbol: \"x\" }"
    );
    assert_eq!(debug_layout(0, ""), "Symbol { data: 0, symbol:  }");
    assert_eq!(
        debug_layout(u128::MAX, "text"),
        "Symbol { data: 340282366920938463463374607431768211455, symbol: text }"
    );
}

#[test]
fn decimal_string_of_powers_of_ten() {
    let mut n: u128 = 1;
    let mut expected = String::from("1");
    for _ in 0..38 {
        assert_eq!(decimal_string(n), expected);
        assert_eq!(decimal_string(n - 1), (n - 1).to_string());
        n *= 10;
        expected.push('0');
    }
}
