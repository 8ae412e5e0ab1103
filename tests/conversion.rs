use morsite::text::parse_lowered;
use morsite::repr::{parse_letter, parse_word, to_notation};
use morsite::{MorseError, MorseRepr, MorseString, MorseSymbol, Text, WordGap};
use MorseSymbol::{Dash, Dot, InterElementSpace, InterLetterSpace, InterWordSpace};

fn encode(s: &str) -> MorseString {
    Text::new(s.to_string()).to_morse().unwrap()
}

fn notation(m: &MorseString) -> String {
    MorseRepr::from_morse(m).to_string()
}

#[test]
fn sos_renders_letters_apart() {
    let m = encode("sos");
    assert_eq!(notation(&m), "... ___ ...");
}

#[test]
fn be_nice_spaced_notation() {
    let m = encode("be nice");
    assert_eq!(notation(&m), "_... . / _. .. _... .");
}

#[test]
fn be_nice_compact_notation() {
    let m = encode("be nice");
    assert_eq!(MorseRepr::from_morse_with(&m, WordGap::Slash).to_string(), "_... ./_. .. _... .");
}

#[test]
fn one_word_space_between_words() {
    let m = encode("a b");
    assert_eq!(
        m,
        vec![Dot, InterElementSpace, Dash, InterWordSpace, Dash, InterElementSpace, Dot, InterElementSpace, Dot, InterElementSpace, Dot]
    );
    assert_eq!(m.iter().filter(|s| **s == InterWordSpace).count(), 1);
    assert_ne!(m[0], InterWordSpace);
    assert_ne!(m[m.len() - 1], InterWordSpace);
}

#[test]
fn round_trip_through_notation() {
    let texts = ["hello world", "sos", "0123456789", ".,?'!/()&:;=+-_\"@$", "a  b", "q ~ z", "", "e"];
    for t in texts.iter() {
        let m = encode(t);
        for gap in [WordGap::Slash, WordGap::SpacedSlash].iter() {
            let back = MorseRepr::from_morse_with(&m, *gap).to_morse().unwrap();
            assert_eq!(back, m, "text {:?}", t);
        }
    }
}

#[test]
fn encoding_ignores_case() {
    assert_eq!(encode("SoS"), encode("sos"));
    assert_eq!(encode("HELLO World"), encode("hello world"));
}

#[test]
fn upper_case_is_unsupported_without_lowering() {
    assert_eq!(parse_lowered("Sos"), Err(MorseError::UnsupportedCharacter));
    assert_eq!(parse_lowered("sos"), Ok(encode("sos")));
}

#[test]
fn quote_is_encoded() {
    let m = encode("say \"hi\"");
    assert_eq!(notation(&m), "... ._ _.__ / ._.._. .... .. ._.._.");
    assert_eq!(
        encode("\""),
        vec![Dot, InterElementSpace, Dash, InterElementSpace, Dot, InterElementSpace, Dot, InterElementSpace, Dash, InterElementSpace, Dot]
    );
}

#[test]
fn other_characters_are_dropped() {
    assert_eq!(encode("e~#é"), vec![Dot]);
    assert_eq!(encode("~"), Vec::<MorseSymbol>::new());
}

#[test]
fn slash_has_single_element_spaces() {
    assert_eq!(notation(&encode("/")), "_.._.");
    assert_eq!(
        encode("/"),
        vec![Dash, InterElementSpace, Dot, InterElementSpace, Dot, InterElementSpace, Dash, InterElementSpace, Dot]
    );
}

#[test]
fn decoder_drops_noise() {
    let m = MorseRepr::new("  .. -- /// extra!! ".to_string()).to_morse().unwrap();
    assert_eq!(m, vec![Dot, InterElementSpace, Dot, InterWordSpace, InterWordSpace, InterWordSpace]);
}

#[test]
fn decoder_reads_both_word_gaps() {
    let a = MorseRepr::new("_... . / _. ..".to_string()).to_morse().unwrap();
    let b = MorseRepr::new("_... ./_. ..".to_string()).to_morse().unwrap();
    assert_eq!(a, b);
    assert_eq!(a, encode("be ni"));
}

#[test]
fn double_space_makes_empty_letter() {
    let m = MorseRepr::new(".  _".to_string()).to_morse().unwrap();
    assert_eq!(m, vec![Dot, InterLetterSpace, InterLetterSpace, Dash]);
}

#[test]
fn empty_notation_is_empty_message() {
    assert_eq!(MorseRepr::new(String::new()).to_morse().unwrap(), Vec::<MorseSymbol>::new());
}

#[test]
fn letter_with_other_character_is_refused() {
    assert_eq!(parse_letter(&vec!['.', '-']), Err(MorseError::InvalidMorseCharacter));
    assert_eq!(parse_letter(&vec!['_', '.']), Ok(vec![Dash, InterElementSpace, Dot]));
    assert_eq!(parse_word(&vec![' ', '.', ' ', 'x']), Err(MorseError::InvalidMorseCharacter));
    assert_eq!(parse_word(&vec![' ', '.', ' ', '_', ' ']), Ok(vec![Dot, InterLetterSpace, Dash]));
}

#[test]
fn every_symbol_has_its_glyph() {
    let m = vec![Dot, InterElementSpace, Dash, InterLetterSpace, Dot, InterWordSpace, Dash];
    assert_eq!(to_notation(&m, WordGap::SpacedSlash), "._ . / _");
    assert_eq!(to_notation(&m, WordGap::Slash), "._ ./_");
}

#[test]
fn repr_keeps_its_text() {
    assert_eq!(MorseRepr::new("._ x".to_string()).to_string(), "._ x");
}
