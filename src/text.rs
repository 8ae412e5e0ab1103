use crate::morse::{join, lemma_join_push, lemma_split_elements, split, MorseError, MorseString, MorseSymbol};
use crate::repr::{elements_to_symbols, letter_symbols};
use vstd::prelude::*;

verus! {

/// The punctuation that the text filter lets through.
pub open spec fn is_punctuation(c: char) -> bool {
    c == '.' || c == ',' || c == '?' || c == '\'' || c == '!' || c == '/' || c == '(' || c == ')'
        || c == '&' || c == ':' || c == ';' || c == '=' || c == '+' || c == '-' || c == '_'
        || c == '"' || c == '@' || c == '$'
}

pub open spec fn is_ascii_lower(c: char) -> bool {
    'a' <= c && c <= 'z'
}

pub open spec fn is_ascii_upper(c: char) -> bool {
    'A' <= c && c <= 'Z'
}

pub open spec fn is_ascii_digit(c: char) -> bool {
    '0' <= c && c <= '9'
}

/// A character of a word that is encoded; all others are dropped silently.
pub open spec fn is_kept(c: char) -> bool {
    is_ascii_lower(c) || is_ascii_upper(c) || is_ascii_digit(c) || is_punctuation(c)
}

/// The dots and dashes of each character in the table, empty for the others.
pub open spec fn pattern_of(c: char) -> Seq<char> {
    match c {
        'a' => seq!['.', '_'],
        'b' => seq!['_', '.', '.', '.'],
        'c' => seq!['_', '.', '.', '.'],
        'd' => seq!['_', '.', '.'],
        'e' => seq!['.'],
        'f' => seq!['.', '.', '_', '.'],
        'g' => seq!['_', '_', '.'],
        'h' => seq!['.', '.', '.', '.'],
        'i' => seq!['.', '.'],
        'j' => seq!['.', '_', '_', '_'],
        'k' => seq!['_', '.', '_'],
        'l' => seq!['.', '_', '.', '.'],
        'm' => seq!['_', '_'],
        'n' => seq!['_', '.'],
        'o' => seq!['_', '_', '_'],
        'p' => seq!['.', '_', '_', '.'],
        'q' => seq!['_', '_', '.', '_'],
        'r' => seq!['.', '_', '.'],
        's' => seq!['.', '.', '.'],
        't' => seq!['_'],
        'u' => seq!['.', '.', '_'],
        'v' => seq!['.', '.', '.', '_'],
        'w' => seq!['.', '_', '_'],
        'x' => seq!['_', '.', '.', '_'],
        'y' => seq!['_', '.', '_', '_'],
        'z' => seq!['_', '_', '.', '.'],
        '0' => seq!['_', '_', '_', '_', '_'],
        '1' => seq!['.', '_', '_', '_', '_'],
        '2' => seq!['.', '.', '_', '_', '_'],
        '3' => seq!['.', '.', '.', '_', '_'],
        '4' => seq!['.', '.', '.', '.', '_'],
        '5' => seq!['.', '.', '.', '.', '.'],
        '6' => seq!['_', '.', '.', '.', '.'],
        '7' => seq!['_', '_', '.', '.', '.'],
        '8' => seq!['_', '_', '_', '.', '.'],
        '9' => seq!['_', '_', '_', '_', '.'],
        '.' => seq!['.', '_', '.', '_', '.', '_'],
        ',' => seq!['_', '_', '.', '.', '_', '_'],
        '?' => seq!['.', '.', '_', '_', '.', '.'],
        '\'' => seq!['.', '_', '_', '_', '_', '.'],
        '!' => seq!['_', '.', '_', '.', '_', '_'],
        '/' => seq!['_', '.', '.', '_', '.'],
        '(' => seq!['_', '.', '_', '_', '.'],
        ')' => seq!['_', '.', '_', '_', '.', '_'],
        '&' => seq!['.', '_', '.', '.', '.'],
        ':' => seq!['_', '_', '_', '.', '.', '.'],
        ';' => seq!['_', '.', '_', '.', '_', '.'],
        '=' => seq!['_', '.', '.', '.', '_'],
        '+' => seq!['.', '_', '.', '_', '.'],
        '-' => seq!['_', '.', '.', '.', '.', '_'],
        '_' => seq!['.', '.', '_', '_', '.', '_'],
        '$' => seq!['.', '.', '.', '_', '.', '.', '_'],
        '"' => seq!['.', '_', '.', '.', '_', '.'],
        '@' => seq!['.', '_', '_', '.', '_', '.'],
        _ => Seq::empty(),
    }
}

/// Whether the table has an entry for `c`.
pub open spec fn in_table(c: char) -> bool {
    pattern_of(c).len() > 0
}

/// A kept character that the table cannot encode.
pub open spec fn is_unsupported(c: char) -> bool {
    is_kept(c) && !in_table(c)
}

/// The symbols of one character of the table.
pub open spec fn char_symbols(c: char) -> Seq<MorseSymbol> {
    letter_symbols(pattern_of(c))
}

/// The characters of `w` that the filter keeps, in order.
pub open spec fn kept_chars(w: Seq<char>) -> Seq<char>
    decreases w.len(),
{
    if w.len() == 0 {
        Seq::empty()
    } else if is_kept(w.last()) {
        kept_chars(w.drop_last()).push(w.last())
    } else {
        kept_chars(w.drop_last())
    }
}

/// A word of text: its kept characters, with an inter-letter space between
/// neighbours.
pub open spec fn text_word_symbols(w: Seq<char>) -> Seq<MorseSymbol> {
    join(kept_chars(w).map_values(|c: char| char_symbols(c)), MorseSymbol::InterLetterSpace)
}

/// Whether some character of `t` passes the filter without a table entry.
pub open spec fn has_unsupported(t: Seq<char>) -> bool {
    exists|i: int| 0 <= i < t.len() && is_unsupported(#[trigger] t[i])
}

/// Text that is already lower case, as symbols: its words are the runs
/// between single spaces, joined by an inter-word space.
pub open spec fn encode_lowered(t: Seq<char>) -> Seq<MorseSymbol> {
    join(split(t, ' ').map_values(|w: Seq<char>| text_word_symbols(w)), MorseSymbol::InterWordSpace)
}

/// What `str::to_lowercase` makes of a string.
pub uninterp spec fn lowercase_of(s: Seq<char>) -> Seq<char>;

/// Relies on `str::to_lowercase`: the Unicode lower-case mapping, which
/// depends on the string's characters alone.
#[verifier::external_body]
fn to_lowercase(s: &str) -> (r: String)
    ensures
        r@ == lowercase_of(s@),
{
    s.to_lowercase()
}

/// Free text, to be sent as Morse code.
pub struct Text(String);

impl View for Text {
    type V = Seq<char>;

    closed spec fn view(&self) -> Seq<char> {
        self.0@
    }
}

impl Text {
    pub fn new(string: String) -> (r: Self)
        ensures
            r@ == string@,
    {
        Text(string)
    }

    /// The message that this text encodes to.
    pub fn to_morse(&self) -> (r: Result<MorseString, MorseError>)
        ensures
            match r {
                Ok(m) => !has_unsupported(lowercase_of(self@)) && m@ == encode_lowered(lowercase_of(self@)),
                Err(e) => has_unsupported(lowercase_of(self@)) && e == MorseError::UnsupportedCharacter,
            },
    {
        parse_text(self.0.as_str())
    }
}

/// Encodes free text: it is lower-cased first, so case does not matter.
pub fn parse_text(text: &str) -> (r: Result<MorseString, MorseError>)
    ensures
        match r {
            Ok(m) => !has_unsupported(lowercase_of(text@)) && m@ == encode_lowered(lowercase_of(text@)),
            Err(e) => has_unsupported(lowercase_of(text@)) && e == MorseError::UnsupportedCharacter,
        },
{
    let lowered = to_lowercase(text);
    parse_lowered(lowered.as_str())
}

/// Encodes text as it stands, without lower-casing it: words are cut at each
/// space and joined by an inter-word space.
pub fn parse_lowered(text: &str) -> (r: Result<MorseString, MorseError>)
    ensures
        match r {
            Ok(m) => !has_unsupported(text@) && m@ == encode_lowered(text@),
            Err(e) => has_unsupported(text@) && e == MorseError::UnsupportedCharacter,
        },
{
    let chars = crate::morse::chars_of(text);
    for i in 0..chars.len()
        invariant
            chars@ == text@,
            forall|j: int| 0 <= j < i ==> !is_unsupported(#[trigger] chars@[j]),
    {
        if is_unsupported_char(chars[i]) {
            return Err(MorseError::UnsupportedCharacter);
        }
    }
    let words = crate::repr::split_chars(&chars, ' ');
    let ghost ws = split(text@, ' ');
    let ghost f = |w: Seq<char>| text_word_symbols(w);
    proof {
        lemma_split_elements(text@, ' ', |c: char| !is_unsupported(c));
    }
    let mut out: Vec<MorseSymbol> = Vec::new();
    for k in 0..words.len()
        invariant
            ws == split(text@, ' '),
            f == (|w: Seq<char>| text_word_symbols(w)),
            words.len() == ws.len(),
            forall|j: int| 0 <= j < ws.len() ==> (#[trigger] words[j])@ == ws[j],
            forall|j: int, i: int|
                0 <= j < ws.len() && 0 <= i < ws[j].len() ==> !is_unsupported(#[trigger] ws[j][i]),
            out@ == join(ws.take(k as int).map_values(f), MorseSymbol::InterWordSpace),
    {
        let mut syms = match parse_word(&words[k]) {
            Ok(syms) => syms,
            Err(e) => {
                return Err(e);
            },
        };
        proof {
            assert(ws.take(k + 1).map_values(f) =~= ws.take(k as int).map_values(f).push(f(ws[k as int])));
            lemma_join_push(ws.take(k as int).map_values(f), f(ws[k as int]), MorseSymbol::InterWordSpace);
        }
        if k > 0 {
            out.push(MorseSymbol::InterWordSpace);
        }
        out.append(&mut syms);
        assert(out@ =~= join(ws.take(k + 1).map_values(f), MorseSymbol::InterWordSpace));
    }
    assert(ws.take(words.len() as int) =~= ws);
    Ok(out)
}

/// Encodes one word: characters outside the filter are dropped, the rest
/// looked up and joined by an inter-letter space.
pub fn parse_word(word: &Vec<char>) -> (r: Result<MorseString, MorseError>)
    ensures
        match r {
            Ok(m) => !has_unsupported(word@) && m@ == text_word_symbols(word@),
            Err(e) => has_unsupported(word@) && e == MorseError::UnsupportedCharacter,
        },
{
    let ghost f = |c: char| char_symbols(c);
    let mut out: Vec<MorseSymbol> = Vec::new();
    let mut first = true;
    for i in 0..word.len()
        invariant
            f == (|c: char| char_symbols(c)),
            first <==> kept_chars(word@.take(i as int)).len() == 0,
            forall|j: int| 0 <= j < i ==> !is_unsupported(#[trigger] word@[j]),
            out@ == join(kept_chars(word@.take(i as int)).map_values(f), MorseSymbol::InterLetterSpace),
    {
        let c = word[i];
        let ghost ks = kept_chars(word@.take(i as int));
        proof {
            assert(word@.take(i + 1).drop_last() =~= word@.take(i as int));
        }
        if is_kept_char(c) {
            let mut syms = match parse_letter(c) {
                Ok(syms) => syms,
                Err(e) => {
                    return Err(e);
                },
            };
            proof {
                assert(ks.push(c).map_values(f) =~= ks.map_values(f).push(f(c)));
                lemma_join_push(ks.map_values(f), f(c), MorseSymbol::InterLetterSpace);
            }
            if !first {
                out.push(MorseSymbol::InterLetterSpace);
            }
            out.append(&mut syms);
            first = false;
            assert(out@ =~= join(kept_chars(word@.take(i + 1)).map_values(f), MorseSymbol::InterLetterSpace));
        }
    }
    assert(word@.take(word.len() as int) =~= word@);
    Ok(out)
}

/// Encodes one character through the table.
pub fn parse_letter(letter: char) -> (r: Result<MorseString, MorseError>)
    ensures
        match r {
            Ok(m) => in_table(letter) && m@ == char_symbols(letter),
            Err(e) => !in_table(letter) && e == MorseError::UnsupportedCharacter,
        },
{
    match pattern(letter) {
        Some(p) => Ok(elements_to_symbols(&p)),
        None => Err(MorseError::UnsupportedCharacter),
    }
}

/// Whether the text filter keeps `c`: an ASCII letter or digit, or one of
/// the fixed punctuation marks.
pub fn is_kept_char(c: char) -> (r: bool)
    ensures
        r == is_kept(c),
{
    ('a' <= c && c <= 'z') || ('A' <= c && c <= 'Z') || ('0' <= c && c <= '9') || c == '.' || c
        == ',' || c == '?' || c == '\'' || c == '!' || c == '/' || c == '(' || c == ')' || c == '&'
        || c == ':' || c == ';' || c == '=' || c == '+' || c == '-' || c == '_' || c == '"' || c
        == '@' || c == '$'
}

/// Whether `c` passes the filter but has no entry in the table.
pub fn is_unsupported_char(c: char) -> (r: bool)
    ensures
        r == is_unsupported(c),
{
    is_kept_char(c) && pattern(c).is_none()
}

/// The table: the dots and dashes of a character, if it has an entry.
pub fn pattern(c: char) -> (r: Option<Vec<char>>)
    ensures
        r is Some <==> in_table(c),
        r matches Some(p) ==> p@ == pattern_of(c),
{
    match c {
        'a' => Some(vec!['.', '_']),
        'b' => Some(vec!['_', '.', '.', '.']),
        'c' => Some(vec!['_', '.', '.', '.']),
        'd' => Some(vec!['_', '.', '.']),
        'e' => Some(vec!['.']),
        'f' => Some(vec!['.', '.', '_', '.']),
        'g' => Some(vec!['_', '_', '.']),
        'h' => Some(vec!['.', '.', '.', '.']),
        'i' => Some(vec!['.', '.']),
        'j' => Some(vec!['.', '_', '_', '_']),
        'k' => Some(vec!['_', '.', '_']),
        'l' => Some(vec!['.', '_', '.', '.']),
        'm' => Some(vec!['_', '_']),
        'n' => Some(vec!['_', '.']),
        'o' => Some(vec!['_', '_', '_']),
        'p' => Some(vec!['.', '_', '_', '.']),
        'q' => Some(vec!['_', '_', '.', '_']),
        'r' => Some(vec!['.', '_', '.']),
        's' => Some(vec!['.', '.', '.']),
        't' => Some(vec!['_']),
        'u' => Some(vec!['.', '.', '_']),
        'v' => Some(vec!['.', '.', '.', '_']),
        'w' => Some(vec!['.', '_', '_']),
        'x' => Some(vec!['_', '.', '.', '_']),
        'y' => Some(vec!['_', '.', '_', '_']),
        'z' => Some(vec!['_', '_', '.', '.']),
        '0' => Some(vec!['_', '_', '_', '_', '_']),
        '1' => Some(vec!['.', '_', '_', '_', '_']),
        '2' => Some(vec!['.', '.', '_', '_', '_']),
        '3' => Some(vec!['.', '.', '.', '_', '_']),
        '4' => Some(vec!['.', '.', '.', '.', '_']),
        '5' => Some(vec!['.', '.', '.', '.', '.']),
        '6' => Some(vec!['_', '.', '.', '.', '.']),
        '7' => Some(vec!['_', '_', '.', '.', '.']),
        '8' => Some(vec!['_', '_', '_', '.', '.']),
        '9' => Some(vec!['_', '_', '_', '_', '.']),
        '.' => Some(vec!['.', '_', '.', '_', '.', '_']),
        ',' => Some(vec!['_', '_', '.', '.', '_', '_']),
        '?' => Some(vec!['.', '.', '_', '_', '.', '.']),
        '\'' => Some(vec!['.', '_', '_', '_', '_', '.']),
        '!' => Some(vec!['_', '.', '_', '.', '_', '_']),
        '/' => Some(vec!['_', '.', '.', '_', '.']),
        '(' => Some(vec!['_', '.', '_', '_', '.']),
        ')' => Some(vec!['_', '.', '_', '_', '.', '_']),
        '&' => Some(vec!['.', '_', '.', '.', '.']),
        ':' => Some(vec!['_', '_', '_', '.', '.', '.']),
        ';' => Some(vec!['_', '.', '_', '.', '_', '.']),
        '=' => Some(vec!['_', '.', '.', '.', '_']),
        '+' => Some(vec!['.', '_', '.', '_', '.']),
        '-' => Some(vec!['_', '.', '.', '.', '.', '_']),
        '_' => Some(vec!['.', '.', '_', '_', '.', '_']),
        '$' => Some(vec!['.', '.', '.', '_', '.', '.', '_']),
        '"' => Some(vec!['.', '_', '.', '.', '_', '.']),
        '@' => Some(vec!['.', '_', '_', '.', '_', '.']),
        _ => None,
    }
}

} // verus!
