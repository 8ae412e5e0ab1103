use crate::morse::{
    join, lemma_join_push, lemma_split_elements, lemma_split_nonempty, split, MorseError,
    MorseString, MorseSymbol,
};
use vstd::prelude::*;

verus! {

/// How an inter-word space is written: `/` alone, or `/` with a space on
/// each side. Both read back the same.
#[derive(Debug, Clone, Copy, PartialEq, Eq, Structural)]
pub enum WordGap {
    Slash,
    SpacedSlash,
}

/// The text of one symbol.
pub open spec fn glyph(s: MorseSymbol, gap: WordGap) -> Seq<char> {
    match s {
        MorseSymbol::Dot => seq!['.'],
        MorseSymbol::Dash => seq!['_'],
        MorseSymbol::InterElementSpace => Seq::empty(),
        MorseSymbol::InterLetterSpace => seq![' '],
        MorseSymbol::InterWordSpace => match gap {
            WordGap::Slash => seq!['/'],
            WordGap::SpacedSlash => seq![' ', '/', ' '],
        },
    }
}

/// The notation of a message: the glyphs of its symbols, in order.
pub open spec fn render(s: Seq<MorseSymbol>, gap: WordGap) -> Seq<char>
    decreases s.len(),
{
    if s.len() == 0 {
        Seq::empty()
    } else {
        render(s.drop_last(), gap) + glyph(s.last(), gap)
    }
}

/// The characters that a notation string is read by; all others are noise.
pub open spec fn is_mark(c: char) -> bool {
    c == '.' || c == '_' || c == ' ' || c == '/'
}

/// A notation string with its noise removed.
pub open spec fn marks_of(s: Seq<char>) -> Seq<char>
    decreases s.len(),
{
    if s.len() == 0 {
        Seq::empty()
    } else if is_mark(s.last()) {
        marks_of(s.drop_last()).push(s.last())
    } else {
        marks_of(s.drop_last())
    }
}

pub open spec fn trim_start(s: Seq<char>) -> Seq<char>
    decreases s.len(),
{
    if s.len() > 0 && s[0] == ' ' {
        trim_start(s.drop_first())
    } else {
        s
    }
}

pub open spec fn trim_end(s: Seq<char>) -> Seq<char>
    decreases s.len(),
{
    if s.len() > 0 && s.last() == ' ' {
        trim_end(s.drop_last())
    } else {
        s
    }
}

/// `s` without its leading and trailing spaces.
pub open spec fn trim_spaces(s: Seq<char>) -> Seq<char> {
    trim_end(trim_start(s))
}

/// The symbol that a letter character stands for.
pub open spec fn tone_of(c: char) -> MorseSymbol {
    if c == '.' {
        MorseSymbol::Dot
    } else {
        MorseSymbol::Dash
    }
}

pub open spec fn is_element(c: char) -> bool {
    c == '.' || c == '_'
}

/// A letter of notation holds dots and dashes only.
pub open spec fn valid_letter(l: Seq<char>) -> bool {
    forall|i: int| 0 <= i < l.len() ==> is_element(#[trigger] l[i])
}

/// One symbol per character, with an inter-element space between neighbours.
pub open spec fn letter_symbols(l: Seq<char>) -> Seq<MorseSymbol>
    decreases l.len(),
{
    if l.len() == 0 {
        Seq::empty()
    } else if l.len() == 1 {
        seq![tone_of(l[0])]
    } else {
        letter_symbols(l.drop_last()) + seq![MorseSymbol::InterElementSpace, tone_of(l.last())]
    }
}

/// The letters of a word of notation.
pub open spec fn word_letters(w: Seq<char>) -> Seq<Seq<char>> {
    split(trim_spaces(w), ' ')
}

pub open spec fn valid_word(w: Seq<char>) -> bool {
    forall|k: int| 0 <= k < word_letters(w).len() ==> valid_letter(#[trigger] word_letters(w)[k])
}

/// The letters of a word, with an inter-letter space between neighbours.
pub open spec fn word_symbols(w: Seq<char>) -> Seq<MorseSymbol> {
    join(word_letters(w).map_values(|l: Seq<char>| letter_symbols(l)), MorseSymbol::InterLetterSpace)
}

/// The words of a notation string, after its noise is removed.
pub open spec fn notation_words(s: Seq<char>) -> Seq<Seq<char>> {
    split(marks_of(s), '/')
}

/// What a notation string reads as: its words, with an inter-word space
/// between neighbours. Surrounding whitespace needs no step of its own, since
/// every word is trimmed.
pub open spec fn decode(s: Seq<char>) -> Seq<MorseSymbol> {
    join(notation_words(s).map_values(|w: Seq<char>| word_symbols(w)), MorseSymbol::InterWordSpace)
}

/// A Morse message in its human-readable notation: `.` for a dot, `_` for a
/// dash, nothing between elements, a space between letters and `/` between
/// words.
#[derive(Debug, Clone)]
pub struct MorseRepr(String);

impl View for MorseRepr {
    type V = Seq<char>;

    closed spec fn view(&self) -> Seq<char> {
        self.0@
    }
}

impl MorseRepr {
    pub fn new(string: String) -> (r: Self)
        ensures
            r@ == string@,
    {
        MorseRepr(string)
    }

    /// The notation as a string.
    pub fn to_string(&self) -> (r: String)
        ensures
            r@ == self@,
    {
        self.0.clone()
    }

    /// The notation of a message, with `" / "` between words.
    pub fn from_morse(morse: &MorseString) -> (r: Self)
        ensures
            r@ == render(morse@, WordGap::SpacedSlash),
    {
        MorseRepr(to_notation(morse, WordGap::SpacedSlash))
    }

    /// The notation of a message, with the chosen word gap.
    pub fn from_morse_with(morse: &MorseString, gap: WordGap) -> (r: Self)
        ensures
            r@ == render(morse@, gap),
    {
        MorseRepr(to_notation(morse, gap))
    }

    /// The message that this notation reads as.
    pub fn to_morse(&self) -> (r: Result<MorseString, MorseError>)
        ensures
            r matches Ok(m) && m@ == decode(self@),
    {
        parse_text(self.0.as_str())
    }
}

/// Renders a message as notation.
pub fn to_notation(morse: &MorseString, gap: WordGap) -> (r: String)
    ensures
        r@ == render(morse@, gap),
{
    let mut out = String::new();
    for i in 0..morse.len()
        invariant
            out@ == render(morse@.take(i as int), gap),
    {
        let piece: &str = match morse[i] {
            MorseSymbol::Dot => ".",
            MorseSymbol::Dash => "_",
            MorseSymbol::InterElementSpace => "",
            MorseSymbol::InterLetterSpace => " ",
            MorseSymbol::InterWordSpace => match gap {
                WordGap::Slash => "/",
                WordGap::SpacedSlash => " / ",
            },
        };
        proof {
            reveal_strlit(".");
            reveal_strlit("_");
            reveal_strlit("");
            reveal_strlit(" ");
            reveal_strlit("/");
            reveal_strlit(" / ");
            assert(piece@ =~= glyph(morse@[i as int], gap));
            assert(morse@.take(i + 1).drop_last() =~= morse@.take(i as int));
        }
        out.append(piece);
    }
    assert(morse@.take(morse.len() as int) =~= morse@);
    out
}

/// Reads notation: the noise is dropped, the rest split into words at `/`,
/// and each word decoded. Every letter is then valid, so this never fails.
pub fn parse_text(text: &str) -> (r: Result<MorseString, MorseError>)
    ensures
        r matches Ok(m) && m@ == decode(text@),
{
    let chars = chars_of_marks(text);
    let words = split_chars(&chars, '/');
    let ghost ws = split(marks_of(text@), '/');
    let ghost f = |w: Seq<char>| word_symbols(w);
    proof {
        lemma_marks_are_marks(text@);
        lemma_split_elements(marks_of(text@), '/', |c: char| is_mark(c));
    }
    let mut out: Vec<MorseSymbol> = Vec::new();
    for k in 0..words.len()
        invariant
            ws == split(marks_of(text@), '/'),
            f == (|w: Seq<char>| word_symbols(w)),
            words.len() == ws.len(),
            forall|j: int| 0 <= j < ws.len() ==> (#[trigger] words[j])@ == ws[j],
            forall|j: int, i: int|
                0 <= j < ws.len() && 0 <= i < ws[j].len() ==> is_mark(#[trigger] ws[j][i]) && ws[j][i] != '/',
            out@ == join(ws.take(k as int).map_values(f), MorseSymbol::InterWordSpace),
    {
        proof {
            lemma_word_letters_valid(ws[k as int]);
        }
        let w = parse_word(&words[k]);
        let syms = match w {
            Ok(syms) => syms,
            Err(e) => {
                return Err(e);
            },
        };
        proof {
            assert(ws.take(k + 1).map_values(f) =~= ws.take(k as int).map_values(f).push(f(ws[k as int])));
            lemma_join_push(ws.take(k as int).map_values(f), f(ws[k as int]), MorseSymbol::InterWordSpace);
        }
        if k > 0 {
            out.push(MorseSymbol::InterWordSpace);
        }
        let mut syms = syms;
        out.append(&mut syms);
        assert(out@ =~= join(ws.take(k + 1).map_values(f), MorseSymbol::InterWordSpace));
    }
    assert(ws.take(words.len() as int) =~= ws);
    Ok(out)
}

/// Reads one word of notation: surrounding spaces are dropped and the rest
/// split into letters at each space. Two spaces in a row make an empty letter,
/// which adds no symbol but keeps its separators.
pub fn parse_word(word: &Vec<char>) -> (r: Result<MorseString, MorseError>)
    ensures
        match r {
            Ok(m) => valid_word(word@) && m@ == word_symbols(word@),
            Err(e) => !valid_word(word@) && e == MorseError::InvalidMorseCharacter,
        },
{
    let trimmed = trim(word);
    let letters = split_chars(&trimmed, ' ');
    let ghost ls = word_letters(word@);
    let ghost f = |l: Seq<char>| letter_symbols(l);
    let mut out: Vec<MorseSymbol> = Vec::new();
    for k in 0..letters.len()
        invariant
            ls == word_letters(word@),
            f == (|l: Seq<char>| letter_symbols(l)),
            letters.len() == ls.len(),
            forall|j: int| 0 <= j < ls.len() ==> (#[trigger] letters[j])@ == ls[j],
            forall|j: int| 0 <= j < k ==> valid_letter(#[trigger] ls[j]),
            out@ == join(ls.take(k as int).map_values(f), MorseSymbol::InterLetterSpace),
    {
        let mut syms = match parse_letter(&letters[k]) {
            Ok(syms) => syms,
            Err(e) => {
                assert(word_letters(word@)[k as int] == ls[k as int]);
                return Err(e);
            },
        };
        proof {
            assert(ls.take(k + 1).map_values(f) =~= ls.take(k as int).map_values(f).push(f(ls[k as int])));
            lemma_join_push(ls.take(k as int).map_values(f), f(ls[k as int]), MorseSymbol::InterLetterSpace);
        }
        if k > 0 {
            out.push(MorseSymbol::InterLetterSpace);
        }
        out.append(&mut syms);
        assert(out@ =~= join(ls.take(k + 1).map_values(f), MorseSymbol::InterLetterSpace));
    }
    assert(ls.take(letters.len() as int) =~= ls);
    Ok(out)
}

/// Reads one letter of notation: `.` is a dot and `_` a dash, with an
/// inter-element space between them. Any other character is an error.
pub fn parse_letter(letter: &Vec<char>) -> (r: Result<MorseString, MorseError>)
    ensures
        match r {
            Ok(m) => valid_letter(letter@) && m@ == letter_symbols(letter@),
            Err(e) => !valid_letter(letter@) && e == MorseError::InvalidMorseCharacter,
        },
{
    for i in 0..letter.len()
        invariant
            forall|j: int| 0 <= j < i ==> is_element(#[trigger] letter@[j]),
    {
        if letter[i] != '.' && letter[i] != '_' {
            assert(!is_element(letter@[i as int]));
            return Err(MorseError::InvalidMorseCharacter);
        }
    }
    Ok(elements_to_symbols(letter))
}

/// The symbols of a letter pattern: `.` gives a dot and anything else a dash,
/// with an inter-element space between neighbours.
pub fn elements_to_symbols(letter: &Vec<char>) -> (r: MorseString)
    ensures
        r@ == letter_symbols(letter@),
{
    let mut out: Vec<MorseSymbol> = Vec::new();
    for i in 0..letter.len()
        invariant
            out@ == letter_symbols(letter@.take(i as int)),
    {
        proof {
            assert(letter@.take(i + 1).drop_last() =~= letter@.take(i as int));
        }
        if i > 0 {
            out.push(MorseSymbol::InterElementSpace);
        }
        if letter[i] == '.' {
            out.push(MorseSymbol::Dot);
        } else {
            out.push(MorseSymbol::Dash);
        }
        assert(out@ =~= letter_symbols(letter@.take(i + 1)));
    }
    assert(letter@.take(letter.len() as int) =~= letter@);
    out
}

/// The characters of `text` that notation is read by.
pub fn chars_of_marks(text: &str) -> (r: Vec<char>)
    ensures
        r@ == marks_of(text@),
{
    let chars = crate::morse::chars_of(text);
    let mut out: Vec<char> = Vec::new();
    for i in 0..chars.len()
        invariant
            chars@ == text@,
            out@ == marks_of(chars@.take(i as int)),
    {
        proof {
            assert(chars@.take(i + 1).drop_last() =~= chars@.take(i as int));
        }
        let c = chars[i];
        if c == '.' || c == '_' || c == ' ' || c == '/' {
            out.push(c);
        }
    }
    assert(chars@.take(chars.len() as int) =~= chars@);
    out
}

/// `s` cut into the runs between each `sep`.
pub fn split_chars(s: &Vec<char>, sep: char) -> (r: Vec<Vec<char>>)
    ensures
        r.len() == split(s@, sep).len(),
        forall|k: int| 0 <= k < r.len() ==> (#[trigger] r[k])@ == split(s@, sep)[k],
{
    let mut done: Vec<Vec<char>> = Vec::new();
    let mut cur: Vec<char> = Vec::new();
    for i in 0..s.len()
        invariant
            done.len() + 1 == split(s@.take(i as int), sep).len(),
            forall|k: int| 0 <= k < done.len() ==> (#[trigger] done[k])@ == split(s@.take(i as int), sep)[k],
            cur@ == split(s@.take(i as int), sep).last(),
    {
        proof {
            assert(s@.take(i + 1).drop_last() =~= s@.take(i as int));
            lemma_split_nonempty(s@.take(i as int), sep);
        }
        if s[i] == sep {
            done.push(cur);
            cur = Vec::new();
        } else {
            cur.push(s[i]);
        }
    }
    assert(s@.take(s.len() as int) =~= s@);
    done.push(cur);
    done
}

/// `s` without its leading and trailing spaces.
pub fn trim(s: &Vec<char>) -> (r: Vec<char>)
    ensures
        r@ == trim_spaces(s@),
{
    let n = s.len();
    let mut lo: usize = 0;
    assert(s@.subrange(0, n as int) =~= s@);
    while lo < n && s[lo] == ' '
        invariant
            lo <= n == s.len(),
            trim_start(s@) == trim_start(s@.subrange(lo as int, n as int)),
        decreases n - lo,
    {
        assert(s@.subrange(lo as int, n as int).drop_first() =~= s@.subrange(lo + 1, n as int));
        lo = lo + 1;
    }
    let mut hi: usize = n;
    let ghost t = s@.subrange(lo as int, n as int);
    assert(trim_start(t) == t);
    while hi > lo && s[hi - 1] == ' '
        invariant
            lo <= hi <= n == s.len(),
            t == s@.subrange(lo as int, n as int),
            trim_end(t) == trim_end(s@.subrange(lo as int, hi as int)),
        decreases hi,
    {
        assert(s@.subrange(lo as int, hi as int).drop_last() =~= s@.subrange(lo as int, hi - 1));
        hi = hi - 1;
    }
    assert(trim_end(s@.subrange(lo as int, hi as int)) == s@.subrange(lo as int, hi as int));
    let mut out: Vec<char> = Vec::new();
    for i in lo..hi
        invariant
            lo <= hi <= s.len(),
            out@ == s@.subrange(lo as int, i as int),
    {
        out.push(s[i]);
        assert(out@ =~= s@.subrange(lo as int, i + 1));
    }
    out
}

/// Every character that `marks_of` keeps is a mark.
pub proof fn lemma_marks_are_marks(s: Seq<char>)
    ensures
        forall|i: int| 0 <= i < marks_of(s).len() ==> is_mark(#[trigger] marks_of(s)[i]),
    decreases s.len(),
{
    if s.len() > 0 {
        lemma_marks_are_marks(s.drop_last());
        let m = marks_of(s.drop_last());
        if is_mark(s.last()) {
            assert forall|i: int| 0 <= i < m.push(s.last()).len() implies is_mark(#[trigger] m.push(s.last())[i]) by {
                if i < m.len() {
                    assert(m.push(s.last())[i] == m[i]);
                }
            }
        }
    }
}

proof fn lemma_trim_elements(s: Seq<char>, pred: spec_fn(char) -> bool)
    requires
        forall|i: int| 0 <= i < s.len() ==> pred(#[trigger] s[i]),
    ensures
        forall|i: int| 0 <= i < trim_start(s).len() ==> pred(#[trigger] trim_start(s)[i]),
        forall|i: int| 0 <= i < trim_end(s).len() ==> pred(#[trigger] trim_end(s)[i]),
    decreases s.len(),
{
    if s.len() > 0 {
        let a = s.drop_first();
        let b = s.drop_last();
        assert forall|i: int| 0 <= i < a.len() implies pred(#[trigger] a[i]) by {
            assert(a[i] == s[i + 1]);
        }
        assert forall|i: int| 0 <= i < b.len() implies pred(#[trigger] b[i]) by {
            assert(b[i] == s[i]);
        }
        lemma_trim_elements(a, pred);
        lemma_trim_elements(b, pred);
        if s[0] == ' ' {
            assert(trim_start(s) == trim_start(a));
        } else {
            assert(trim_start(s) == s);
        }
        if s.last() == ' ' {
            assert(trim_end(s) == trim_end(b));
        } else {
            assert(trim_end(s) == s);
        }
    }
}

/// A word cut from marks, with no `/` in it, has only valid letters.
pub proof fn lemma_word_letters_valid(w: Seq<char>)
    requires
        forall|i: int| 0 <= i < w.len() ==> is_mark(#[trigger] w[i]) && w[i] != '/',
    ensures
        valid_word(w),
{
    let pred = |c: char| is_mark(c) && c != '/';
    lemma_trim_elements(w, pred);
    lemma_trim_elements(trim_start(w), pred);
    lemma_split_elements(trim_spaces(w), ' ', pred);
    assert forall|k: int| 0 <= k < word_letters(w).len() implies valid_letter(#[trigger] word_letters(w)[k]) by {
        assert forall|i: int| 0 <= i < word_letters(w)[k].len() implies is_element(#[trigger] word_letters(w)[k][i]) by {
            assert(pred(split(trim_spaces(w), ' ')[k][i]));
        }
    }
}

/// Noise removal distributes over concatenation.
pub proof fn lemma_marks_concat(x: Seq<char>, y: Seq<char>)
    ensures
        marks_of(x + y) == marks_of(x) + marks_of(y),
    decreases y.len(),
{
    if y.len() == 0 {
        assert(x + y =~= x);
        assert(marks_of(x) + marks_of(y) =~= marks_of(x));
    } else {
        assert((x + y).drop_last() =~= x + y.drop_last());
        assert((x + y).last() == y.last());
        lemma_marks_concat(x, y.drop_last());
        if is_mark(y.last()) {
            assert(marks_of(x + y) =~= marks_of(x) + marks_of(y));
        }
    }
}

/// Spaces and noise leave nothing but spaces.
pub proof fn lemma_marks_blank(x: Seq<char>)
    requires
        forall|i: int| 0 <= i < x.len() ==> #[trigger] x[i] == ' ' || !is_mark(x[i]),
    ensures
        forall|i: int| 0 <= i < marks_of(x).len() ==> #[trigger] marks_of(x)[i] == ' ',
    decreases x.len(),
{
    if x.len() > 0 {
        let q = x.drop_last();
        assert forall|i: int| 0 <= i < q.len() implies #[trigger] q[i] == ' ' || !is_mark(q[i]) by {
            assert(q[i] == x[i]);
        }
        lemma_marks_blank(q);
        assert(x[x.len() - 1] == ' ' || !is_mark(x[x.len() - 1]));
        let m = marks_of(q);
        if is_mark(x.last()) {
            assert forall|i: int| 0 <= i < m.push(x.last()).len() implies #[trigger] m.push(x.last())[i] == ' ' by {
                if i < m.len() {
                    assert(m.push(x.last())[i] == m[i]);
                }
            }
        }
    }
}

/// Splitting after a prefix that holds no separator extends the first piece.
pub proof fn lemma_split_prepend<T>(p: Seq<T>, m: Seq<T>, c: T)
    requires
        !p.contains(c),
    ensures
        split(p + m, c) == split(m, c).update(0, p + split(m, c)[0]),
    decreases m.len(),
{
    lemma_split_nonempty(m, c);
    if m.len() == 0 {
        let e = Seq::<T>::empty();
        assert(p + m =~= e + p);
        crate::round_trip::lemma_split_append(e, p, c);
        assert(split(e, c) == seq![e]);
        assert(split(p + m, c) =~= split(m, c).update(0, p + split(m, c)[0]));
    } else {
        let q = m.drop_last();
        let x = m.last();
        lemma_split_prepend(p, q, c);
        lemma_split_nonempty(q, c);
        assert((p + m).drop_last() =~= p + q);
        assert((p + m).last() == x);
        let r = split(q, c);
        let big = r.update(0, p + r[0]);
        if x == c {
            assert(split(p + m, c) == big.push(Seq::empty()));
            assert(split(m, c) == r.push(Seq::empty()));
            assert(big.push(Seq::empty()) =~= r.push(Seq::empty()).update(0, p + r[0]));
        } else {
            let n = r.len();
            assert(split(p + m, c) == big.update(n - 1, big.last().push(x)));
            assert(split(m, c) == r.update(n - 1, r.last().push(x)));
            if n == 1 {
                assert((p + r[0]).push(x) =~= p + r[0].push(x));
            }
            assert(big.update(n - 1, big.last().push(x)) =~= r.update(n - 1, r.last().push(x)).update(
                0,
                p + r.update(n - 1, r.last().push(x))[0],
            ));
        }
    }
}

proof fn lemma_trim_prefix_spaces(p: Seq<char>, x: Seq<char>)
    requires
        forall|i: int| 0 <= i < p.len() ==> #[trigger] p[i] == ' ',
    ensures
        trim_spaces(p + x) == trim_spaces(x),
    decreases p.len(),
{
    if p.len() == 0 {
        assert(p + x =~= x);
    } else {
        let q = p.drop_first();
        assert forall|i: int| 0 <= i < q.len() implies #[trigger] q[i] == ' ' by {
            assert(q[i] == p[i + 1]);
        }
        lemma_trim_prefix_spaces(q, x);
        assert(p[0] == ' ');
        assert(p + x =~= seq![' '] + (q + x));
        crate::round_trip::lemma_trim_prepend_space(q + x);
    }
}

proof fn lemma_trim_suffix_spaces(x: Seq<char>, p: Seq<char>)
    requires
        forall|i: int| 0 <= i < p.len() ==> #[trigger] p[i] == ' ',
    ensures
        trim_spaces(x + p) == trim_spaces(x),
    decreases p.len(),
{
    if p.len() == 0 {
        assert(x + p =~= x);
    } else {
        let q = p.drop_last();
        assert forall|i: int| 0 <= i < q.len() implies #[trigger] q[i] == ' ' by {
            assert(q[i] == p[i]);
        }
        lemma_trim_suffix_spaces(x, q);
        assert(p[p.len() - 1] == ' ');
        assert(x + p =~= (x + q).push(' '));
        crate::round_trip::lemma_trim_push_space(x + q);
    }
}

/// Characters around the part `a..b` of a notation string that are spaces
/// or noise change nothing in what it reads as. Whitespace is always one or
/// the other, so trimming the input of surrounding whitespace before reading
/// it gives the same message.
pub proof fn lemma_decode_ignores_surroundings(s: Seq<char>, a: int, b: int)
    requires
        0 <= a <= b <= s.len(),
        forall|i: int|
            (0 <= i < a || b <= i < s.len()) ==> #[trigger] s[i] == ' ' || !is_mark(s[i]),
    ensures
        decode(s.subrange(a, b)) == decode(s),
{
    let pre = s.subrange(0, a);
    let mid = s.subrange(a, b);
    let suf = s.subrange(b, s.len() as int);
    assert(s =~= pre + mid + suf);
    assert forall|i: int| 0 <= i < pre.len() implies #[trigger] pre[i] == ' ' || !is_mark(pre[i]) by {
        assert(pre[i] == s[i]);
    }
    assert forall|i: int| 0 <= i < suf.len() implies #[trigger] suf[i] == ' ' || !is_mark(suf[i]) by {
        assert(suf[i] == s[i + b]);
    }
    lemma_marks_blank(pre);
    lemma_marks_blank(suf);
    lemma_marks_concat(pre + mid, suf);
    lemma_marks_concat(pre, mid);
    let p = marks_of(pre);
    let m = marks_of(mid);
    let t = marks_of(suf);
    assert(marks_of(s) == p + m + t);
    assert(!p.contains('/')) by {
        if p.contains('/') {
            let i = choose|i: int| 0 <= i < p.len() && p[i] == '/';
            assert(p[i] == ' ');
        }
    }
    assert(!t.contains('/')) by {
        if t.contains('/') {
            let i = choose|i: int| 0 <= i < t.len() && t[i] == '/';
            assert(t[i] == ' ');
        }
    }
    lemma_split_prepend(p, m, '/');
    crate::round_trip::lemma_split_append(p + m, t, '/');
    lemma_split_nonempty(m, '/');
    let r = split(m, '/');
    let r1 = r.update(0, p + r[0]);
    let r2 = r1.update(r1.len() - 1, r1.last() + t);
    assert(split(marks_of(s), '/') == r2);
    let f = |w: Seq<char>| word_symbols(w);
    assert(r2.map_values(f) =~= r.map_values(f)) by {
        assert forall|k: int| 0 <= k < r.len() implies f(r2[k]) == f(r[k]) by {
            let last = r.len() - 1;
            if k == 0 {
                lemma_trim_prefix_spaces(p, r[0]);
            }
            if k == last {
                lemma_trim_suffix_spaces(r1[k], t);
            }
            assert(trim_spaces(r2[k]) == trim_spaces(r[k]));
        }
    }
}

} // verus!
