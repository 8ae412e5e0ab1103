use vstd::prelude::*;

verus! {

/// The five atomic pieces that every Morse message is made of.
#[derive(Debug, Clone, Copy, PartialEq, Eq, Structural)]
pub enum MorseSymbol {
    Dot,
    Dash,
    InterElementSpace,
    InterLetterSpace,
    InterWordSpace,
}

/// A symbolic Morse message: symbols in the order they are sent.
pub type MorseString = Vec<MorseSymbol>;

/// What can go wrong while converting or configuring.
#[derive(Debug, Clone, Copy, PartialEq, Eq, Structural)]
pub enum MorseError {
    /// A character passed the text filter but has no entry in the table.
    UnsupportedCharacter,
    /// A letter of a notation string holds something other than `.` or `_`.
    InvalidMorseCharacter,
    /// A words-per-minute speed of zero.
    InvalidSpeed,
    /// Both a PARIS and a CODEX speed were asked for.
    ConflictingSpeedArguments,
}

/// Pieces laid end to end with one `sep` between neighbours; an empty piece
/// still gets its separators.
pub open spec fn join<T>(pieces: Seq<Seq<T>>, sep: T) -> Seq<T>
    decreases pieces.len(),
{
    if pieces.len() == 0 {
        Seq::empty()
    } else if pieces.len() == 1 {
        pieces[0]
    } else {
        join(pieces.drop_last(), sep) + seq![sep] + pieces.last()
    }
}

/// The maximal runs of `s` that hold no `sep`; there is always at least one.
pub open spec fn split<T>(s: Seq<T>, sep: T) -> Seq<Seq<T>>
    decreases s.len(),
{
    if s.len() == 0 {
        seq![Seq::empty()]
    } else {
        let r = split(s.drop_last(), sep);
        if s.last() == sep {
            r.push(Seq::empty())
        } else {
            r.update(r.len() - 1, r.last().push(s.last()))
        }
    }
}

pub proof fn lemma_split_nonempty<T>(s: Seq<T>, sep: T)
    ensures
        split(s, sep).len() >= 1,
    decreases s.len(),
{
    if s.len() > 0 {
        lemma_split_nonempty(s.drop_last(), sep);
    }
}

/// Whatever holds of every element of the input holds of every element of
/// every piece, and no piece holds the separator.
pub proof fn lemma_split_elements<T>(s: Seq<T>, sep: T, pred: spec_fn(T) -> bool)
    requires
        forall|i: int| 0 <= i < s.len() ==> pred(#[trigger] s[i]),
    ensures
        forall|k: int, j: int|
            0 <= k < split(s, sep).len() && 0 <= j < split(s, sep)[k].len() ==> pred(
                #[trigger] split(s, sep)[k][j],
            ) && split(s, sep)[k][j] != sep,
    decreases s.len(),
{
    if s.len() > 0 {
        lemma_split_elements(s.drop_last(), sep, pred);
        lemma_split_nonempty(s.drop_last(), sep);
        assert(pred(s[s.len() - 1]));
    }
}

/// The law that lets a loop grow a join one piece at a time.
pub proof fn lemma_join_push<T>(pieces: Seq<Seq<T>>, p: Seq<T>, sep: T)
    ensures
        join(pieces.push(p), sep) == if pieces.len() == 0 {
            p
        } else {
            join(pieces, sep) + seq![sep] + p
        },
{
    assert(pieces.push(p).drop_last() =~= pieces);
    if pieces.len() == 0 {
        assert(pieces.push(p)[0] == p);
    }
}

/// The number of time units that a symbol lasts.
pub open spec fn units(s: MorseSymbol) -> nat {
    match s {
        MorseSymbol::Dot => 1,
        MorseSymbol::InterElementSpace => 1,
        MorseSymbol::Dash => 3,
        MorseSymbol::InterLetterSpace => 3,
        MorseSymbol::InterWordSpace => 7,
    }
}

/// Whether a symbol sounds a tone (a dot or a dash) rather than a silence.
pub open spec fn is_tone(s: MorseSymbol) -> bool {
    s == MorseSymbol::Dot || s == MorseSymbol::Dash
}

/// The units of a whole message.
pub open spec fn total_units(s: Seq<MorseSymbol>) -> nat
    decreases s.len(),
{
    if s.len() == 0 {
        0
    } else {
        total_units(s.drop_last()) + units(s.last())
    }
}

/// Time units of one symbol.
pub fn symbol_units(s: MorseSymbol) -> (r: u8)
    ensures
        r == units(s),
{
    match s {
        MorseSymbol::Dot | MorseSymbol::InterElementSpace => 1,
        MorseSymbol::Dash | MorseSymbol::InterLetterSpace => 3,
        MorseSymbol::InterWordSpace => 7,
    }
}

/// The characters of a string slice, one per element.
pub fn chars_of(s: &str) -> (r: Vec<char>)
    ensures
        r@ == s@,
{
    let mut r: Vec<char> = Vec::new();
    for c in it: s.chars()
        invariant
            r@ == it.seq().take(it.index() as int),
    {
        r.push(c);
        assert(r@ =~= it.seq().take(it.index() + 1));
    }
    assert(r@ =~= s@);
    r
}

} // verus!
