use crate::morse::{join, lemma_split_elements, lemma_split_nonempty, split, MorseSymbol};
use crate::repr::{
    decode, lemma_marks_are_marks, lemma_word_letters_valid, notation_words, word_letters, glyph, is_element, is_mark, letter_symbols, marks_of, render, tone_of, trim_end,
    trim_spaces, trim_start, valid_letter, word_symbols, WordGap,
};
use crate::text::{
    is_ascii_digit, is_ascii_lower, is_ascii_upper, is_punctuation, char_symbols, encode_lowered, has_unsupported, in_table, is_kept, is_unsupported,
    kept_chars, pattern_of, text_word_symbols,
};
use vstd::prelude::*;

verus! {

pub proof fn lemma_render_concat(a: Seq<MorseSymbol>, b: Seq<MorseSymbol>, gap: WordGap)
    ensures
        render(a + b, gap) == render(a, gap) + render(b, gap),
    decreases b.len(),
{
    if b.len() == 0 {
        assert(a + b =~= a);
        assert(render(a, gap) + render(b, gap) =~= render(a, gap));
    } else {
        assert((a + b).drop_last() =~= a + b.drop_last());
        assert((a + b).last() == b.last());
        lemma_render_concat(a, b.drop_last(), gap);
        assert(render(a + b, gap) =~= render(a, gap) + render(b, gap));
    }
}

pub proof fn lemma_render_single(x: MorseSymbol, gap: WordGap)
    ensures
        render(seq![x], gap) == glyph(x, gap),
{
    assert(seq![x].drop_last() =~= Seq::<MorseSymbol>::empty());
    assert(render(Seq::<MorseSymbol>::empty(), gap) == Seq::<char>::empty());
    assert(Seq::<char>::empty() + glyph(x, gap) =~= glyph(x, gap));
}

/// A letter of dots and dashes renders back to itself.
pub proof fn lemma_render_letter(p: Seq<char>, gap: WordGap)
    requires
        valid_letter(p),
    ensures
        render(letter_symbols(p), gap) == p,
    decreases p.len(),
{
    if p.len() == 1 {
        assert(is_element(p[0]));
        lemma_render_single(tone_of(p[0]), gap);
        assert(render(seq![tone_of(p[0])], gap) =~= p);
    } else if p.len() > 1 {
        let q = p.drop_last();
        assert forall|i: int| 0 <= i < q.len() implies is_element(#[trigger] q[i]) by {
            assert(q[i] == p[i]);
        }
        lemma_render_letter(q, gap);
        let tail = seq![MorseSymbol::InterElementSpace, tone_of(p.last())];
        lemma_render_concat(letter_symbols(q), tail, gap);
        assert(is_element(p[p.len() - 1]));
        assert(tail =~= seq![MorseSymbol::InterElementSpace] + seq![tone_of(p.last())]);
        lemma_render_concat(seq![MorseSymbol::InterElementSpace], seq![tone_of(p.last())], gap);
        lemma_render_single(MorseSymbol::InterElementSpace, gap);
        lemma_render_single(tone_of(p.last()), gap);
        assert(render(tail, gap) =~= seq![p.last()]);
        assert(render(letter_symbols(p), gap) =~= p);
    } else {
        assert(render(letter_symbols(p), gap) =~= p);
    }
}

/// Rendering a join whose separator is one character long.
pub proof fn lemma_render_join(xs: Seq<Seq<MorseSymbol>>, s: MorseSymbol, c: char, gap: WordGap)
    requires
        glyph(s, gap) == seq![c],
    ensures
        render(join(xs, s), gap) == join(xs.map_values(|x: Seq<MorseSymbol>| render(x, gap)), c),
    decreases xs.len(),
{
    let f = |x: Seq<MorseSymbol>| render(x, gap);
    if xs.len() == 1 {
        assert(xs.map_values(f).len() == 1);
    } else if xs.len() > 1 {
        lemma_render_join(xs.drop_last(), s, c, gap);
        assert(xs.drop_last().map_values(f) =~= xs.map_values(f).drop_last());
        lemma_render_concat(join(xs.drop_last(), s), seq![s], gap);
        lemma_render_concat(join(xs.drop_last(), s) + seq![s], xs.last(), gap);
        lemma_render_single(s, gap);
    } else {
        assert(xs.map_values(f) =~= Seq::<Seq<char>>::empty());
    }
}

/// Splitting after a run that holds no separator extends the last piece.
pub proof fn lemma_split_append<T>(x: Seq<T>, b: Seq<T>, c: T)
    requires
        !b.contains(c),
    ensures
        split(x + b, c) == split(x, c).update(split(x, c).len() - 1, split(x, c).last() + b),
    decreases b.len(),
{
    lemma_split_nonempty(x, c);
    if b.len() == 0 {
        assert(x + b =~= x);
        assert(split(x, c).last() + b =~= split(x, c).last());
        assert(split(x, c).update(split(x, c).len() - 1, split(x, c).last()) =~= split(x, c));
    } else {
        let b2 = b.drop_last();
        assert(!b2.contains(c)) by {
            if b2.contains(c) {
                let i = choose|i: int| 0 <= i < b2.len() && b2[i] == c;
                assert(b[i] == c);
            }
        }
        assert(b.last() != c) by {
            assert(b[b.len() - 1] == b.last());
        }
        lemma_split_append(x, b2, c);
        assert((x + b).drop_last() =~= x + b2);
        assert((x + b).last() == b.last());
        let r = split(x, c);
        assert(split(x + b, c) =~= r.update(r.len() - 1, r.last() + b)) by {
            assert(r.last() + b2 + seq![b.last()] =~= r.last() + b);
            assert((r.last() + b2).push(b.last()) =~= r.last() + b);
        }
    }
}

/// Splitting a join at its separator gives the pieces back.
pub proof fn lemma_split_join<T>(ps: Seq<Seq<T>>, c: T)
    requires
        ps.len() >= 1,
        forall|k: int| 0 <= k < ps.len() ==> !(#[trigger] ps[k]).contains(c),
    ensures
        split(join(ps, c), c) == ps,
    decreases ps.len(),
{
    if ps.len() == 1 {
        let e = Seq::<T>::empty();
        lemma_split_append(e, ps[0], c);
        assert(e + ps[0] =~= ps[0]);
        assert(split(e, c) == seq![e]);
        assert(split(ps[0], c) =~= ps);
    } else {
        let q = ps.drop_last();
        assert forall|k: int| 0 <= k < q.len() implies !(#[trigger] q[k]).contains(c) by {
            assert(q[k] == ps[k]);
        }
        lemma_split_join(q, c);
        let a = join(q, c) + seq![c];
        assert(a.drop_last() =~= join(q, c));
        assert(split(a, c) == q.push(Seq::empty()));
        assert(!ps.last().contains(c)) by {
            assert(ps[ps.len() - 1] == ps.last());
        }
        lemma_split_append(a, ps.last(), c);
        assert(Seq::<T>::empty() + ps.last() =~= ps.last());
        assert(q.push(Seq::empty()).update(q.len() as int, ps.last()) =~= ps);
    }
}

/// The first and last elements of a join are those of its outer pieces.
pub proof fn lemma_join_ends<T>(ps: Seq<Seq<T>>, c: T)
    requires
        ps.len() >= 1,
        ps[0].len() > 0,
        ps.last().len() > 0,
    ensures
        join(ps, c).len() > 0,
        join(ps, c)[0] == ps[0][0],
        join(ps, c).last() == ps.last().last(),
    decreases ps.len(),
{
    if ps.len() > 1 {
        let q = ps.drop_last();
        if q.len() > 1 || q[0].len() > 0 {
            if q.last().len() > 0 {
                lemma_join_ends(q, c);
            } else {
                lemma_join_first(q, c);
            }
        }
        assert(q[0] == ps[0]);
    }
}

proof fn lemma_join_first<T>(ps: Seq<Seq<T>>, c: T)
    requires
        ps.len() >= 1,
        ps[0].len() > 0,
    ensures
        join(ps, c).len() > 0,
        join(ps, c)[0] == ps[0][0],
    decreases ps.len(),
{
    if ps.len() > 1 {
        let q = ps.drop_last();
        assert(q[0] == ps[0]);
        lemma_join_first(q, c);
    }
}

/// A join whose pieces and separator all satisfy `pred` satisfies it too.
pub proof fn lemma_join_elements<T>(ps: Seq<Seq<T>>, c: T, pred: spec_fn(T) -> bool)
    requires
        pred(c),
        forall|k: int, j: int| 0 <= k < ps.len() && 0 <= j < ps[k].len() ==> pred(#[trigger] ps[k][j]),
    ensures
        forall|i: int| 0 <= i < join(ps, c).len() ==> pred(#[trigger] join(ps, c)[i]),
    decreases ps.len(),
{
    if ps.len() == 1 {
        assert forall|i: int| 0 <= i < join(ps, c).len() implies pred(#[trigger] join(ps, c)[i]) by {
            assert(join(ps, c)[i] == ps[0][i]);
        }
    } else if ps.len() > 1 {
        let q = ps.drop_last();
        assert forall|k: int, j: int| 0 <= k < q.len() && 0 <= j < q[k].len() implies pred(#[trigger] q[k][j]) by {
            assert(q[k] == ps[k]);
        }
        lemma_join_elements(q, c, pred);
        let a = join(q, c);
        let l = ps.last();
        assert forall|i: int| 0 <= i < join(ps, c).len() implies pred(#[trigger] join(ps, c)[i]) by {
            if i < a.len() {
                assert(join(ps, c)[i] == a[i]);
            } else if i == a.len() {
                assert(join(ps, c)[i] == c);
            } else {
                assert(join(ps, c)[i] == l[i - a.len() - 1]);
                assert(ps[ps.len() - 1] == l);
            }
        }
    }
}

/// Appending to the last piece appends to the join.
pub proof fn lemma_join_extend_last<T>(ps: Seq<Seq<T>>, y: Seq<T>, c: T)
    requires
        ps.len() >= 1,
    ensures
        join(ps.update(ps.len() - 1, ps.last() + y), c) == join(ps, c) + y,
{
    let u = ps.update(ps.len() - 1, ps.last() + y);
    if ps.len() == 1 {
        assert(u[0] == ps[0] + y);
    } else {
        assert(u.drop_last() =~= ps.drop_last());
        assert(join(u, c) =~= join(ps, c) + y);
    }
}

/// A string of marks is its own set of marks.
pub proof fn lemma_marks_fixed(s: Seq<char>)
    requires
        forall|i: int| 0 <= i < s.len() ==> is_mark(#[trigger] s[i]),
    ensures
        marks_of(s) == s,
    decreases s.len(),
{
    if s.len() > 0 {
        let q = s.drop_last();
        assert forall|i: int| 0 <= i < q.len() implies is_mark(#[trigger] q[i]) by {
            assert(q[i] == s[i]);
        }
        lemma_marks_fixed(q);
        assert(is_mark(s[s.len() - 1]));
        assert(q.push(s.last()) =~= s);
    }
}

pub proof fn lemma_trim_start_push(x: Seq<char>, c: char)
    ensures
        trim_start(x.push(c)) == if trim_start(x).len() == 0 && c == ' ' {
            Seq::<char>::empty()
        } else {
            trim_start(x).push(c)
        },
    decreases x.len(),
{
    if x.len() == 0 {
        let e = Seq::<char>::empty();
        assert(x.push(c) =~= seq![c]);
        assert(seq![c].drop_first() =~= e);
        assert(trim_start(e) == e);
    } else if x[0] == ' ' {
        assert(x.push(c).drop_first() =~= x.drop_first().push(c));
        lemma_trim_start_push(x.drop_first(), c);
    } else {
        assert(x.push(c)[0] == x[0]);
    }
}

/// A trailing space makes no difference to the trimmed string.
pub proof fn lemma_trim_push_space(x: Seq<char>)
    ensures
        trim_spaces(x.push(' ')) == trim_spaces(x),
{
    lemma_trim_start_push(x, ' ');
    let y = trim_start(x);
    if y.len() == 0 {
        assert(trim_end(Seq::<char>::empty()) == Seq::<char>::empty());
    } else {
        assert(y.push(' ').drop_last() =~= y);
    }
}

/// A leading space makes no difference to the trimmed string.
pub proof fn lemma_trim_prepend_space(x: Seq<char>)
    ensures
        trim_spaces(seq![' '] + x) == trim_spaces(x),
{
    assert((seq![' '] + x).drop_first() =~= x);
    assert((seq![' '] + x)[0] == ' ');
}

/// What a word renders to reads back as that word.
pub open spec fn reads_back(w: Seq<MorseSymbol>, gap: WordGap) -> bool {
    let r = render(w, gap);
    &&& word_symbols(r) == w
    &&& trim_spaces(r) == r
    &&& forall|i: int| 0 <= i < r.len() ==> is_mark(#[trigger] r[i]) && r[i] != '/'
}

/// Letters of dots and dashes joined into a word read back, as long as the
/// word neither starts nor ends with an empty letter.
pub proof fn lemma_word_reads_back(pats: Seq<Seq<char>>, gap: WordGap)
    requires
        forall|k: int| 0 <= k < pats.len() ==> valid_letter(#[trigger] pats[k]),
        pats.len() <= 1 || (pats[0].len() > 0 && pats.last().len() > 0),
    ensures
        reads_back(join(pats.map_values(|p: Seq<char>| letter_symbols(p)), MorseSymbol::InterLetterSpace), gap),
{
    let xs = pats.map_values(|p: Seq<char>| letter_symbols(p));
    let w = join(xs, MorseSymbol::InterLetterSpace);
    lemma_render_join(xs, MorseSymbol::InterLetterSpace, ' ', gap);
    assert(xs.map_values(|x: Seq<MorseSymbol>| render(x, gap)) =~= pats) by {
        assert forall|k: int| 0 <= k < pats.len() implies render(#[trigger] xs[k], gap) == pats[k] by {
            lemma_render_letter(pats[k], gap);
        }
    }
    let r = render(w, gap);
    assert(r == join(pats, ' '));
    lemma_join_elements(pats, ' ', |c: char| is_mark(c) && c != '/');
    if pats.len() == 0 || pats[0].len() == 0 {
        let e = Seq::<char>::empty();
        if pats.len() == 0 {
            assert(xs =~= Seq::<Seq<MorseSymbol>>::empty());
        } else {
            assert(xs[0] == letter_symbols(e));
            assert(pats.map_values(|x: Seq<char>| x)[0] == e);
            assert(join(pats, ' ') == pats[0]);
        }
        assert(w == Seq::<MorseSymbol>::empty());
        assert(r == e);
        assert(trim_start(e) == e);
        assert(trim_end(e) == e);
        assert(split(e, ' ') == seq![e]);
        let ls = seq![e].map_values(|p: Seq<char>| letter_symbols(p));
        assert(ls =~= seq![Seq::<MorseSymbol>::empty()]);
        assert(word_symbols(r) =~= w);
    } else {
        assert(pats.last() == pats[pats.len() - 1]);
        lemma_join_ends(pats, ' ');
        assert(is_element(pats[0][0]));
        assert(is_element(pats.last()[pats.last().len() - 1]));
        assert(trim_start(r) == r);
        assert(trim_end(r) == r);
        assert forall|k: int| 0 <= k < pats.len() implies !(#[trigger] pats[k]).contains(' ') by {
            if pats[k].contains(' ') {
                let j = choose|j: int| 0 <= j < pats[k].len() && pats[k][j] == ' ';
                assert(is_element(pats[k][j]));
            }
        }
        lemma_split_join(pats, ' ');
    }
}

/// Rendering words with `" / "` between them: the pieces between the
/// slashes trim back to the words' own renderings.
pub proof fn lemma_render_spaced(xs: Seq<Seq<MorseSymbol>>) -> (q: Seq<Seq<char>>)
    requires
        xs.len() >= 1,
        forall|k: int| 0 <= k < xs.len() ==> reads_back(#[trigger] xs[k], WordGap::SpacedSlash),
    ensures
        q.len() == xs.len(),
        join(q, '/') == render(join(xs, MorseSymbol::InterWordSpace), WordGap::SpacedSlash),
        forall|k: int| 0 <= k < q.len() ==> trim_spaces(#[trigger] q[k]) == render(xs[k], WordGap::SpacedSlash),
        forall|k: int, j: int| 0 <= k < q.len() && 0 <= j < q[k].len() ==> is_mark(#[trigger] q[k][j]) && q[k][j] != '/',
    decreases xs.len(),
{
    let gap = WordGap::SpacedSlash;
    if xs.len() == 1 {
        let q = seq![render(xs[0], gap)];
        assert(reads_back(xs[0], gap));
        q
    } else {
        let xs2 = xs.drop_last();
        assert forall|k: int| 0 <= k < xs2.len() implies reads_back(#[trigger] xs2[k], gap) by {
            assert(xs2[k] == xs[k]);
        }
        let q2 = lemma_render_spaced(xs2);
        let last = render(xs.last(), gap);
        assert(reads_back(xs[xs.len() - 1], gap));
        let n = q2.len();
        let q3 = q2.update(n - 1, q2.last() + seq![' ']);
        let q = q3.push(seq![' '] + last);
        lemma_join_extend_last(q2, seq![' '], '/');
        assert(q.drop_last() =~= q3);
        lemma_render_concat(join(xs2, MorseSymbol::InterWordSpace), seq![MorseSymbol::InterWordSpace], gap);
        lemma_render_concat(join(xs2, MorseSymbol::InterWordSpace) + seq![MorseSymbol::InterWordSpace], xs.last(), gap);
        lemma_render_single(MorseSymbol::InterWordSpace, gap);
        assert(join(q, '/') =~= render(join(xs, MorseSymbol::InterWordSpace), gap));
        assert forall|k: int| 0 <= k < q.len() implies trim_spaces(#[trigger] q[k]) == render(xs[k], gap) by {
            if k == n - 1 {
                assert(q2.last() + seq![' '] =~= q2.last().push(' '));
                lemma_trim_push_space(q2.last());
                assert(q2[k] == q2.last());
            } else if k == n {
                lemma_trim_prepend_space(last);
            }
        }
        assert forall|k: int, j: int| 0 <= k < q.len() && 0 <= j < q[k].len() implies is_mark(#[trigger] q[k][j]) && q[k][j] != '/' by {
            if k == n - 1 {
                if j < q2[k].len() {
                    assert(q[k][j] == q2[k][j]);
                }
            } else if k == n {
                if j > 0 {
                    assert(q[k][j] == last[j - 1]);
                }
            } else {
                assert(q[k] == q2[k]);
            }
        }
        q
    }
}

/// Words that read back, joined by inter-word spaces, read back as a whole.
pub proof fn lemma_message_reads_back(xs: Seq<Seq<MorseSymbol>>, gap: WordGap)
    requires
        xs.len() >= 1,
        forall|k: int| 0 <= k < xs.len() ==> reads_back(#[trigger] xs[k], gap),
    ensures
        decode(render(join(xs, MorseSymbol::InterWordSpace), gap)) == join(xs, MorseSymbol::InterWordSpace),
{
    let m = join(xs, MorseSymbol::InterWordSpace);
    let q = match gap {
        WordGap::Slash => {
            lemma_render_join(xs, MorseSymbol::InterWordSpace, '/', gap);
            let q = xs.map_values(|x: Seq<MorseSymbol>| render(x, gap));
            assert forall|k: int, j: int| 0 <= k < q.len() && 0 <= j < q[k].len() implies is_mark(#[trigger] q[k][j]) && q[k][j] != '/' by {
                assert(reads_back(xs[k], gap));
            }
            assert forall|k: int| 0 <= k < q.len() implies trim_spaces(#[trigger] q[k]) == render(xs[k], gap) by {
                assert(reads_back(xs[k], gap));
            }
            q
        },
        WordGap::SpacedSlash => lemma_render_spaced(xs),
    };
    assert(q.len() == xs.len());
    assert(join(q, '/') == render(m, gap));
    assert(forall|k: int, j: int| 0 <= k < q.len() && 0 <= j < q[k].len() ==> is_mark(#[trigger] q[k][j]) && q[k][j] != '/');
    lemma_join_elements(q, '/', |c: char| is_mark(c));
    lemma_marks_fixed(render(m, gap));
    assert forall|k: int| 0 <= k < q.len() implies !(#[trigger] q[k]).contains('/') by {
        if q[k].contains('/') {
            let j = choose|j: int| 0 <= j < q[k].len() && q[k][j] == '/';
        }
    }
    lemma_split_join(q, '/');
    let ws = q.map_values(|w: Seq<char>| word_symbols(w));
    assert(ws =~= xs) by {
        assert forall|k: int| 0 <= k < xs.len() implies ws[k] == xs[k] by {
            assert(reads_back(xs[k], gap));
            let r = render(xs[k], gap);
            assert(trim_spaces(q[k]) == r);
            assert(trim_spaces(r) == r);
        }
    }
}

/// Every entry of the table is made of dots and dashes.
pub proof fn lemma_table_valid(c: char)
    requires
        in_table(c),
    ensures
        valid_letter(pattern_of(c)),
{
}

proof fn lemma_kept_elements(w: Seq<char>, pred: spec_fn(char) -> bool)
    requires
        forall|i: int| 0 <= i < w.len() ==> pred(#[trigger] w[i]),
    ensures
        forall|i: int| 0 <= i < kept_chars(w).len() ==> pred(#[trigger] kept_chars(w)[i]) && is_kept(kept_chars(w)[i]),
    decreases w.len(),
{
    if w.len() > 0 {
        let q = w.drop_last();
        assert forall|i: int| 0 <= i < q.len() implies pred(#[trigger] q[i]) by {
            assert(q[i] == w[i]);
        }
        lemma_kept_elements(q, pred);
        assert(pred(w[w.len() - 1]));
        let k = kept_chars(q);
        if is_kept(w.last()) {
            assert forall|i: int| 0 <= i < k.push(w.last()).len() implies pred(#[trigger] k.push(w.last())[i]) && is_kept(k.push(w.last())[i]) by {
                if i < k.len() {
                    assert(k.push(w.last())[i] == k[i]);
                }
            }
        }
    }
}

/// Text whose every kept character has a table entry encodes to a message
/// that renders to notation which reads back as that same message, with
/// either word gap.
pub proof fn lemma_encode_round_trip(t: Seq<char>, gap: WordGap)
    requires
        !has_unsupported(t),
    ensures
        decode(render(encode_lowered(t), gap)) == encode_lowered(t),
{
    let ws = split(t, ' ');
    lemma_split_nonempty(t, ' ');
    let ok = |c: char| !is_unsupported(c);
    lemma_split_elements(t, ' ', ok);
    let xs = ws.map_values(|w: Seq<char>| text_word_symbols(w));
    assert forall|k: int| 0 <= k < xs.len() implies reads_back(#[trigger] xs[k], gap) by {
        let w = ws[k];
        assert forall|i: int| 0 <= i < w.len() implies ok(#[trigger] w[i]) by {
            assert(ok(ws[k][i]));
        }
        lemma_kept_elements(w, ok);
        let kc = kept_chars(w);
        let pats = kc.map_values(|c: char| pattern_of(c));
        assert forall|j: int| 0 <= j < pats.len() implies valid_letter(#[trigger] pats[j]) && pats[j].len() > 0 by {
            assert(ok(kc[j]) && is_kept(kc[j]));
            lemma_table_valid(kc[j]);
        }
        if pats.len() > 1 {
            assert(pats.last() == pats[pats.len() - 1]);
        }
        lemma_word_reads_back(pats, gap);
        assert(pats.map_values(|p: Seq<char>| letter_symbols(p)) =~= kc.map_values(|c: char| char_symbols(c)));
    }
    lemma_message_reads_back(xs, gap);
}

proof fn lemma_trim_start_shape(x: Seq<char>)
    ensures
        trim_start(x).len() == 0 || trim_start(x)[0] != ' ',
    decreases x.len(),
{
    if x.len() > 0 && x[0] == ' ' {
        lemma_trim_start_shape(x.drop_first());
    }
}

proof fn lemma_trim_end_shape(y: Seq<char>)
    ensures
        trim_end(y).len() <= y.len(),
        trim_end(y) == y.take(trim_end(y).len() as int),
        trim_end(y).len() == 0 || trim_end(y).last() != ' ',
    decreases y.len(),
{
    if y.len() > 0 && y.last() == ' ' {
        lemma_trim_end_shape(y.drop_last());
        let z = trim_end(y.drop_last());
        assert(y.drop_last().take(z.len() as int) =~= y.take(z.len() as int));
    } else {
        assert(y.take(y.len() as int) =~= y);
    }
}

/// A trimmed string neither starts nor ends with a space.
proof fn lemma_trim_shape(w: Seq<char>)
    ensures
        trim_spaces(w).len() > 0 ==> trim_spaces(w)[0] != ' ' && trim_spaces(w).last() != ' ',
{
    lemma_trim_start_shape(w);
    let y = trim_start(w);
    lemma_trim_end_shape(y);
    let z = trim_end(y);
    if z.len() > 0 {
        assert(z[0] == y.take(z.len() as int)[0]);
    }
}

/// A string that does not start with the separator has a first piece, and
/// one that does not end with it a last piece, that is not empty.
proof fn lemma_split_outer<T>(x: Seq<T>, c: T)
    requires
        x.len() > 0,
    ensures
        x[0] != c ==> split(x, c)[0].len() > 0,
        x.last() != c ==> split(x, c).last().len() > 0,
    decreases x.len(),
{
    lemma_split_nonempty(x, c);
    let q = x.drop_last();
    lemma_split_nonempty(q, c);
    let r = split(q, c);
    if x.len() > 1 {
        lemma_split_outer(q, c);
        assert(q[0] == x[0]);
    } else {
        assert(q =~= Seq::<T>::empty());
        assert(r == seq![Seq::<T>::empty()]);
    }
    if x.last() == c {
        assert(split(x, c) == r.push(Seq::empty()));
        assert(split(x, c)[0] == r[0]);
    } else {
        let u = r.update(r.len() - 1, r.last().push(x.last()));
        assert(split(x, c) == u);
        assert(u.last().len() > 0);
        if r.len() > 1 {
            assert(u[0] == r[0]);
        }
    }
}

/// Reading notation, rendering what was read and reading that again gives
/// what was read the first time.
pub proof fn lemma_decode_idempotent(s: Seq<char>, gap: WordGap)
    ensures
        decode(render(decode(s), gap)) == decode(s),
{
    let ws = notation_words(s);
    lemma_marks_are_marks(s);
    lemma_split_nonempty(marks_of(s), '/');
    lemma_split_elements(marks_of(s), '/', |c: char| is_mark(c));
    let xs = ws.map_values(|w: Seq<char>| word_symbols(w));
    assert forall|k: int| 0 <= k < xs.len() implies reads_back(#[trigger] xs[k], gap) by {
        let w = ws[k];
        assert forall|i: int| 0 <= i < w.len() implies is_mark(#[trigger] w[i]) && w[i] != '/' by {
            assert(is_mark(ws[k][i]));
        }
        lemma_word_letters_valid(w);
        let t = trim_spaces(w);
        let pats = split(t, ' ');
        lemma_split_nonempty(t, ' ');
        assert forall|j: int| 0 <= j < pats.len() implies valid_letter(#[trigger] pats[j]) by {
            assert(valid_letter(word_letters(w)[j]));
        }
        if t.len() > 0 {
            lemma_trim_shape(w);
            assert(t[t.len() - 1] == t.last());
            lemma_split_outer(t, ' ');
        } else {
            assert(t =~= Seq::<char>::empty());
            assert(pats == seq![Seq::<char>::empty()]);
        }
        lemma_word_reads_back(pats, gap);
    }
    lemma_message_reads_back(xs, gap);
}

/// The table's keys are exactly the characters that the filter keeps once
/// the text is lower case: ASCII lower-case letters, digits and the
/// punctuation marks.
pub proof fn lemma_table_keys(c: char)
    ensures
        in_table(c) <==> is_kept(c) && !is_ascii_upper(c),
{
}

/// Text made only of lower-case letters, digits, the punctuation marks and
/// spaces encodes to a message whose notation reads back as that message.
pub proof fn lemma_alphabet_round_trip(t: Seq<char>, gap: WordGap)
    requires
        forall|i: int|
            0 <= i < t.len() ==> #[trigger] t[i] == ' ' || is_ascii_lower(t[i]) || is_ascii_digit(t[i])
                || is_punctuation(t[i]),
    ensures
        !has_unsupported(t),
        decode(render(encode_lowered(t), gap)) == encode_lowered(t),
{
    assert forall|i: int| 0 <= i < t.len() implies !is_unsupported(#[trigger] t[i]) by {
        lemma_table_keys(t[i]);
    }
    lemma_encode_round_trip(t, gap);
}

} // verus!
