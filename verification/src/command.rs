//! Command lines kept as values: several commands in one value, each a list
//! of words in which the caller's arguments take the place of markers.
use crate::text::{
    glyphs_of, is_glyph, joined, occurs_at, pieces, push_glyphs, split_at, stands_at, string_of,
    strings, texts,
};
use vstd::prelude::*;

verus! {

/// Whether a character has the Unicode property White_Space. This names what
/// `char::is_whitespace` of the standard library returns.
pub uninterp spec fn white_space(glyph: char) -> bool;

/// `char::is_whitespace` of the standard library decides by the character
/// alone. This is stated, not proved.
pub assume_specification[ char::is_whitespace ](glyph: char) -> (blank: bool)
    ensures
        blank == white_space(glyph),
;

/// The test that holds of the blank characters.
pub open spec fn is_blank() -> spec_fn(char) -> bool {
    |glyph: char| white_space(glyph)
}

/// The pieces that are not empty, in their order.
pub open spec fn nonempty(parts: Seq<Seq<char>>) -> Seq<Seq<char>>
    decreases parts.len(),
{
    if parts.len() == 0 {
        Seq::empty()
    } else if parts.last().len() == 0 {
        nonempty(parts.drop_last())
    } else {
        nonempty(parts.drop_last()).push(parts.last())
    }
}

/// The words of a text: its pieces between blank characters, but for the
/// empty ones.
pub open spec fn words(text: Seq<char>) -> Seq<Seq<char>> {
    nonempty(pieces(text, is_blank()))
}

/// The text with every occurrence of `pattern` replaced by `with`, read from
/// left to right: an occurrence that begins inside an earlier one does not
/// count. An empty pattern occurs nowhere.
pub open spec fn replaced(text: Seq<char>, pattern: Seq<char>, with: Seq<char>) -> Seq<char>
    decreases text.len(),
{
    if pattern.len() == 0 || text.len() == 0 {
        text
    } else if occurs_at(text, pattern, 0) {
        with + replaced(text.skip(pattern.len() as int), pattern, with)
    } else {
        seq![text[0]] + replaced(text.skip(1), pattern, with)
    }
}

/// The character for one decimal digit.
pub open spec fn digit(d: nat) -> char {
    if d == 0 {
        '0'
    } else if d == 1 {
        '1'
    } else if d == 2 {
        '2'
    } else if d == 3 {
        '3'
    } else if d == 4 {
        '4'
    } else if d == 5 {
        '5'
    } else if d == 6 {
        '6'
    } else if d == 7 {
        '7'
    } else if d == 8 {
        '8'
    } else {
        '9'
    }
}

/// A number in decimal digits, without leading zeros.
pub open spec fn decimal(n: nat) -> Seq<char>
    decreases n,
{
    if n < 10 {
        seq![digit(n)]
    } else {
        decimal(n / 10).push(digit(n % 10))
    }
}

/// The marker for argument number `i`: a dollar sign and the number.
pub open spec fn marker(i: nat) -> Seq<char> {
    seq!['$'] + decimal(i)
}

/// The marker for all arguments together.
pub open spec fn marker_for_all() -> Seq<char> {
    seq!['$', '*']
}

/// A word after the markers of the first `n` arguments have been replaced,
/// one argument after the other.
pub open spec fn substituted(word: Seq<char>, args: Seq<Seq<char>>, n: int) -> Seq<char>
    decreases n,
{
    if n <= 0 {
        word
    } else {
        replaced(substituted(word, args, n - 1), marker((n - 1) as nat), args[n - 1])
    }
}

/// A word with the arguments in the place of its markers: first each
/// numbered marker, from the lowest number up, then the marker for all
/// arguments, which stands for the arguments with one blank between them.
pub open spec fn expanded(word: Seq<char>, args: Seq<Seq<char>>) -> Seq<char> {
    replaced(substituted(word, args, args.len() as int), marker_for_all(), joined(args))
}

/// The words of one command as they are run: with the arguments in the
/// place of the markers where arguments are given, unchanged where not.
pub open spec fn command_words(command: Seq<char>, args: Option<Seq<Seq<char>>>) -> Seq<
    Seq<char>,
> {
    let plain = words(command);
    match args {
        Some(given) => Seq::new(plain.len(), |w: int| expanded(plain[w], given)),
        None => plain,
    }
}

/// The commands that a value holds, the pieces between its `&`, each as the
/// words that are run.
pub open spec fn commands(value: Seq<char>, args: Option<Seq<Seq<char>>>) -> Seq<
    Seq<Seq<char>>,
> {
    let parts = pieces(value, is_glyph('&'));
    Seq::new(parts.len(), |c: int| command_words(parts[c], args))
}

/// The words of `glyphs`.
pub fn split_words(glyphs: &Vec<char>) -> (parts: Vec<Vec<char>>)
    ensures
        texts(parts@) == words(glyphs@),
{
    let mut parts: Vec<Vec<char>> = Vec::new();
    let mut piece: Vec<char> = Vec::new();
    let ghost mut seen: Seq<Seq<char>> = Seq::empty();
    let mut i: usize = 0;
    assert(glyphs@.take(0) =~= Seq::<char>::empty());
    assert(pieces(glyphs@.take(0), is_blank()) =~= seen.push(piece@));
    assert(texts(parts@) =~= nonempty(seen));
    while i < glyphs.len()
        invariant
            i <= glyphs.len(),
            pieces(glyphs@.take(i as int), is_blank()) == seen.push(piece@),
            texts(parts@) == nonempty(seen),
        decreases glyphs.len() - i,
    {
        let glyph: char = glyphs[i];
        let ghost done = texts(parts@);
        proof {
            let upto = glyphs@.take(i + 1);
            assert(upto.drop_last() =~= glyphs@.take(i as int));
            assert(upto.last() == glyph);
            assert(seen.push(piece@).drop_last() =~= seen);
        }
        if glyph.is_whitespace() {
            if piece.len() > 0 {
                parts.push(piece);
                assert(texts(parts@) =~= done.push(piece@));
            }
            proof {
                seen = seen.push(piece@);
            }
            piece = Vec::new();
        } else {
            piece.push(glyph);
        }
        i += 1;
    }
    assert(glyphs@.take(i as int) =~= glyphs@);
    let ghost done = texts(parts@);
    assert(seen.push(piece@).drop_last() =~= seen);
    if piece.len() > 0 {
        parts.push(piece);
        assert(texts(parts@) =~= done.push(piece@));
    }
    parts
}

/// `text` with every occurrence of `pattern` replaced by `with`.
pub fn replace(text: &Vec<char>, pattern: &Vec<char>, with: &Vec<char>) -> (out: Vec<char>)
    ensures
        out@ == replaced(text@, pattern@, with@),
{
    let mut out: Vec<char> = Vec::new();
    if pattern.len() == 0 {
        push_glyphs(&mut out, text);
        assert(out@ =~= text@);
        return out;
    }
    let mut at: usize = 0;
    assert(text@.skip(0) =~= text@);
    assert(out@ + replaced(text@, pattern@, with@) =~= replaced(text@, pattern@, with@));
    while at < text.len()
        invariant
            at <= text.len(),
            pattern.len() > 0,
            replaced(text@, pattern@, with@) == out@ + replaced(
                text@.skip(at as int),
                pattern@,
                with@,
            ),
        decreases text.len() - at,
    {
        let ghost rest = text@.skip(at as int);
        let ghost before = out@;
        let found = stands_at(text, pattern, at);
        proof {
            if at + pattern@.len() <= text@.len() {
                assert(rest.subrange(0, pattern@.len() as int) =~= text@.subrange(
                    at as int,
                    at + pattern@.len(),
                ));
            }
            assert(found == occurs_at(rest, pattern@, 0));
        }
        if found {
            push_glyphs(&mut out, with);
            assert(rest.skip(pattern@.len() as int) =~= text@.skip(at + pattern@.len()));
            at += pattern.len();
            assert(before + (with@ + replaced(text@.skip(at as int), pattern@, with@)) =~= out@
                + replaced(text@.skip(at as int), pattern@, with@));
        } else {
            out.push(text[at]);
            assert(rest.skip(1) =~= text@.skip(at + 1));
            at += 1;
            assert(before + (seq![rest[0]] + replaced(text@.skip(at as int), pattern@, with@))
                =~= out@ + replaced(text@.skip(at as int), pattern@, with@));
        }
    }
    assert(text@.skip(at as int) =~= Seq::<char>::empty());
    assert(out@ + Seq::<char>::empty() =~= out@);
    out
}

/// The character for the decimal digit `d`.
pub fn digit_glyph(d: usize) -> (glyph: char)
    requires
        d < 10,
    ensures
        glyph == digit(d as nat),
{
    if d == 0 {
        '0'
    } else if d == 1 {
        '1'
    } else if d == 2 {
        '2'
    } else if d == 3 {
        '3'
    } else if d == 4 {
        '4'
    } else if d == 5 {
        '5'
    } else if d == 6 {
        '6'
    } else if d == 7 {
        '7'
    } else if d == 8 {
        '8'
    } else {
        '9'
    }
}

/// Adds the decimal digits of `n` to the end of `out`.
pub fn push_decimal(out: &mut Vec<char>, n: usize)
    ensures
        final(out)@ == old(out)@ + decimal(n as nat),
    decreases n,
{
    if n < 10 {
        out.push(digit_glyph(n));
        assert(out@ =~= old(out)@ + decimal(n as nat));
    } else {
        push_decimal(out, n / 10);
        out.push(digit_glyph(n % 10));
        assert(out@ =~= old(out)@ + decimal(n as nat));
    }
}

/// `word` with the arguments in the place of its markers. `all` is the
/// arguments with one blank between any two of them.
pub fn expand_word(word: &Vec<char>, args: &Vec<String>, all: &Vec<char>) -> (out: Vec<char>)
    requires
        all@ == joined(strings(args@)),
    ensures
        out@ == expanded(word@, strings(args@)),
{
    let ghost given = strings(args@);
    let mut current: Vec<char> = Vec::new();
    push_glyphs(&mut current, word);
    assert(current@ =~= word@);
    let mut i: usize = 0;
    while i < args.len()
        invariant
            i <= args.len(),
            given == strings(args@),
            current@ == substituted(word@, given, i as int),
        decreases args.len() - i,
    {
        let mut token: Vec<char> = Vec::new();
        token.push('$');
        push_decimal(&mut token, i);
        assert(token@ =~= marker(i as nat));
        let value = glyphs_of(args[i].as_str());
        current = replace(&current, &token, &value);
        i += 1;
    }
    let mut token: Vec<char> = Vec::new();
    token.push('$');
    token.push('*');
    assert(token@ =~= marker_for_all());
    replace(&current, &token, all)
}

/// The commands that `value` holds, each as the words that are run. The
/// commands are the pieces of the value between its `&`; the words of a
/// command are its pieces between blanks. Where arguments are given, every
/// word has them in the place of its markers.
pub fn command_lines(value: &str, args: &Option<Vec<String>>) -> (lines: Vec<Vec<String>>)
    ensures
        word_lists(lines@) == commands(value@, given(*args)),
{
    let glyphs = glyphs_of(value);
    let parts = split_at(&glyphs, '&');
    let all: Vec<char> = match args {
        Some(list) => glyphs_of(crate::text::join_words(list).as_str()),
        None => Vec::new(),
    };
    let mut lines: Vec<Vec<String>> = Vec::new();
    let mut c: usize = 0;
    while c < parts.len()
        invariant
            c <= parts.len(),
            texts(parts@) == pieces(value@, is_glyph('&')),
            args is Some ==> all@ == joined(strings(args->0@)),
            lines@.len() == c,
            forall|k: int|
                0 <= k < c ==> strings((#[trigger] lines@[k])@) == command_words(
                    texts(parts@)[k],
                    given(*args),
                ),
        decreases parts.len() - c,
    {
        let plain = split_words(&parts[c]);
        let mut line: Vec<String> = Vec::new();
        let mut w: usize = 0;
        while w < plain.len()
            invariant
                w <= plain.len(),
                texts(plain@) == words(parts@[c as int]@),
                args is Some ==> all@ == joined(strings(args->0@)),
                line@.len() == w,
                forall|k: int|
                    0 <= k < w ==> (#[trigger] line@[k])@ == command_words(
                        parts@[c as int]@,
                        given(*args),
                    )[k],
            decreases plain.len() - w,
        {
            assert(texts(plain@)[w as int] == plain@[w as int]@);
            let word: String = match args {
                Some(list) => {
                    let out = expand_word(&plain[w], list, &all);
                    string_of(&out)
                },
                None => string_of(&plain[w]),
            };
            line.push(word);
            w += 1;
        }
        assert(strings(line@) =~= command_words(texts(parts@)[c as int], given(*args)));
        lines.push(line);
        c += 1;
    }
    assert(word_lists(lines@) =~= commands(value@, given(*args)));
    lines
}

/// The words of every command as plain values.
pub open spec fn word_lists(lines: Seq<Vec<String>>) -> Seq<Seq<Seq<char>>> {
    Seq::new(lines.len(), |c: int| strings(lines[c]@))
}

/// The arguments as plain values.
pub open spec fn given(args: Option<Vec<String>>) -> Option<Seq<Seq<char>>> {
    match args {
        Some(list) => Some(strings(list@)),
        None => None,
    }
}

} // verus!
