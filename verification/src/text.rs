//! Text as lists of characters: building it, and finding one text in another.
use vstd::prelude::*;
use vstd::std_specs::iter::IteratorSpec;
use vstd::string::*;

verus! {

/// `String::push` of the standard library: it adds the character to the end
/// of the string and leaves the rest as it was. This is stated, not proved.
pub assume_specification[ String::push ](s: &mut String, ch: char)
    ensures
        final(s)@ == old(s)@.push(ch),
;

/// `count` copies of `glyph`.
pub open spec fn repeated(glyph: char, count: nat) -> Seq<char> {
    Seq::new(count, |i: int| glyph)
}

/// Adds `count` copies of `glyph` to the end of `line`.
pub fn push_repeated(line: &mut Vec<char>, glyph: char, count: usize)
    ensures
        final(line)@ == old(line)@ + repeated(glyph, count as nat),
{
    let mut done: usize = 0;
    while done < count
        invariant
            done <= count,
            line@ == old(line)@ + repeated(glyph, done as nat),
        decreases count - done,
    {
        line.push(glyph);
        done += 1;
        assert(line@ =~= old(line)@ + repeated(glyph, done as nat));
    }
    assert(line@ =~= old(line)@ + repeated(glyph, count as nat));
}

/// Adds the characters of `text` to the end of `line`.
pub fn push_text(line: &mut Vec<char>, text: &str)
    ensures
        final(line)@ == old(line)@ + text@,
{
    broadcast use {axiom_spec_iter, next_postcondition};

    let mut rest = text.chars();
    loop
        invariant
            rest.obeys_prophetic_iter_laws(),
            rest.decrease() is Some,
            line@ + rest.remaining() == old(line)@ + text@,
        ensures
            line@ == old(line)@ + text@,
        decreases rest.decrease()->0,
    {
        let ghost before = rest;
        match rest.next() {
            Some(glyph) => {
                line.push(glyph);
                assert(line@ + rest.remaining() =~= old(line)@ + text@);
            },
            None => {
                assert(line@ =~= line@ + before.remaining());
                break ;
            },
        }
    }
}

/// Adds `glyphs` to the end of `line`.
pub fn push_glyphs(line: &mut Vec<char>, glyphs: &Vec<char>)
    ensures
        final(line)@ == old(line)@ + glyphs@,
{
    let mut at: usize = 0;
    while at < glyphs.len()
        invariant
            at <= glyphs.len(),
            line@ == old(line)@ + glyphs@.take(at as int),
        decreases glyphs.len() - at,
    {
        line.push(glyphs[at]);
        at += 1;
        assert(line@ =~= old(line)@ + glyphs@.take(at as int));
    }
    assert(glyphs@.take(glyphs.len() as int) =~= glyphs@);
}

/// The characters of `text`, in order.
pub fn glyphs_of(text: &str) -> (glyphs: Vec<char>)
    ensures
        glyphs@ == text@,
{
    let mut glyphs: Vec<char> = Vec::new();
    push_text(&mut glyphs, text);
    assert(glyphs@ =~= text@);
    glyphs
}

/// The string made of `glyphs`, in order.
pub fn string_of(glyphs: &Vec<char>) -> (text: String)
    ensures
        text@ == glyphs@,
{
    let mut text = String::new();
    let mut at: usize = 0;
    while at < glyphs.len()
        invariant
            at <= glyphs.len(),
            text@ == glyphs@.take(at as int),
        decreases glyphs.len() - at,
    {
        text.push(glyphs[at]);
        at += 1;
        assert(text@ =~= glyphs@.take(at as int));
    }
    assert(glyphs@.take(glyphs.len() as int) =~= glyphs@);
    text
}

/// The characters of `glyphs` from offset `from` up to offset `to`, as a
/// string.
pub fn string_between(glyphs: &Vec<char>, from: usize, to: usize) -> (text: String)
    requires
        from <= to <= glyphs.len(),
    ensures
        text@ == glyphs@.subrange(from as int, to as int),
{
    let mut text = String::new();
    let mut at: usize = from;
    while at < to
        invariant
            from <= at <= to,
            to <= glyphs.len(),
            text@ == glyphs@.subrange(from as int, at as int),
        decreases to - at,
    {
        text.push(glyphs[at]);
        at += 1;
        assert(text@ =~= glyphs@.subrange(from as int, at as int));
    }
    text
}

/// Whether `pattern` stands in `text` at offset `at`.
pub open spec fn occurs_at(text: Seq<char>, pattern: Seq<char>, at: int) -> bool {
    &&& 0 <= at
    &&& at + pattern.len() <= text.len()
    &&& text.subrange(at, at + pattern.len()) == pattern
}

/// The first offset, from `from` on, at which `pattern` stands in `text`.
pub open spec fn first_occurrence(text: Seq<char>, pattern: Seq<char>, from: int) -> Option<int>
    decreases text.len() + 1 - from,
{
    if from < 0 || from + pattern.len() > text.len() {
        None
    } else if occurs_at(text, pattern, from) {
        Some(from)
    } else {
        first_occurrence(text, pattern, from + 1)
    }
}

/// The first occurrence is an occurrence, and there is none before it.
pub proof fn lemma_first_occurrence(text: Seq<char>, pattern: Seq<char>, from: int)
    requires
        0 <= from,
    ensures
        match first_occurrence(text, pattern, from) {
            Some(at) => from <= at && occurs_at(text, pattern, at) && forall|j: int|
                from <= j < at ==> !occurs_at(text, pattern, j),
            None => forall|j: int| from <= j ==> !occurs_at(text, pattern, j),
        },
    decreases text.len() + 1 - from,
{
    if from + pattern.len() <= text.len() && !occurs_at(text, pattern, from) {
        lemma_first_occurrence(text, pattern, from + 1);
    }
}

/// Whether `pattern` stands in `text` at offset `at`.
pub fn stands_at(text: &Vec<char>, pattern: &Vec<char>, at: usize) -> (found: bool)
    ensures
        found == occurs_at(text@, pattern@, at as int),
{
    if at > text.len() || pattern.len() > text.len() - at {
        return false;
    }
    let mut k: usize = 0;
    while k < pattern.len()
        invariant
            at <= text.len(),
            pattern.len() <= text.len() - at,
            k <= pattern.len(),
            forall|j: int| 0 <= j < k ==> text@[at + j] == pattern@[j],
        decreases pattern.len() - k,
    {
        if text[at + k] != pattern[k] {
            assert(text@.subrange(at as int, at + pattern@.len())[k as int] != pattern@[k as int]);
            return false;
        }
        k += 1;
    }
    assert(text@.subrange(at as int, at + pattern@.len()) =~= pattern@);
    true
}

/// The first offset, from `from` on, at which `pattern` stands in `text`.
pub fn find(text: &Vec<char>, pattern: &Vec<char>, from: usize) -> (at: Option<usize>)
    ensures
        match at {
            Some(i) => first_occurrence(text@, pattern@, from as int) == Some(i as int),
            None => first_occurrence(text@, pattern@, from as int) is None,
        },
{
    if from > text.len() || pattern.len() > text.len() - from {
        return None;
    }
    let last: usize = text.len() - pattern.len();
    let mut i: usize = from;
    while i < last
        invariant
            from <= i <= last,
            pattern.len() <= text.len(),
            last == text.len() - pattern.len(),
            first_occurrence(text@, pattern@, from as int) == first_occurrence(
                text@,
                pattern@,
                i as int,
            ),
        decreases last - i,
    {
        if stands_at(text, pattern, i) {
            return Some(i);
        }
        i += 1;
    }
    if stands_at(text, pattern, last) {
        Some(last)
    } else {
        assert(first_occurrence(text@, pattern@, last + 1) is None);
        None
    }
}

/// The views of a list of glyph lists.
pub open spec fn texts(parts: Seq<Vec<char>>) -> Seq<Seq<char>> {
    Seq::new(parts.len(), |i: int| parts[i]@)
}

/// The views of a list of strings.
pub open spec fn strings(parts: Seq<String>) -> Seq<Seq<char>> {
    Seq::new(parts.len(), |i: int| parts[i]@)
}

/// The test that holds of `delimiter` alone.
pub open spec fn is_glyph(delimiter: char) -> spec_fn(char) -> bool {
    |glyph: char| glyph == delimiter
}

/// The pieces of a text between the characters at which it breaks. A text
/// without a break is one piece; two breaks in a row have an empty piece
/// between them, and so has a break at either end beside it.
pub open spec fn pieces(text: Seq<char>, breaks: spec_fn(char) -> bool) -> Seq<Seq<char>>
    decreases text.len(),
{
    if text.len() == 0 {
        seq![Seq::empty()]
    } else {
        let before = pieces(text.drop_last(), breaks);
        if breaks(text.last()) {
            before.push(Seq::empty())
        } else {
            before.drop_last().push(before.last().push(text.last()))
        }
    }
}

/// There is always a piece, if only an empty one.
pub proof fn lemma_pieces_len(text: Seq<char>, breaks: spec_fn(char) -> bool)
    ensures
        pieces(text, breaks).len() >= 1,
    decreases text.len(),
{
    if text.len() > 0 {
        lemma_pieces_len(text.drop_last(), breaks);
    }
}

/// The pieces of `glyphs` between the occurrences of `delimiter`.
pub fn split_at(glyphs: &Vec<char>, delimiter: char) -> (parts: Vec<Vec<char>>)
    ensures
        texts(parts@) == pieces(glyphs@, is_glyph(delimiter)),
{
    let mut parts: Vec<Vec<char>> = Vec::new();
    let mut piece: Vec<char> = Vec::new();
    let mut i: usize = 0;
    assert(glyphs@.take(0) =~= Seq::<char>::empty());
    assert(pieces(glyphs@.take(0), is_glyph(delimiter)) =~= texts(parts@).push(piece@));
    while i < glyphs.len()
        invariant
            i <= glyphs.len(),
            pieces(glyphs@.take(i as int), is_glyph(delimiter)) == texts(parts@).push(piece@),
        decreases glyphs.len() - i,
    {
        let glyph: char = glyphs[i];
        let ghost done = texts(parts@);
        proof {
            let upto = glyphs@.take(i + 1);
            assert(upto.drop_last() =~= glyphs@.take(i as int));
            assert(upto.last() == glyph);
            assert(done.push(piece@).drop_last() =~= done);
        }
        if glyph == delimiter {
            parts.push(piece);
            assert(texts(parts@) =~= done.push(piece@));
            piece = Vec::new();
        } else {
            piece.push(glyph);
        }
        i += 1;
    }
    assert(glyphs@.take(i as int) =~= glyphs@);
    let ghost done = texts(parts@);
    parts.push(piece);
    assert(texts(parts@) =~= done.push(piece@));
    parts
}

/// The words with one blank between any two of them.
pub open spec fn joined(words: Seq<Seq<char>>) -> Seq<char>
    decreases words.len(),
{
    if words.len() == 0 {
        Seq::empty()
    } else if words.len() == 1 {
        words[0]
    } else {
        joined(words.drop_last()) + seq![' '] + words.last()
    }
}

/// The words with one blank between any two of them.
pub fn join_words(words: &Vec<String>) -> (text: String)
    ensures
        text@ == joined(strings(words@)),
{
    let ghost all = strings(words@);
    let mut text = String::new();
    let mut i: usize = 0;
    assert(all.take(0) =~= Seq::<Seq<char>>::empty());
    while i < words.len()
        invariant
            i <= words.len(),
            all == strings(words@),
            text@ == joined(all.take(i as int)),
        decreases words.len() - i,
    {
        if i > 0 {
            text.append(" ");
        }
        text.append(words[i].as_str());
        proof {
            reveal_strlit(" ");
            assert(" "@ =~= seq![' ']);
            let upto = all.take(i + 1);
            assert(upto.drop_last() =~= all.take(i as int));
            assert(upto.last() == words@[i as int]@);
            if i == 0 {
                assert(text@ =~= upto[0]);
            }
        }
        i += 1;
    }
    assert(all.take(i as int) =~= all);
    text
}

} // verus!
