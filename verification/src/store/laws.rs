//! What holds of every store: text that was written reads back.
use super::{
    bindings, bound, distinct_names, dropped, lemma_position_of, parse_line, parsed, position_of,
    put, separator, serialized,
};
use crate::text::{first_occurrence, is_glyph, occurs_at, pieces};
use vstd::prelude::*;

verus! {

/// A text that the format can keep as a name or a value: one without a
/// double quote and without a line feed.
pub open spec fn plain(text: Seq<char>) -> bool {
    forall|i: int| 0 <= i < text.len() ==> text[i] != '"' && text[i] != '\n'
}

/// Every name and every value of the list is plain.
pub open spec fn all_plain(pairs: Seq<(Seq<char>, Seq<char>)>) -> bool {
    forall|i: int|
        0 <= i < pairs.len() ==> plain((#[trigger] pairs[i]).0) && plain(pairs[i].1)
}

/// An occurrence with none before it is the first.
pub proof fn lemma_first_occurrence_is(text: Seq<char>, pattern: Seq<char>, from: int, at: int)
    requires
        0 <= from <= at,
        occurs_at(text, pattern, at),
        forall|j: int| from <= j < at ==> !occurs_at(text, pattern, j),
    ensures
        first_occurrence(text, pattern, from) == Some(at),
    decreases at - from,
{
    if from < at {
        lemma_first_occurrence_is(text, pattern, from + 1, at);
    }
}

/// Where the pattern stands nowhere, there is no first occurrence.
pub proof fn lemma_no_occurrence(text: Seq<char>, pattern: Seq<char>, from: int)
    requires
        0 <= from,
        forall|j: int| from <= j ==> !occurs_at(text, pattern, j),
    ensures
        first_occurrence(text, pattern, from) is None,
    decreases text.len() + 1 - from,
{
    if from + pattern.len() <= text.len() {
        lemma_no_occurrence(text, pattern, from + 1);
    }
}

/// A line made of a plain name, the separator and a plain value binds that
/// name to that value.
pub proof fn lemma_parse_written_line(name: Seq<char>, value: Seq<char>)
    requires
        plain(name),
        plain(value),
    ensures
        parse_line(name + separator() + value) == Some((name, value)),
{
    let line = name + separator() + value;
    let first = name.len() as int;
    let start = first + 3;
    assert(separator().len() == 3);
    assert(line.subrange(first, first + 3) =~= separator());
    assert forall|j: int| 0 <= j < first implies !occurs_at(line, separator(), j) by {
        if occurs_at(line, separator(), j) {
            assert(line.subrange(j, j + 3)[0] == separator()[0]);
            assert(line[j] == name[j]);
        }
    }
    lemma_first_occurrence_is(line, separator(), 0, first);
    assert forall|j: int| start <= j implies !occurs_at(line, separator(), j) by {
        if occurs_at(line, separator(), j) {
            assert(line.subrange(j, j + 3)[0] == separator()[0]);
            assert(line[j] == value[j - start]);
        }
    }
    lemma_no_occurrence(line, separator(), start);
    assert(line.subrange(0, first) =~= name);
    assert(line.subrange(start, line.len() as int) =~= value);
}

/// Text without a line feed, added behind a text, goes on its last line.
pub proof fn lemma_pieces_grow(text: Seq<char>, more: Seq<char>)
    requires
        forall|i: int| 0 <= i < more.len() ==> more[i] != '\n',
    ensures
        pieces(text + more, is_glyph('\n')) == pieces(text, is_glyph('\n')).drop_last().push(
            pieces(text, is_glyph('\n')).last() + more,
        ),
    decreases more.len(),
{
    let lines = pieces(text, is_glyph('\n'));
    crate::text::lemma_pieces_len(text, is_glyph('\n'));
    if more.len() == 0 {
        assert(text + more =~= text);
        assert(lines.last() + more =~= lines.last());
        assert(lines.drop_last().push(lines.last()) =~= lines);
    } else {
        let shorter = more.drop_last();
        lemma_pieces_grow(text, shorter);
        assert((text + more).drop_last() =~= text + shorter);
        assert((text + more).last() == more.last());
        let before = pieces(text + shorter, is_glyph('\n'));
        assert(before.drop_last() =~= lines.drop_last());
        assert(before.last().push(more.last()) =~= lines.last() + more);
    }
}

/// The lines that keep the bindings.
pub open spec fn written_lines(pairs: Seq<(Seq<char>, Seq<char>)>) -> Seq<Seq<char>> {
    Seq::new(pairs.len(), |i: int| pairs[i].0 + separator() + pairs[i].1)
}

/// The text that keeps plain bindings has one line for each, and an empty
/// piece behind the last line feed.
pub proof fn lemma_lines_of_serialized(pairs: Seq<(Seq<char>, Seq<char>)>)
    requires
        all_plain(pairs),
    ensures
        pieces(serialized(pairs), is_glyph('\n')) == written_lines(pairs).push(Seq::empty()),
    decreases pairs.len(),
{
    if pairs.len() == 0 {
        assert(written_lines(pairs).push(Seq::empty()) =~= seq![Seq::<char>::empty()]);
    } else {
        let rest = pairs.drop_last();
        let last = pairs.last();
        let line = last.0 + separator() + last.1;
        assert(all_plain(rest)) by {
            assert forall|i: int| 0 <= i < rest.len() implies plain((#[trigger] rest[i]).0)
                && plain(rest[i].1) by {
                assert(rest[i] == pairs[i]);
            }
        }
        lemma_lines_of_serialized(rest);
        assert(plain(last.0) && plain(last.1));
        assert forall|i: int| 0 <= i < line.len() implies line[i] != '\n' by {
            if i < last.0.len() {
                assert(line[i] == last.0[i]);
            } else if i < last.0.len() + 3 {
                assert(line[i] == separator()[i - last.0.len()]);
            } else {
                assert(line[i] == last.1[i - last.0.len() - 3]);
            }
        }
        let text = serialized(rest);
        lemma_pieces_grow(text, line);
        let upto = text + line;
        let all = upto.push('\n');
        assert(serialized(pairs) =~= all);
        assert(all.drop_last() =~= upto);
        let before = pieces(text, is_glyph('\n'));
        assert(before.drop_last() =~= written_lines(rest));
        assert(before.last() + line =~= line);
        assert(written_lines(rest).push(line) =~= written_lines(pairs));
    }
}

/// Lines that were written for bindings with distinct plain names bind the
/// same names to the same values, in the same order.
pub proof fn lemma_bindings_of_written_lines(pairs: Seq<(Seq<char>, Seq<char>)>)
    requires
        distinct_names(pairs),
        all_plain(pairs),
    ensures
        bindings(written_lines(pairs)) == pairs,
    decreases pairs.len(),
{
    if pairs.len() == 0 {
        assert(bindings(written_lines(pairs)) =~= pairs);
    } else {
        let rest = pairs.drop_last();
        let last = pairs.last();
        assert(distinct_names(rest) && all_plain(rest)) by {
            assert forall|i: int| 0 <= i < rest.len() implies plain((#[trigger] rest[i]).0)
                && plain(rest[i].1) by {
                assert(rest[i] == pairs[i]);
            }
            assert forall|i: int, j: int| 0 <= i < j < rest.len() implies rest[i].0
                != rest[j].0 by {
                assert(rest[i] == pairs[i]);
                assert(rest[j] == pairs[j]);
            }
        }
        lemma_bindings_of_written_lines(rest);
        assert(written_lines(pairs).drop_last() =~= written_lines(rest));
        assert(written_lines(pairs).last() == last.0 + separator() + last.1);
        assert(plain(last.0) && plain(last.1));
        lemma_parse_written_line(last.0, last.1);
        lemma_position_of(rest, last.0);
        assert(position_of(rest, last.0) == rest.len()) by {
            let at = position_of(rest, last.0);
            if at < rest.len() {
                assert(rest[at] == pairs[at]);
            }
        }
        assert(put(rest, last.0, last.1) =~= pairs);
    }
}

/// Text that was written reads back: where no name is bound twice, and no
/// name and no value holds a double quote or a line feed, the text that
/// keeps the bindings holds exactly these bindings, in their order.
pub proof fn lemma_written_text_reads_back(pairs: Seq<(Seq<char>, Seq<char>)>)
    requires
        distinct_names(pairs),
        all_plain(pairs),
    ensures
        parsed(serialized(pairs)) == pairs,
{
    lemma_lines_of_serialized(pairs);
    lemma_bindings_of_written_lines(pairs);
    let lines = written_lines(pairs).push(Seq::empty());
    assert(lines.drop_last() =~= written_lines(pairs));
    assert(parse_line(Seq::<char>::empty()) is None);
}

/// A name that was bound is found with its value, and every other name is
/// as it was.
pub proof fn lemma_put_then_find(
    pairs: Seq<(Seq<char>, Seq<char>)>,
    name: Seq<char>,
    value: Seq<char>,
    other: Seq<char>,
)
    requires
        distinct_names(pairs),
    ensures
        bound(put(pairs, name, value)).contains_key(name),
        bound(put(pairs, name, value))[name] == value,
        other != name ==> (bound(put(pairs, name, value)).contains_key(other) <==> bound(
            pairs,
        ).contains_key(other)),
        other != name && bound(pairs).contains_key(other) ==> bound(put(pairs, name, value))[other]
            == bound(pairs)[other],
{
    super::lemma_put(pairs, name, value);
}

/// A name that was dropped is bound no more, and every other name is as it
/// was.
pub proof fn lemma_dropped_then_find(
    pairs: Seq<(Seq<char>, Seq<char>)>,
    name: Seq<char>,
    other: Seq<char>,
)
    requires
        distinct_names(pairs),
    ensures
        !bound(dropped(pairs, name)).contains_key(name),
        other != name ==> (bound(dropped(pairs, name)).contains_key(other) <==> bound(
            pairs,
        ).contains_key(other)),
        other != name && bound(pairs).contains_key(other) ==> bound(dropped(pairs, name))[other]
            == bound(pairs)[other],
{
    super::lemma_dropped(pairs, name);
}

} // verus!
