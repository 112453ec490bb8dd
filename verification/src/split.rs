//! Splitting a text at a separator.

use vstd::prelude::*;

verus! {

/// Position of the first `separator` in `text` at or after `from`; the
/// length of `text` if there is none.
pub open spec fn find_from(text: Seq<char>, separator: char, from: int) -> int
    decreases text.len() - from,
{
    if from >= text.len() {
        text.len() as int
    } else if from >= 0 && text[from] == separator {
        from
    } else {
        find_from(text, separator, from + 1)
    }
}

/// The pieces of `text` between the occurrences of `separator`. A text
/// without the separator is one piece; pieces may be empty.
pub open spec fn split(text: Seq<char>, separator: char) -> Seq<Seq<char>>
    decreases text.len(),
{
    let at = find_from(text, separator, 0);
    if 0 <= at < text.len() {
        seq![text.subrange(0, at)] + split(text.subrange(at + 1, text.len() as int), separator)
    } else {
        seq![text]
    }
}

/// The pieces written one after another, with `separator` between them.
pub open spec fn join(pieces: Seq<Seq<char>>, separator: char) -> Seq<char>
    decreases pieces.len(),
{
    if pieces.len() == 0 {
        Seq::empty()
    } else if pieces.len() == 1 {
        pieces[0]
    } else {
        pieces[0] + seq![separator] + join(pieces.subrange(1, pieces.len() as int), separator)
    }
}

/// No piece holds the separator.
pub open spec fn pieces_are_whole(pieces: Seq<Seq<char>>, separator: char) -> bool {
    forall|i: int, j: int|
        0 <= i < pieces.len() && 0 <= j < pieces[i].len() ==> #[trigger] pieces[i][j] != separator
}

/// Position of the first `separator` at or after `from`, or the length of
/// `text`.
pub(crate) fn find(text: &Vec<char>, separator: char, from: usize) -> (at: usize)
    requires
        from <= text.len(),
    ensures
        at == find_from(text@, separator, from as int),
        from <= at <= text.len(),
{
    let mut at = from;
    while at < text.len() && text[at] != separator
        invariant
            from <= at <= text.len(),
            find_from(text@, separator, at as int) == find_from(text@, separator, from as int),
        decreases text.len() - at,
    {
        at += 1;
    }
    at
}

/// The positions of the two separators of a text of three fields.
pub(crate) fn field_bounds(text: &Vec<char>, separator: char) -> (bounds: Option<(usize, usize)>)
    ensures
        match bounds {
            Some((first, second)) => first < second < text.len() && split(text@, separator)
                == seq![
                text@.subrange(0, first as int),
                text@.subrange(first + 1, second as int),
                text@.subrange(second + 1, text.len() as int),
            ],
            None => split(text@, separator).len() != 3,
        },
{
    let len = text.len();
    proof {
        lemma_split_rest(text@, separator, 0);
    }
    let first = find(text, separator, 0);
    if first >= len {
        return None;
    }
    proof {
        lemma_split_rest(text@, separator, first + 1);
    }
    let second = find(text, separator, first + 1);
    if second >= len {
        return None;
    }
    proof {
        lemma_split_rest(text@, separator, second + 1);
    }
    let third = find(text, separator, second + 1);
    if third < len {
        proof {
            lemma_split_has_a_piece(text@.subrange(third + 1, len as int), separator);
        }
        return None;
    }
    Some((first, second))
}

/// The search from a position on finds a position from there to the end.
pub proof fn lemma_find_from_bounds(text: Seq<char>, separator: char, from: int)
    requires
        0 <= from <= text.len(),
    ensures
        from <= find_from(text, separator, from) <= text.len(),
        find_from(text, separator, from) < text.len() ==> text[find_from(text, separator, from)]
            == separator,
        forall|i: int| from <= i < find_from(text, separator, from) ==> text[i] != separator,
    decreases text.len() - from,
{
    if from < text.len() && text[from] != separator {
        lemma_find_from_bounds(text, separator, from + 1);
    }
}

/// Searching in the rest of a text from `start` on is searching in the text
/// itself, with positions counted from `start`.
pub proof fn lemma_find_in_rest(text: Seq<char>, separator: char, start: int, from: int)
    requires
        0 <= start <= from <= text.len(),
    ensures
        find_from(text.subrange(start, text.len() as int), separator, from - start) == find_from(
            text,
            separator,
            from,
        ) - start,
    decreases text.len() - from,
{
    if from < text.len() && text[from] != separator {
        lemma_find_in_rest(text, separator, start, from + 1);
    }
}

/// The pieces of the rest of a text from `start` on: the piece up to the
/// next separator, then the pieces of what follows that separator.
pub proof fn lemma_split_rest(text: Seq<char>, separator: char, start: int)
    requires
        0 <= start <= text.len(),
    ensures
        ({
            let at = find_from(text, separator, start);
            let rest = text.subrange(start, text.len() as int);
            &&& at >= text.len() ==> split(rest, separator) == seq![rest]
            &&& at < text.len() ==> split(rest, separator) == seq![text.subrange(start, at)]
                + split(text.subrange(at + 1, text.len() as int), separator)
        }),
{
    let at = find_from(text, separator, start);
    let rest = text.subrange(start, text.len() as int);
    lemma_find_in_rest(text, separator, start, start);
    lemma_find_from_bounds(text, separator, start);
    if at < text.len() {
        assert(rest.subrange(0, at - start) == text.subrange(start, at));
        assert(rest.subrange(at - start + 1, rest.len() as int) == text.subrange(
            at + 1,
            text.len() as int,
        ));
    }
}

/// A text always has a piece.
pub proof fn lemma_split_has_a_piece(text: Seq<char>, separator: char)
    ensures
        split(text, separator).len() >= 1,
{
}

/// The pieces of a text hold no separator, and joined again they give the
/// text.
pub proof fn lemma_split_then_join(text: Seq<char>, separator: char)
    ensures
        pieces_are_whole(split(text, separator), separator),
        join(split(text, separator), separator) == text,
    decreases text.len(),
{
    let at = find_from(text, separator, 0);
    lemma_find_from_bounds(text, separator, 0);
    let pieces = split(text, separator);
    if at < text.len() {
        let head = text.subrange(0, at);
        let rest = text.subrange(at + 1, text.len() as int);
        lemma_split_then_join(rest, separator);
        lemma_split_has_a_piece(rest, separator);
        let others = split(rest, separator);
        assert(pieces.subrange(1, pieces.len() as int) == others);
    }
}

/// Pieces that hold no separator, joined and split again, are the pieces:
/// a text has three fields exactly where it is three texts without the
/// separator, with the separator between them.
pub proof fn lemma_join_then_split(pieces: Seq<Seq<char>>, separator: char)
    requires
        pieces.len() >= 1,
        pieces_are_whole(pieces, separator),
    ensures
        split(join(pieces, separator), separator) == pieces,
    decreases pieces.len(),
{
    let text = join(pieces, separator);
    lemma_find_from_bounds(text, separator, 0);
    let at = find_from(text, separator, 0);
    if pieces.len() > 1 {
        let head = pieces[0];
        let others = pieces.subrange(1, pieces.len() as int);
        lemma_join_then_split(others, separator);
        assert(text[head.len() as int] == separator);
        assert(text.subrange(0, at) == head);
        assert(text.subrange(at + 1, text.len() as int) == join(others, separator));
    }
}

} // verus!
